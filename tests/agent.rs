use shai_core::agent::{
    AgentAction, AgentCore, AgentError, AgentEvent, AgentState, InternalAgentEvent, TaskKind,
    ThinkerDecision, ThinkerFlowControl, ToolCallMethod,
};
use shai_core::compressor::{ContextCompressor, SummaryError};
use shai_core::message::{Message, ToolCall};
use shai_core::tools::{ToolOutcome, ToolSpec};

const NOW: i64 = 1_700_000_000_000;

fn new_core(compressor: Option<ContextCompressor>) -> AgentCore {
    AgentCore::new(
        Some("You are helpful".to_string()),
        vec![ToolSpec { name: "echo".to_string(), requires_approval: false }],
        ToolCallMethod::FunctionCall,
        compressor,
    )
}

fn decision(text: &str, calls: Option<Vec<ToolCall>>, flow: ThinkerFlowControl) -> ThinkerDecision {
    ThinkerDecision {
        message: Message::assistant(Some(text.to_string()), calls),
        flow,
        token_usage: None,
        compression_info: None,
    }
}

fn brain(d: ThinkerDecision) -> InternalAgentEvent {
    InternalAgentEvent::BrainResult { result: Ok(d) }
}

fn input(t: &str) -> InternalAgentEvent {
    InternalAgentEvent::UserInput { input: t.to_string() }
}

fn echo_call(id: &str) -> ToolCall {
    ToolCall { id: id.to_string(), name: "echo".to_string(), arguments: "{\"text\":\"hi\"}".to_string() }
}

fn is_task(s: AgentState, k: TaskKind) -> bool {
    matches!(s, AgentState::Processing { task, .. } if task == k)
}

#[test]
fn echo_tool_turn() {
    let mut c = new_core(None);
    let acts = c.handle_event(input("say hi"), NOW);
    assert!(matches!(acts[0], AgentAction::SpawnBrain));
    assert_eq!(c.public_state(), AgentState::Processing { task: TaskKind::NextStep, started_at: NOW });

    let acts = c.handle_event(brain(decision("", Some(vec![echo_call("c1")]), ThinkerFlowControl::AgentContinue)), NOW);
    assert!(is_task(c.public_state(), TaskKind::Tools));
    assert!(acts.iter().any(|a| matches!(a, AgentAction::SpawnTools { calls } if calls.len() == 1 && calls[0].id == "c1")));
    assert!(matches!(&acts[0], AgentAction::Emit { event: AgentEvent::BrainResult { thought: Ok(_), .. } }));

    let acts = c.handle_event(InternalAgentEvent::ToolsResult {
        outcomes: vec![ToolOutcome { id: "c1".to_string(), output: Ok("hi".to_string()) }],
    }, NOW);
    assert!(matches!(acts[0], AgentAction::SpawnBrain));

    c.handle_event(brain(decision("hi", None, ThinkerFlowControl::AgentPause)), NOW);
    assert_eq!(c.public_state(), AgentState::Paused);
    let t = c.trace();
    assert_eq!(t.len(), 5);
    assert!(matches!(t[0], Message::System { .. }));
    assert!(matches!(&t[1], Message::User { content: Some(s) } if s == "say hi"));
    assert!(matches!(&t[2], Message::Assistant { tool_calls: Some(v), .. } if v.len() == 1));
    assert!(matches!(&t[3], Message::Tool { content, tool_call_id } if content == "hi" && tool_call_id == "c1"));
    assert!(matches!(&t[4], Message::Assistant { content: Some(s), .. } if s == "hi"));
    assert_eq!(c.full_trace().len(), 5);
}

#[test]
fn cancel_mid_brain() {
    let mut c = new_core(None);
    c.handle_event(input("long task"), NOW);
    let acts = c.handle_event(InternalAgentEvent::CancelTask, NOW);
    assert_eq!(c.public_state(), AgentState::Paused);
    assert!(matches!(acts[0], AgentAction::CancelTask));
    assert!(matches!(acts[1], AgentAction::Emit { event: AgentEvent::TaskCancelled }));
    // the late brain result is dropped
    let late = c.handle_event(brain(decision("late", None, ThinkerFlowControl::AgentPause)), NOW);
    assert!(late.is_empty());
    assert_eq!(c.trace().len(), 2);
    assert!(!c.trace().iter().any(|m| matches!(m, Message::Assistant { .. })));
}

#[test]
fn cancel_during_tools_answers_calls() {
    let mut c = new_core(None);
    c.handle_event(input("two tools"), NOW);
    c.handle_event(brain(decision("", Some(vec![echo_call("a"), echo_call("b")]), ThinkerFlowControl::AgentContinue)), NOW);
    c.handle_event(InternalAgentEvent::CancelTask, NOW);
    assert_eq!(c.public_state(), AgentState::Paused);
    let t = c.trace();
    assert_eq!(t.len(), 5);
    assert!(matches!(&t[3], Message::Tool { content, tool_call_id } if content == "error: cancelled" && tool_call_id == "a"));
    assert!(matches!(&t[4], Message::Tool { tool_call_id, .. } if tool_call_id == "b"));
}

#[test]
fn cancel_outside_processing_is_ignored() {
    let mut c = new_core(None);
    assert!(c.handle_event(InternalAgentEvent::CancelTask, NOW).is_empty());
    assert_eq!(c.public_state(), AgentState::Idle);
}

#[test]
fn input_while_processing_is_rejected() {
    let mut c = new_core(None);
    c.handle_event(input("first"), NOW);
    let acts = c.handle_event(input("second"), NOW);
    assert!(matches!(&acts[0], AgentAction::Emit { event: AgentEvent::InputRejected { input } } if input == "second"));
    assert_eq!(c.trace().len(), 2);
}

#[test]
fn brain_error_pauses() {
    let mut c = new_core(None);
    c.handle_event(input("hi"), NOW);
    let acts = c.handle_event(InternalAgentEvent::BrainResult {
        result: Err(AgentError::BrainTransport("down".to_string())),
    }, NOW);
    assert_eq!(c.public_state(), AgentState::Paused);
    assert!(matches!(&acts[0], AgentAction::Emit { event: AgentEvent::BrainResult { thought: Err(AgentError::BrainTransport(_)), .. } }));
}

#[test]
fn non_assistant_decision_is_invalid() {
    let mut c = new_core(None);
    c.handle_event(input("hi"), NOW);
    let acts = c.handle_event(brain(ThinkerDecision {
        message: Message::user("oops".to_string()),
        flow: ThinkerFlowControl::AgentPause,
        token_usage: None,
        compression_info: None,
    }), NOW);
    assert_eq!(c.public_state(), AgentState::Paused);
    assert!(matches!(&acts[0], AgentAction::Emit { event: AgentEvent::BrainResult { thought: Err(AgentError::InvalidResponse(_)), .. } }));
    assert_eq!(c.trace().len(), 2);
}

#[test]
fn continue_spawns_another_step_and_usage_is_counted() {
    let mut c = new_core(Some(ContextCompressor::new(1000)));
    c.handle_event(input("hi"), NOW);
    let mut d = decision("thinking", None, ThinkerFlowControl::AgentContinue);
    d.token_usage = Some((10, 5));
    let acts = c.handle_event(brain(d), NOW);
    assert!(matches!(acts[1], AgentAction::Emit { event: AgentEvent::TokenUsage { input_tokens: 10, output_tokens: 5 } }));
    assert!(acts.iter().any(|a| matches!(a, AgentAction::SpawnBrain)));
    assert!(is_task(c.public_state(), TaskKind::NextStep));
    assert_eq!(c.compressor().as_ref().unwrap().get_current_tokens(), 15);
}

fn long_conversation(c: &mut AgentCore, turns: usize) {
    for i in 0..turns {
        c.handle_event(input(&format!("q{}", i)), NOW);
        c.handle_event(brain(decision(&format!("a{}", i), None, ThinkerFlowControl::AgentPause)), NOW);
    }
}

#[test]
fn compress_trigger_on_brain_result() {
    let mut c = new_core(Some(ContextCompressor::new_with_llm(1000, "m".to_string())));
    long_conversation(&mut c, 5);
    c.handle_event(input("q5"), NOW);
    let mut d = decision("a5", None, ThinkerFlowControl::AgentPause);
    d.token_usage = Some((900, 1));
    c.handle_event(brain(d), NOW);
    assert_eq!(c.compressor().as_ref().unwrap().get_current_tokens(), 901);

    c.handle_event(input("q6"), NOW);
    let acts = c.handle_event(brain(decision("a6", None, ThinkerFlowControl::AgentPause)), NOW);
    assert!(is_task(c.public_state(), TaskKind::Compression));
    assert!(matches!(&acts[0], AgentAction::Summarize { request } if request.model == "m"));

    let acts = c.handle_event(InternalAgentEvent::SummaryResult { outcome: Ok(("gist".to_string(), 30)) }, NOW);
    assert!(matches!(&acts[0], AgentAction::Emit { event: AgentEvent::ContextCompressed { .. } }));
    assert_eq!(c.public_state(), AgentState::Paused);
    let t = c.trace();
    assert!(matches!(&t[0], Message::System { name: None, .. }));
    assert!(matches!(&t[1], Message::System { name: Some(n), .. } if n == "summary"));
    // the six newest non-system messages before the result, then the result
    assert_eq!(t.len(), 2 + 6 + 1);
    assert!(matches!(&t[2], Message::Assistant { content: Some(s), .. } if s == "a3"));
    assert!(matches!(&t[7], Message::User { content: Some(s) } if s == "q6"));
    assert!(matches!(&t[8], Message::Assistant { content: Some(s), .. } if s == "a6"));
    assert_eq!(c.compressor().as_ref().unwrap().get_current_tokens(), 30);
}

#[test]
fn manual_compression_on_short_trace_is_a_no_op() {
    let mut c = new_core(Some(ContextCompressor::new_with_llm(1000, "m".to_string())));
    long_conversation(&mut c, 1);
    let acts = c.handle_event(InternalAgentEvent::ManualCompressionRequested, NOW);
    assert!(acts.is_empty());
    assert_eq!(c.trace().len(), 3);
    assert_eq!(c.public_state(), AgentState::Paused);
}

#[test]
fn manual_compression_asks_for_summary() {
    let mut c = new_core(Some(ContextCompressor::new_with_llm(1000, "m".to_string())));
    long_conversation(&mut c, 4);
    let acts = c.handle_event(InternalAgentEvent::ManualCompressionRequested, NOW);
    assert!(matches!(&acts[0], AgentAction::Summarize { .. }));
    let acts = c.handle_event(InternalAgentEvent::SummaryResult { outcome: Err(SummaryError::NoContent) }, NOW);
    assert!(matches!(&acts[0], AgentAction::Emit { event: AgentEvent::ContextCompressed { info } } if info.ai_summary.is_none()));
    assert_eq!(c.public_state(), AgentState::Paused);
    assert_eq!(c.trace().len(), 8);
}

#[test]
fn manual_compression_is_queued_until_paused() {
    let mut c = new_core(Some(ContextCompressor::new(1000)));
    long_conversation(&mut c, 4);
    c.handle_event(input("q"), NOW);
    assert!(c.handle_event(InternalAgentEvent::ManualCompressionRequested, NOW).is_empty());
    let acts = c.handle_event(brain(decision("a", None, ThinkerFlowControl::AgentPause)), NOW);
    // no model: the queued compression runs at once with the fallback note
    assert!(acts.iter().any(|a| matches!(a, AgentAction::Emit { event: AgentEvent::ContextCompressed { .. } })));
    assert_eq!(c.trace().len(), 8);
}

#[test]
fn shutdown_cancels_and_terminates() {
    let mut c = new_core(None);
    c.handle_event(input("x"), NOW);
    let acts = c.handle_event(InternalAgentEvent::Shutdown, NOW);
    assert!(matches!(acts[0], AgentAction::CancelTask));
    assert!(matches!(acts[1], AgentAction::Terminate));
    assert_eq!(c.public_state(), AgentState::Idle);
}

#[test]
fn shutdown_during_tools_answers_open_calls() {
    let mut c = new_core(None);
    c.handle_event(input("two tools"), NOW);
    c.handle_event(brain(decision("", Some(vec![echo_call("a"), echo_call("b")]), ThinkerFlowControl::AgentContinue)), NOW);
    let acts = c.handle_event(InternalAgentEvent::Shutdown, NOW);
    assert!(matches!(acts[0], AgentAction::CancelTask));
    assert_eq!(c.public_state(), AgentState::Idle);
    let t = c.trace();
    assert_eq!(t.len(), 5);
    assert!(matches!(&t[4], Message::Tool { content, tool_call_id } if content == "error: cancelled" && tool_call_id == "b"));
}
