use shai_core::compressor::{
    count_dialogue, find_first_user_text, render_conversation, summary_from_response,
    CompressionInfo, ContextCompressor, LlmResponse, LlmUsage, SummaryError,
};
use shai_core::message::Message;
use shai_core::prompt::{get_compression_summary_prompt, COMPRESSION_SUMMARY_PROMPT_HEAD};

fn user(t: &str) -> Message {
    Message::user(t.to_string())
}

fn assistant(t: &str) -> Message {
    Message::assistant(Some(t.to_string()), None)
}

fn system(t: &str) -> Message {
    Message::system(t.to_string())
}

fn text_of(m: &Message) -> Option<String> {
    match m {
        Message::System { content, .. } => content.clone(),
        Message::User { content } => content.clone(),
        Message::Assistant { content, .. } => content.clone(),
        Message::Tool { content, .. } => Some(content.clone()),
    }
}

fn conversation(turns: usize) -> Vec<Message> {
    let mut v = vec![system("System prompt")];
    for i in 0..turns {
        v.push(user(&format!("question {}", i)));
        v.push(assistant(&format!("answer {}", i)));
    }
    v
}

fn due(max: u32) -> ContextCompressor {
    let mut c = ContextCompressor::new_with_llm(max, "summary-model".to_string());
    c.update_token_count(max, 0);
    c
}

#[test]
fn test_compression_threshold() {
    let compressor = ContextCompressor::new(1000);
    assert!(!compressor.should_compress());

    // The threshold is 90% of the limit: 800 of 1000 is not yet due.
    let mut compressor = ContextCompressor::new(1000);
    compressor.update_token_count(800, 0);
    assert!(!compressor.should_compress());
    compressor.update_token_count(100, 0);
    assert!(compressor.should_compress());
}

#[test]
fn threshold_is_ninety_percent() {
    let mut c = ContextCompressor::new(1000);
    c.update_token_count(899, 0);
    assert!(!c.should_compress());
    c.update_token_count(1, 0);
    assert!(c.should_compress());
    let mut d = ContextCompressor::new(1001);
    d.update_token_count(900, 0);
    assert!(!d.should_compress());
    d.update_token_count(1, 0);
    assert!(d.should_compress());
}

#[test]
fn near_limit_is_ninety_five_percent() {
    let mut c = ContextCompressor::new(1000);
    c.update_token_count(949, 0);
    assert!(!c.is_near_limit());
    c.update_token_count(1, 0);
    assert!(c.is_near_limit());
}

#[test]
fn token_count_accumulates_and_saturates() {
    let mut c = ContextCompressor::new(10);
    c.update_token_count(3, 4);
    c.update_token_count(1, 2);
    assert_eq!(c.get_current_tokens(), 10);
    assert_eq!(c.get_max_tokens(), 10);
    c.update_token_count(u32::MAX, 1);
    assert_eq!(c.get_current_tokens(), u32::MAX);
}

#[test]
fn conversation_needs_more_than_two_dialogue_messages() {
    let c = due(1000);
    assert!(!c.should_compress_conversation(&conversation(1)));
    let mut three = conversation(1);
    three.push(user("more"));
    assert!(c.should_compress_conversation(&three));
    let idle = ContextCompressor::new(1000);
    assert!(!idle.should_compress_conversation(&three));
}

#[test]
fn force_on_short_trace_is_a_no_op() {
    let mut c = ContextCompressor::new(1000);
    let msgs = vec![user("hello"), assistant("hi")];
    let (out, info) = c.compress_messages_force(msgs, Err(SummaryError::NoClient));
    assert_eq!(out.len(), 2);
    assert!(info.is_none());
    assert_eq!(text_of(&out[0]).unwrap(), "hello");
    assert_eq!(c.get_current_tokens(), 0);
}

#[test]
fn compression_keeps_system_summary_and_recent_window() {
    let mut c = due(1000);
    let msgs = conversation(5);
    let (out, info) = c.compress_messages(msgs, Ok(("the gist".to_string(), 42)));
    assert_eq!(out.len(), 8);
    assert_eq!(text_of(&out[0]).unwrap(), "System prompt");
    match &out[1] {
        Message::System { content, name } => {
            assert_eq!(content.as_deref(), Some("Previous conversation summary: the gist"));
            assert_eq!(name.as_deref(), Some("summary"));
        }
        _ => panic!("summary expected"),
    }
    assert_eq!(text_of(&out[2]).unwrap(), "question 2");
    assert_eq!(text_of(&out[7]).unwrap(), "answer 4");
    let info: CompressionInfo = info.unwrap();
    assert_eq!(info.original_message_count, 11);
    assert_eq!(info.compressed_message_count, 8);
    assert_eq!(info.tokens_before, Some(1000));
    assert_eq!(info.current_tokens, Some(42));
    assert_eq!(info.max_tokens, 1000);
    assert_eq!(info.ai_summary.as_deref(), Some("the gist"));
    assert_eq!(c.get_current_tokens(), 42);
}

#[test]
fn failed_summary_leaves_fallback_note() {
    let mut c = due(1000);
    let (out, info) = c.compress_messages(conversation(4), Err(SummaryError::NoUsage));
    assert_eq!(out.len(), 8);
    match &out[1] {
        Message::System { content, name } => {
            assert_eq!(
                content.as_deref(),
                Some("[Previous conversation history compressed - AI summary unavailable]")
            );
            assert_eq!(name.as_deref(), Some("system"));
        }
        _ => panic!("note expected"),
    }
    let info = info.unwrap();
    assert_eq!(info.current_tokens, Some(50));
    assert!(info.ai_summary.is_none());
    assert_eq!(c.get_current_tokens(), 50);
}

#[test]
fn old_summaries_are_dropped_on_recompression() {
    let mut c = due(1000);
    let (once, _) = c.compress_messages(conversation(5), Ok(("first".to_string(), 10)));
    let mut longer = once;
    for i in 0..3 {
        longer.push(user(&format!("later {}", i)));
        longer.push(assistant(&format!("reply {}", i)));
    }
    c.update_token_count(1000, 0);
    let (twice, _) = c.compress_messages(longer, Ok(("second".to_string(), 10)));
    let summaries = twice
        .iter()
        .filter(|m| matches!(m, Message::System { name: Some(n), .. } if n == "summary"))
        .count();
    assert_eq!(summaries, 1);
    assert_eq!(twice.len(), 8);
    assert_eq!(text_of(&twice[1]).unwrap(), "Previous conversation summary: second");
}

#[test]
fn compressing_twice_changes_nothing_the_second_time() {
    let mut c = due(1000);
    let (once, _) = c.compress_messages(conversation(5), Ok(("gist".to_string(), 10)));
    let before: Vec<Option<String>> = once.iter().map(text_of).collect();
    let (twice, info) = c.compress_messages(once, Ok(("other".to_string(), 99)));
    let after: Vec<Option<String>> = twice.iter().map(text_of).collect();
    assert_eq!(before, after);
    assert!(info.is_none());
    assert_eq!(c.get_current_tokens(), 10);
}

#[test]
fn six_newest_dialogue_messages_survive() {
    let mut c = due(1000);
    let msgs = conversation(6);
    let newest: Vec<Option<String>> = msgs[msgs.len() - 6..].iter().map(text_of).collect();
    let (out, _) = c.compress_messages(msgs, Err(SummaryError::NoClient));
    let kept: Vec<Option<String>> = out
        .iter()
        .filter(|m| !matches!(m, Message::System { .. }))
        .map(text_of)
        .collect();
    assert_eq!(kept, newest);
}

#[test]
fn short_middle_is_not_summarised() {
    let mut c = due(1000);
    let mut msgs = conversation(2);
    msgs.insert(2, Message::System { content: Some("note".to_string()), name: None });
    let (out, info) = c.compress_messages(msgs, Ok(("unused".to_string(), 5)));
    assert!(info.is_none());
    assert_eq!(out.len(), 6);
    assert_eq!(text_of(&out[1]).unwrap(), "note");
    assert_eq!(text_of(&out[2]).unwrap(), "question 0");
    assert_eq!(c.get_current_tokens(), 0);
}

#[test]
fn summary_request_names_first_user_message() {
    let c = ContextCompressor::new_with_llm(1000, "m".to_string());
    let mut msgs = conversation(4);
    msgs.push(Message::tool("t1".to_string(), "tool out".to_string()));
    let full = msgs.clone();
    let q = c.summary_request(&msgs, &full).unwrap();
    assert_eq!(q.model, "m");
    assert_eq!(q.system_prompt, COMPRESSION_SUMMARY_PROMPT_HEAD);
    assert!(q.user_prompt.starts_with("Original user request: \"question 0\"\n\nFull conversation:\nSystem: System prompt\nUser: question 0\nAssistant: answer 0\n"));
    assert!(q.user_prompt.ends_with("Tool: tool out\n"));
    let none = ContextCompressor::new(1000);
    assert!(none.summary_request(&msgs, &full).is_none());
    assert!(c.summary_request(&conversation(3), &full).is_none());
}

#[test]
fn placeholder_when_no_user_message() {
    let c = ContextCompressor::new_with_llm(1000, "m".to_string());
    let msgs: Vec<Message> = (0..8).map(|i| assistant(&format!("a{}", i))).collect();
    let q = c.summary_request(&msgs, &vec![system("s")]).unwrap();
    assert!(q.user_prompt.starts_with("Original user request: \"[no user message found]\""));
}

#[test]
fn first_user_text_is_the_oldest() {
    let msgs = vec![system("s"), Message::User { content: None }, user("first"), user("second")];
    assert_eq!(find_first_user_text(&msgs).as_deref(), Some("first"));
    assert_eq!(count_dialogue(&msgs), 3);
}

#[test]
fn rendering_skips_summaries_and_non_text() {
    let msgs = vec![
        system("s"),
        Message::System { content: Some("old".to_string()), name: Some("summary".to_string()) },
        Message::Assistant { content: None, reasoning_content: None, tool_calls: None, refusal: None },
        user("u"),
    ];
    assert_eq!(render_conversation(&msgs), "System: s\nUser: u\n");
}

fn response(text: Option<&str>, completion: Option<u32>, usage: bool) -> LlmResponse {
    LlmResponse {
        first_choice: text.map(assistant),
        usage: if usage {
            Some(LlmUsage { prompt_tokens: Some(1), completion_tokens: completion, total_tokens: 1 })
        } else {
            None
        },
    }
}

#[test]
fn summary_response_validation() {
    match summary_from_response(Ok(response(Some("gist"), Some(7), true))) {
        Ok((s, k)) => {
            assert_eq!(s, "gist");
            assert_eq!(k, 7);
        }
        Err(_) => panic!("summary expected"),
    }
    assert!(matches!(
        summary_from_response(Ok(response(Some(" \t\n\u{3000}"), Some(7), true))),
        Err(SummaryError::EmptySummary)
    ));
    assert!(matches!(
        summary_from_response(Ok(response(Some("gist"), None, true))),
        Err(SummaryError::EmptySummary)
    ));
    assert!(matches!(
        summary_from_response(Ok(response(Some("gist"), Some(3), false))),
        Err(SummaryError::NoUsage)
    ));
    assert!(matches!(
        summary_from_response(Ok(response(None, Some(3), true))),
        Err(SummaryError::NoContent)
    ));
    assert!(matches!(
        summary_from_response(Err("down".to_string())),
        Err(SummaryError::Transport(e)) if e == "down"
    ));
}

#[test]
fn summary_prompt_fills_the_template() {
    let p = get_compression_summary_prompt("CONVERSATION");
    assert!(p.starts_with("Compress this conversation by eliminating ONLY redundant information"));
    assert!(p.ends_with("Conversation to summarize:\nCONVERSATION"));
    assert_eq!(p.len(), COMPRESSION_SUMMARY_PROMPT_HEAD.len() + 12);
}
