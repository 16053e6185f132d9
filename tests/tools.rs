use shai_core::message::{Message, ToolCall};
use shai_core::tools::{
    approval_outcome, cancelled_outcomes, order_outcomes, outcome_message, plan_tool_call,
    tool_messages, ToolOutcome, ToolPlan, ToolSpec,
};

fn call(id: &str, name: &str) -> ToolCall {
    ToolCall { id: id.to_string(), name: name.to_string(), arguments: "{}".to_string() }
}

fn ok(id: &str, out: &str) -> ToolOutcome {
    ToolOutcome { id: id.to_string(), output: Ok(out.to_string()) }
}

fn catalog() -> Vec<ToolSpec> {
    vec![
        ToolSpec { name: "read".to_string(), requires_approval: false },
        ToolSpec { name: "bash".to_string(), requires_approval: true },
    ]
}

#[test]
fn outcomes_come_back_in_request_order() {
    let calls = vec![call("A", "read"), call("B", "read"), call("C", "read")];
    let arrived = vec![ok("B", "b"), ok("A", "a"), ok("C", "c")];
    let ordered = order_outcomes(&calls, &arrived);
    let ids: Vec<&str> = ordered.iter().map(|o| o.id.as_str()).collect();
    assert_eq!(ids, vec!["A", "B", "C"]);
    assert_eq!(ordered[0].output, Ok("a".to_string()));
    assert_eq!(ordered[1].output, Ok("b".to_string()));
    assert_eq!(ordered[2].output, Ok("c".to_string()));
}

#[test]
fn missing_outcome_fails_the_call() {
    let calls = vec![call("A", "read"), call("B", "read")];
    let ordered = order_outcomes(&calls, &vec![ok("A", "a")]);
    assert_eq!(ordered[1].id, "B");
    assert_eq!(ordered[1].output, Err("no result".to_string()));
}

#[test]
fn unknown_tool_is_settled_without_running() {
    match plan_tool_call(&catalog(), &call("X", "nope"), false) {
        ToolPlan::Settled(o) => {
            assert_eq!(o.id, "X");
            assert_eq!(o.output, Err("unknown tool".to_string()));
        }
        _ => panic!("settled expected"),
    }
}

#[test]
fn approval_only_in_approval_mode() {
    assert!(matches!(plan_tool_call(&catalog(), &call("1", "bash"), true), ToolPlan::AskApproval));
    assert!(matches!(plan_tool_call(&catalog(), &call("1", "bash"), false), ToolPlan::Invoke));
    assert!(matches!(plan_tool_call(&catalog(), &call("1", "read"), true), ToolPlan::Invoke));
}

#[test]
fn denial_fails_the_call() {
    let o = approval_outcome(&call("7", "bash"), false).unwrap();
    assert_eq!(o.id, "7");
    assert_eq!(o.output, Err("user denied".to_string()));
    assert!(approval_outcome(&call("7", "bash"), true).is_none());
}

#[test]
fn cancelled_batch_answers_every_call() {
    let calls = vec![call("A", "read"), call("B", "bash")];
    let outs = cancelled_outcomes(&calls);
    assert_eq!(outs.len(), 2);
    assert_eq!(outs[1].id, "B");
    assert_eq!(outs[1].output, Err("cancelled".to_string()));
}

#[test]
fn tool_messages_report_outputs_and_errors() {
    let calls = vec![call("A", "read"), call("B", "read")];
    let outs = vec![
        ToolOutcome { id: "B".to_string(), output: Err("timeout".to_string()) },
        ok("A", "fine"),
    ];
    let msgs = tool_messages(&calls, &outs);
    match (&msgs[0], &msgs[1]) {
        (
            Message::Tool { content: c0, tool_call_id: i0 },
            Message::Tool { content: c1, tool_call_id: i1 },
        ) => {
            assert_eq!((i0.as_str(), c0.as_str()), ("A", "fine"));
            assert_eq!((i1.as_str(), c1.as_str()), ("B", "error: timeout"));
        }
        _ => panic!("tool messages expected"),
    }
    match outcome_message(ok("Z", "z")) {
        Message::Tool { content, tool_call_id } => {
            assert_eq!(content, "z");
            assert_eq!(tool_call_id, "Z");
        }
        _ => panic!("tool message expected"),
    }
}
