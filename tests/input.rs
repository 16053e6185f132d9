use shai_core::agent::ToolCallMethod;
use shai_core::input::{
    detect_file_search, history_down, history_up, input_height, method_str, status_text,
    submit_action, suggestion_down, suggestion_up, UserAction,
};

#[test]
fn submit_joins_lines_and_spots_commands() {
    let lines = vec!["hello".to_string(), "world".to_string()];
    assert_eq!(
        submit_action(&lines, false),
        Some(UserAction::UserInput { input: "hello\nworld".to_string() })
    );
    let cmd = vec!["/help".to_string()];
    assert_eq!(
        submit_action(&cmd, false),
        Some(UserAction::UserAppCommand { command: "/help".to_string() })
    );
    assert_eq!(submit_action(&vec![String::new(), "x".to_string()], false), None);
    assert_eq!(submit_action(&lines, true), Some(UserAction::Nope));
}

#[test]
fn file_search_after_at_sign() {
    assert_eq!(detect_file_search("open @src/ma", 12), Some((5, "src/ma".to_string())));
    assert_eq!(detect_file_search("open @src/ma", 100), Some((5, "src/ma".to_string())));
    assert_eq!(detect_file_search("open @src main", 14), None);
    assert_eq!(detect_file_search("no at sign", 5), None);
    assert_eq!(detect_file_search("@a @b", 5), Some((3, "b".to_string())));
    assert_eq!(detect_file_search("é@ü", 3), Some((1, "ü".to_string())));
}

#[test]
fn suggestion_cursor_wraps() {
    assert_eq!(suggestion_up(0, 3), 2);
    assert_eq!(suggestion_up(2, 3), 1);
    assert_eq!(suggestion_down(2, 3), 0);
    assert_eq!(suggestion_down(0, 3), 1);
}

#[test]
fn history_moves() {
    assert_eq!(history_up(3, 3, true, 4), Some(2));
    assert_eq!(history_up(3, 0, true, 0), None);
    assert_eq!(history_up(3, 2, false, 1), None);
    assert_eq!(history_down(3, 2, false, 1, 2), Some(3));
    assert_eq!(history_down(3, 3, true, 0, 1), None);
    assert_eq!(history_down(0, 0, true, 0, 1), None);
}

#[test]
fn height_counts_rows() {
    assert_eq!(input_height(0, 0, 0), 5);
    assert_eq!(input_height(3, 2, 0), 9);
    assert_eq!(input_height(1, 0, 9), 12);
    assert_eq!(input_height(usize::MAX, 0, 0), u16::MAX);
}

#[test]
fn method_labels() {
    assert_eq!(method_str(ToolCallMethod::Parsing), "🛠️ parsing");
    assert_eq!(method_str(ToolCallMethod::FunctionCall), "🛠️ function call (auto)");
}

#[test]
fn status_line() {
    assert_eq!(status_text(&Some("Task cancelled".to_string()), Some(5)), " Task cancelled");
    assert_eq!(status_text(&None, Some(250)), " ⠹ Agent is working... (press esc to cancel)");
    assert_eq!(status_text(&None, None), "");
}
