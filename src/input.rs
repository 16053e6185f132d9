//! Decisions of the terminal input area that do not depend on the terminal:
//! what a submitted input becomes, where an `@` file search starts, how the
//! suggestion and history cursors move, and the texts of the status lines.
use vstd::prelude::*;

use crate::agent::ToolCallMethod;
use crate::text::chars_of;

verus! {

/// What the user asked for with the last key press.
#[derive(Debug, Clone, PartialEq, Eq)]
pub enum UserAction {
    Nope,
    CancelTask,
    UserInput { input: String },
    UserAppCommand { command: String },
}

pub open spec fn method_label(m: ToolCallMethod) -> Seq<char> {
    match m {
        ToolCallMethod::Auto => "🛠️ tool call try all methods"@,
        ToolCallMethod::FunctionCall => "🛠️ function call (auto)"@,
        ToolCallMethod::FunctionCallRequired => "🛠️ function call (required)"@,
        ToolCallMethod::StructuredOutput => "🛠️ structured output"@,
        ToolCallMethod::Parsing => "🛠️ parsing"@,
    }
}

/// The label that shows the tool-call method.
pub fn method_str(method: ToolCallMethod) -> (r: &'static str)
    ensures
        r@ == method_label(method),
{
    match method {
        ToolCallMethod::Auto => "🛠️ tool call try all methods",
        ToolCallMethod::FunctionCall => "🛠️ function call (auto)",
        ToolCallMethod::FunctionCallRequired => "🛠️ function call (required)",
        ToolCallMethod::StructuredOutput => "🛠️ structured output",
        ToolCallMethod::Parsing => "🛠️ parsing",
    }
}

/// The lines joined with newlines.
pub open spec fn joined(lines: Seq<Seq<char>>) -> Seq<char>
    decreases lines.len(),
{
    if lines.len() == 0 {
        Seq::empty()
    } else if lines.len() == 1 {
        lines[0]
    } else {
        joined(lines.drop_last()) + "\n"@ + lines.last()
    }
}

pub open spec fn lines_view(lines: Seq<String>) -> Seq<Seq<char>> {
    lines.map_values(|l: String| l@)
}

/// What a confirmed Enter submits: nothing while the agent runs or when the
/// first line is empty; otherwise the joined text, as an application command
/// when it starts with `/`.
pub fn submit_action(lines: &Vec<String>, agent_running: bool) -> (r: Option<UserAction>)
    requires
        lines.len() > 0,
    ensures
        agent_running ==> r == Some(UserAction::Nope),
        !agent_running && lines@[0]@.len() == 0 ==> r is None,
        !agent_running && lines@[0]@.len() > 0 ==> match r {
            Some(UserAction::UserAppCommand { command }) => command@ == joined(lines_view(lines@))
                && command@[0] == '/',
            Some(UserAction::UserInput { input }) => input@ == joined(lines_view(lines@))
                && input@[0] != '/',
            _ => false,
        },
{
    if agent_running {
        return Some(UserAction::Nope);
    }
    if lines[0].as_str().unicode_len() == 0 {
        return None;
    }
    let text = join_lines(lines);
    let first = text.as_str().get_char(0);
    if first == '/' {
        Some(UserAction::UserAppCommand { command: text })
    } else {
        Some(UserAction::UserInput { input: text })
    }
}

fn join_lines(lines: &Vec<String>) -> (r: String)
    requires
        lines.len() > 0,
    ensures
        r@ == joined(lines_view(lines@)),
        r@.len() >= lines@[0]@.len(),
        forall|j: int| 0 <= j < lines@[0]@.len() ==> r@[j] == lines@[0]@[j],
{
    let mut text = lines[0].clone();
    let mut i: usize = 1;
    assert(lines_view(lines@.take(1)) =~= seq![lines@[0]@]);
    while i < lines.len()
        invariant
            1 <= i <= lines.len(),
            text@ == joined(lines_view(lines@.take(i as int))),
            text@.len() >= lines@[0]@.len(),
            forall|j: int| 0 <= j < lines@[0]@.len() ==> text@[j] == lines@[0]@[j],
        decreases lines.len() - i,
    {
        let ghost before = text@;
        text.append("\n");
        text.append(lines[i].as_str());
        assert(lines_view(lines@.take(i + 1)).drop_last() =~= lines_view(lines@.take(i as int)));
        assert(text@ =~= before + "\n"@ + lines@[i as int]@);
        i += 1;
    }
    assert(lines@.take(lines.len() as int) =~= lines@);
    text
}

/// The position of the last `@` among the first `i` characters of `s`.
pub open spec fn last_at(s: Seq<char>, i: int) -> Option<int>
    decreases i,
{
    if i <= 0 {
        None
    } else if s[i - 1] == '@' {
        Some(i - 1)
    } else {
        last_at(s, i - 1)
    }
}

/// The cursor column `col`, taken as at most the line's length.
pub open spec fn clamped(line: Seq<char>, col: int) -> int {
    if col < line.len() {
        col
    } else {
        line.len() as int
    }
}

pub open spec fn no_space(s: Seq<char>) -> bool {
    forall|k: int| 0 <= k < s.len() ==> s[k] != ' '
}

/// The `@` search under the cursor: the last `@` before the cursor with no
/// space between it and the cursor. Gives the `@`'s position and the text
/// typed after it.
pub open spec fn file_search(line: Seq<char>, col: int) -> Option<(int, Seq<char>)> {
    let before = line.take(clamped(line, col));
    match last_at(before, clamped(line, col)) {
        None => None,
        Some(at) => if no_space(before.skip(at + 1)) {
            Some((at, before.skip(at + 1)))
        } else {
            None
        },
    }
}

/// Finds the `@` search that the cursor at column `col` of `line` is in.
pub fn detect_file_search(line: &str, col: usize) -> (r: Option<(usize, String)>)
    ensures
        match file_search(line@, col as int) {
            None => r is None,
            Some((at, after)) => r matches Some((p, s)) && p == at && s@ == after,
        },
{
    let chars = chars_of(line);
    let c: usize = if col < chars.len() {
        col
    } else {
        chars.len()
    };
    let ghost before = line@.take(c as int);
    let mut i: usize = c;
    while i > 0
        invariant
            i <= c,
            c <= chars.len(),
            chars@ == line@,
            before == line@.take(c as int),
            last_at(before, c as int) == last_at(before, i as int),
            c == (if col < line@.len() {
                col
            } else {
                line@.len() as usize
            }),
        decreases i,
    {
        if chars[i - 1] == '@' {
            let at = i - 1;
            assert(before[at as int] == '@');
            assert(last_at(before, i as int) == Some(at as int));
            assert(last_at(before, c as int) == Some(at as int));
            let mut after: Vec<char> = Vec::new();
            let mut j: usize = at + 1;
            while j < c
                invariant
                    at + 1 <= j <= c,
                    c <= chars.len(),
                    chars@ == line@,
                    after@ == before.subrange(at + 1, j as int),
                    before == line@.take(c as int),
                    forall|k: int| 0 <= k < after@.len() ==> after@[k] != ' ',
                    last_at(before, c as int) == Some(at as int),
                    c == (if col < line@.len() {
                        col
                    } else {
                        line@.len() as usize
                    }),
                decreases c - j,
            {
                if chars[j] == ' ' {
                    let ghost tail = before.skip(at + 1);
                    assert(tail[j - at - 1] == ' ');
                    assert(!no_space(tail));
                    return None;
                }
                after.push(chars[j]);
                j += 1;
                assert(after@ =~= before.subrange(at + 1, j as int));
            }
            assert(before.skip(at + 1) =~= after@);
            let s = string_of(&after);
            return Some((at, s));
        }
        i -= 1;
    }
    None
}

/// Relies on `String::from_iter`: the string of the characters, in order.
#[verifier::external_body]
fn string_of(chars: &Vec<char>) -> (r: String)
    ensures
        r@ == chars@,
{
    chars.iter().collect()
}

/// The suggestion above `idx`, wrapping to the last one.
pub fn suggestion_up(idx: usize, count: usize) -> (r: usize)
    requires
        count > 0,
    ensures
        r == if idx > 0 {
            idx - 1
        } else {
            count - 1
        },
{
    if idx > 0 {
        idx - 1
    } else {
        count - 1
    }
}

/// The suggestion below `idx`, wrapping to the first one.
pub fn suggestion_down(idx: usize, count: usize) -> (r: usize)
    requires
        count > 0,
        idx < usize::MAX,
    ensures
        r == (idx + 1) % (count as int),
{
    (idx + 1) % count
}

/// Where the history cursor goes on Up: one entry back, when there is one
/// and the input is empty or the cursor is on its first line.
pub fn history_up(history_len: usize, index: usize, input_empty: bool, cursor_row: usize) -> (r:
    Option<usize>)
    ensures
        r == if history_len > 0 && index > 0 && (input_empty || cursor_row == 0) {
            Some((index - 1) as usize)
        } else {
            None::<usize>
        },
{
    if history_len > 0 && index > 0 && (input_empty || cursor_row == 0) {
        Some(index - 1)
    } else {
        None
    }
}

/// Where the history cursor goes on Down: one entry on, when the input is
/// empty or the cursor is on its last line and the cursor is not past the
/// newest entry. `Some(history_len)` means back to the draft.
pub fn history_down(
    history_len: usize,
    index: usize,
    input_empty: bool,
    cursor_row: usize,
    line_count: usize,
) -> (r: Option<usize>)
    requires
        line_count > 0,
    ensures
        r == if history_len > 0 && (input_empty || cursor_row == line_count - 1) && index
            < history_len {
            Some((index + 1) as usize)
        } else {
            None::<usize>
        },
{
    if history_len > 0 && (input_empty || cursor_row == line_count - 1) && index < history_len {
        Some(index + 1)
    } else {
        None
    }
}

pub open spec fn sat_u16(x: int) -> u16 {
    if x > u16::MAX {
        u16::MAX
    } else {
        x as u16
    }
}

/// The rows the input area takes: its lines (at least one), two borders, the
/// status and helper rows, the help panel, and up to five suggestions in a
/// bordered list. Saturates at `u16::MAX`.
pub fn input_height(line_count: usize, help_height: u16, suggestion_count: usize) -> (r: u16)
    ensures
        r == sat_u16(
            (if line_count > 1 {
                line_count as int
            } else {
                1
            }) + 4 + help_height + (if suggestion_count > 0 {
                (if suggestion_count < 5 {
                    suggestion_count as int
                } else {
                    5
                }) + 2
            } else {
                0
            }),
        ),
{
    let lines: u128 = if line_count > 1 {
        line_count as u128
    } else {
        1
    };
    let suggestions: u128 = if suggestion_count > 0 {
        (if suggestion_count < 5 {
            suggestion_count as u128
        } else {
            5
        }) + 2
    } else {
        0
    };
    let total: u128 = lines + 4 + help_height as u128 + suggestions;
    if total > u16::MAX as u128 {
        u16::MAX
    } else {
        total as u16
    }
}

pub open spec fn spinner_frame(i: int) -> Seq<char> {
    if i == 0 {
        "⠋"@
    } else if i == 1 {
        "⠙"@
    } else if i == 2 {
        "⠹"@
    } else if i == 3 {
        "⠸"@
    } else if i == 4 {
        "⠼"@
    } else if i == 5 {
        "⠴"@
    } else if i == 6 {
        "⠦"@
    } else if i == 7 {
        "⠧"@
    } else if i == 8 {
        "⠇"@
    } else {
        "⠏"@
    }
}

fn spinner(i: u128) -> (r: &'static str)
    requires
        i < 10,
    ensures
        r@ == spinner_frame(i as int),
{
    if i == 0 {
        "⠋"
    } else if i == 1 {
        "⠙"
    } else if i == 2 {
        "⠹"
    } else if i == 3 {
        "⠸"
    } else if i == 4 {
        "⠼"
    } else if i == 5 {
        "⠴"
    } else if i == 6 {
        "⠦"
    } else if i == 7 {
        "⠧"
    } else if i == 8 {
        "⠇"
    } else {
        "⠏"
    }
}

/// The status line: the status message if there is one; else, while the
/// agent works (`elapsed_ms` since it started), a spinner frame that
/// advances every 100 ms; else nothing.
pub fn status_text(status_message: &Option<String>, elapsed_ms: Option<u128>) -> (r: String)
    ensures
        match status_message {
            Some(m) => r@ == " "@ + m@,
            None => match elapsed_ms {
                Some(e) => r@ == " "@ + spinner_frame(((e / 100) % 10) as int)
                    + " Agent is working... (press esc to cancel)"@,
                None => r@.len() == 0,
            },
        },
{
    match status_message {
        Some(m) => String::from_str(" ").concat(m.as_str()),
        None => match elapsed_ms {
            Some(e) => String::from_str(" ").concat(spinner((e / 100) % 10)).concat(
                " Agent is working... (press esc to cancel)",
            ),
            None => String::new(),
        },
    }
}

} // verus!
