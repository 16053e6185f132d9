use vstd::prelude::*;

verus! {

/// The `name` tag that marks a system message written by the context compressor.
pub const SUMMARY_TAG: &'static str = "summary";

/// A request from the assistant to run one tool.
/// `arguments` holds the structured payload as JSON text.
#[derive(Debug)]
pub struct ToolCall {
    pub id: String,
    pub name: String,
    pub arguments: String,
}

impl Clone for ToolCall {
    fn clone(&self) -> (r: Self)
        ensures
            r == *self,
    {
        ToolCall { id: self.id.clone(), name: self.name.clone(), arguments: self.arguments.clone() }
    }
}

/// One entry of a conversation trace.
///
/// A textual payload is `Some(text)`; `None` stands for a payload that is not
/// plain text (for instance a list of content parts), which renderers skip.
#[derive(Debug, Clone)]
#[allow(inconsistent_fields)]
pub enum Message {
    System { content: Option<String>, name: Option<String> },
    User { content: Option<String> },
    Assistant {
        content: Option<String>,
        reasoning_content: Option<String>,
        tool_calls: Option<Vec<ToolCall>>,
        refusal: Option<String>,
    },
    Tool { content: String, tool_call_id: String },
}

pub open spec fn opt_calls_view(o: Option<Vec<ToolCall>>) -> Option<Seq<ToolCall>> {
    match o {
        Some(v) => Some(v@),
        None => None,
    }
}

/// The tool calls that an assistant message requests (empty for any other message).
pub open spec fn requested_calls(m: Message) -> Seq<ToolCall> {
    match m {
        Message::Assistant { tool_calls: Some(v), .. } => v@,
        _ => Seq::empty(),
    }
}

/// `a` and `b` are the same message: equal fields, tool calls compared by content.
pub open spec fn same_message(a: Message, b: Message) -> bool {
    match (a, b) {
        (
            Message::Assistant { content: c1, reasoning_content: r1, tool_calls: t1, refusal: f1 },
            Message::Assistant { content: c2, reasoning_content: r2, tool_calls: t2, refusal: f2 },
        ) => c1 == c2 && r1 == r2 && f1 == f2 && opt_calls_view(t1) == opt_calls_view(t2),
        _ => a == b,
    }
}

/// The message is a tool result answering the call with id `id`.
pub open spec fn answers_call(m: Message, id: Seq<char>) -> bool {
    match m {
        Message::Tool { tool_call_id, .. } => tool_call_id@ == id,
        _ => false,
    }
}

/// `msgs` answers `calls` one for one, in order.
pub open spec fn answers_all(msgs: Seq<Message>, calls: Seq<ToolCall>) -> bool {
    &&& msgs.len() == calls.len()
    &&& forall|k: int| 0 <= k < msgs.len() ==> answers_call(#[trigger] msgs[k], calls[k].id@)
}

fn copy_opt(o: &Option<String>) -> (r: Option<String>)
    ensures
        r == *o,
{
    match o {
        Some(s) => Some(s.clone()),
        None => None,
    }
}

pub fn copy_calls(v: &Vec<ToolCall>) -> (r: Vec<ToolCall>)
    ensures
        r@ == v@,
{
    let mut r: Vec<ToolCall> = Vec::new();
    let mut i: usize = 0;
    while i < v.len()
        invariant
            i <= v.len(),
            r@ == v@.take(i as int),
        decreases v.len() - i,
    {
        r.push(v[i].clone());
        i += 1;
        assert(r@ =~= v@.take(i as int));
    }
    assert(v@.take(v.len() as int) =~= v@);
    r
}

impl Message {
    pub open spec fn is_system(&self) -> bool {
        self is System
    }

    /// A system message tagged as a compressor summary.
    pub open spec fn is_summary(&self) -> bool {
        match self {
            Message::System { name: Some(n), .. } => n@ == SUMMARY_TAG@,
            _ => false,
        }
    }

    /// The text of a user message, if it has one.
    pub open spec fn user_text(&self) -> Option<Seq<char>> {
        match self {
            Message::User { content: Some(s) } => Some(s@),
            _ => None,
        }
    }

    pub fn user(text: String) -> (r: Message)
        ensures
            r == (Message::User { content: Some(text) }),
    {
        Message::User { content: Some(text) }
    }

    pub fn system(text: String) -> (r: Message)
        ensures
            r == (Message::System { content: Some(text), name: None }),
    {
        Message::System { content: Some(text), name: None }
    }

    pub fn tool(tool_call_id: String, content: String) -> (r: Message)
        ensures
            r == (Message::Tool { content, tool_call_id }),
    {
        Message::Tool { content, tool_call_id }
    }

    pub fn assistant(content: Option<String>, tool_calls: Option<Vec<ToolCall>>) -> (r: Message)
        ensures
            r == (Message::Assistant { content, reasoning_content: None, tool_calls, refusal: None }),
    {
        Message::Assistant { content, reasoning_content: None, tool_calls, refusal: None }
    }

    pub fn is_system_message(&self) -> (r: bool)
        ensures
            r == self.is_system(),
    {
        match self {
            Message::System { .. } => true,
            _ => false,
        }
    }

    pub fn is_summary_message(&self) -> (r: bool)
        ensures
            r == self.is_summary(),
    {
        match self {
            Message::System { name: Some(n), .. } => {
                let tag = String::from_str(SUMMARY_TAG);
                *n == tag
            },
            _ => false,
        }
    }

    /// A field-for-field copy of the message.
    pub fn duplicate(&self) -> (r: Message)
        ensures
            same_message(r, *self),
            requested_calls(r) == requested_calls(*self),
    {
        match self {
            Message::System { content, name } => Message::System {
                content: copy_opt(content),
                name: copy_opt(name),
            },
            Message::User { content } => Message::User { content: copy_opt(content) },
            Message::Assistant { content, reasoning_content, tool_calls, refusal } => {
                let calls = match tool_calls {
                    Some(v) => Some(copy_calls(v)),
                    None => None,
                };
                Message::Assistant {
                    content: copy_opt(content),
                    reasoning_content: copy_opt(reasoning_content),
                    tool_calls: calls,
                    refusal: copy_opt(refusal),
                }
            },
            Message::Tool { content, tool_call_id } => Message::Tool {
                content: content.clone(),
                tool_call_id: tool_call_id.clone(),
            },
        }
    }
}

} // verus!
