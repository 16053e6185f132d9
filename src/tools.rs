//! Decisions of the tool executor: which calls run, which wait for approval,
//! and how outcomes are collated into tool messages in request order.
use vstd::prelude::*;

use crate::message::{answers_all, Message, ToolCall};

verus! {

pub const UNKNOWN_TOOL: &'static str = "unknown tool";

pub const USER_DENIED: &'static str = "user denied";

pub const CANCELLED: &'static str = "cancelled";

pub const MISSING_RESULT: &'static str = "no result";

pub const ERROR_PREFIX: &'static str = "error: ";

/// A tool of the catalog, as far as the executor needs to know it.
#[derive(Debug, Clone)]
pub struct ToolSpec {
    pub name: String,
    /// The tool has side effects and asks the user before it runs.
    pub requires_approval: bool,
}

/// What became of one tool call: its output, or an error text.
#[derive(Debug)]
pub struct ToolOutcome {
    pub id: String,
    pub output: Result<String, String>,
}

impl Clone for ToolOutcome {
    fn clone(&self) -> (r: Self)
        ensures
            r == *self,
    {
        ToolOutcome { id: self.id.clone(), output: copy_output(&self.output) }
    }
}

/// How the executor handles one call.
#[derive(Debug)]
pub enum ToolPlan {
    /// Run the tool.
    Invoke,
    /// Ask the user first, then run it or deny it.
    AskApproval,
    /// Do not run anything: the outcome is already known.
    Settled(ToolOutcome),
}

/// The first catalog entry named `name`.
pub open spec fn catalog_index(catalog: Seq<ToolSpec>, name: Seq<char>, k: int) -> Option<int>
    decreases catalog.len() - k,
{
    if k < 0 || k >= catalog.len() {
        None
    } else if catalog[k].name@ == name {
        Some(k)
    } else {
        catalog_index(catalog, name, k + 1)
    }
}

/// `o` is the failure of call `id` with text `text`.
pub open spec fn is_failure(o: ToolOutcome, id: Seq<char>, text: Seq<char>) -> bool {
    o.id@ == id && (o.output matches Err(e) && e@ == text)
}

/// The first outcome in `outs` for call `id`, from position `k` on.
pub open spec fn outcome_index(outs: Seq<ToolOutcome>, id: Seq<char>, k: int) -> Option<int>
    decreases outs.len() - k,
{
    if k < 0 || k >= outs.len() {
        None
    } else if outs[k].id@ == id {
        Some(k)
    } else {
        outcome_index(outs, id, k + 1)
    }
}

/// The outcome that collation gives for `call`: the first one reported for
/// its id, or a failure when none was.
pub open spec fn collated(outs: Seq<ToolOutcome>, call: ToolCall, o: ToolOutcome) -> bool {
    match outcome_index(outs, call.id@, 0) {
        Some(j) => o.id == call.id && o.output == outs[j].output,
        None => is_failure(o, call.id@, MISSING_RESULT@),
    }
}

proof fn lemma_outcome_index(outs: Seq<ToolOutcome>, id: Seq<char>, k: int)
    requires
        0 <= k,
    ensures
        outcome_index(outs, id, k) matches Some(j) ==> k <= j < outs.len() && outs[j].id@ == id,
    decreases outs.len() - k,
{
    if k < outs.len() && outs[k].id@ != id {
        lemma_outcome_index(outs, id, k + 1);
    }
}

/// The text of the tool message that reports `o`.
pub open spec fn outcome_text(o: ToolOutcome) -> Seq<char> {
    match o.output {
        Ok(s) => s@,
        Err(e) => ERROR_PREFIX@ + e@,
    }
}

/// The text that collation reports for `call`.
pub open spec fn collated_text(outs: Seq<ToolOutcome>, call: ToolCall) -> Seq<char> {
    match outcome_index(outs, call.id@, 0) {
        Some(j) => outcome_text(outs[j]),
        None => ERROR_PREFIX@ + MISSING_RESULT@,
    }
}

/// The text of a tool message (empty for any other message).
pub open spec fn tool_text(m: Message) -> Seq<char> {
    match m {
        Message::Tool { content, .. } => content@,
        _ => Seq::empty(),
    }
}

/// `m` is the tool message that reports `o`.
pub open spec fn reports(m: Message, o: ToolOutcome) -> bool {
    m matches Message::Tool { content, tool_call_id } && tool_call_id@ == o.id@ && content@
        == outcome_text(o)
}

fn copy_output(o: &Result<String, String>) -> (r: Result<String, String>)
    ensures
        r == *o,
{
    match o {
        Ok(s) => Ok(s.clone()),
        Err(e) => Err(e.clone()),
    }
}

fn str_eq(a: &String, b: &String) -> (r: bool)
    ensures
        r == (a@ == b@),
{
    *a == *b
}

/// How the executor handles `call`: an unknown tool fails at once; a tool
/// that asks for approval waits for the user when approvals are on; any
/// other tool runs.
pub fn plan_tool_call(catalog: &Vec<ToolSpec>, call: &ToolCall, approval_mode: bool) -> (r:
    ToolPlan)
    ensures
        match catalog_index(catalog@, call.name@, 0) {
            None => r matches ToolPlan::Settled(o) && is_failure(o, call.id@, UNKNOWN_TOOL@),
            Some(i) => if approval_mode && catalog@[i].requires_approval {
                r is AskApproval
            } else {
                r is Invoke
            },
        },
{
    let mut i: usize = 0;
    while i < catalog.len()
        invariant
            i <= catalog.len(),
            catalog_index(catalog@, call.name@, 0) == catalog_index(catalog@, call.name@, i as int),
        decreases catalog.len() - i,
    {
        if str_eq(&catalog[i].name, &call.name) {
            if approval_mode && catalog[i].requires_approval {
                return ToolPlan::AskApproval;
            }
            return ToolPlan::Invoke;
        }
        i += 1;
    }
    ToolPlan::Settled(
        ToolOutcome { id: call.id.clone(), output: Err(String::from_str(UNKNOWN_TOOL)) },
    )
}

/// What the user's answer to an approval request settles: a denial fails the
/// call, an approval leaves it to run.
pub fn approval_outcome(call: &ToolCall, approved: bool) -> (r: Option<ToolOutcome>)
    ensures
        approved ==> r is None,
        !approved ==> (r matches Some(o) && is_failure(o, call.id@, USER_DENIED@)),
{
    if approved {
        None
    } else {
        Some(ToolOutcome { id: call.id.clone(), output: Err(String::from_str(USER_DENIED)) })
    }
}

/// The outcomes of a cancelled batch: every call fails as cancelled.
pub fn cancelled_outcomes(calls: &Vec<ToolCall>) -> (r: Vec<ToolOutcome>)
    ensures
        r.len() == calls.len(),
        forall|k: int| 0 <= k < r.len() ==> is_failure(#[trigger] r@[k], calls@[k].id@, CANCELLED@),
{
    let mut r: Vec<ToolOutcome> = Vec::new();
    let mut i: usize = 0;
    while i < calls.len()
        invariant
            i <= calls.len(),
            r.len() == i,
            forall|k: int| 0 <= k < i ==> is_failure(#[trigger] r@[k], calls@[k].id@, CANCELLED@),
        decreases calls.len() - i,
    {
        r.push(ToolOutcome { id: calls[i].id.clone(), output: Err(String::from_str(CANCELLED)) });
        i += 1;
    }
    r
}

fn find_outcome(outcomes: &Vec<ToolOutcome>, id: &String) -> (r: Option<usize>)
    ensures
        r matches Some(j) ==> outcome_index(outcomes@, id@, 0) == Some(j as int),
        r is None ==> outcome_index(outcomes@, id@, 0) is None,
{
    let mut j: usize = 0;
    while j < outcomes.len()
        invariant
            j <= outcomes.len(),
            outcome_index(outcomes@, id@, 0) == outcome_index(outcomes@, id@, j as int),
        decreases outcomes.len() - j,
    {
        if str_eq(&outcomes[j].id, id) {
            assert(outcome_index(outcomes@, id@, j as int) == Some(j as int));
            return Some(j);
        }
        j += 1;
    }
    assert(outcome_index(outcomes@, id@, j as int) is None);
    None
}

/// The outcomes for `calls` in request order, whatever order `outcomes`
/// arrived in. A call reported twice takes its first report; a call not
/// reported fails.
pub fn order_outcomes(calls: &Vec<ToolCall>, outcomes: &Vec<ToolOutcome>) -> (r: Vec<ToolOutcome>)
    ensures
        r.len() == calls.len(),
        forall|k: int| 0 <= k < r.len() ==> collated(outcomes@, calls@[k], #[trigger] r@[k]),
{
    let mut r: Vec<ToolOutcome> = Vec::new();
    let mut i: usize = 0;
    while i < calls.len()
        invariant
            i <= calls.len(),
            r.len() == i,
            forall|k: int| 0 <= k < i ==> collated(outcomes@, calls@[k], #[trigger] r@[k]),
        decreases calls.len() - i,
    {
        let call = &calls[i];
        let found = find_outcome(outcomes, &call.id);
        proof {
            lemma_outcome_index(outcomes@, call.id@, 0);
        }
        let o = match found {
            Some(j) => {
                let o = ToolOutcome { id: call.id.clone(), output: copy_output(&outcomes[j].output) };
                o
            },
            None => ToolOutcome { id: call.id.clone(), output: Err(String::from_str(MISSING_RESULT)) },
        };
        assert(collated(outcomes@, calls@[i as int], o));
        let ghost prev = r@;
        r.push(o);
        assert forall|k: int| 0 <= k < i + 1 implies collated(outcomes@, calls@[k], #[trigger] r@[k]) by {
            if k < i {
                assert(r@[k] == prev[k]);
            }
        }
        i += 1;
    }
    r
}

/// The tool message that reports `o`; an error is prefixed so that the model
/// can tell it from an output.
pub fn outcome_message(o: ToolOutcome) -> (r: Message)
    ensures
        reports(r, o),
{
    let ToolOutcome { id, output } = o;
    let content = match output {
        Ok(s) => s,
        Err(e) => String::from_str(ERROR_PREFIX).concat(e.as_str()),
    };
    Message::Tool { content, tool_call_id: id }
}

/// The tool messages that answer `calls`, one per call in request order.
pub fn tool_messages(calls: &Vec<ToolCall>, outcomes: &Vec<ToolOutcome>) -> (r: Vec<Message>)
    ensures
        answers_all(r@, calls@),
        forall|k: int|
            0 <= k < r.len() ==> tool_text(#[trigger] r@[k]) == collated_text(outcomes@, calls@[k]),
{
    let ordered = order_outcomes(calls, outcomes);
    let mut r: Vec<Message> = Vec::new();
    let mut i: usize = 0;
    while i < ordered.len()
        invariant
            i <= ordered.len(),
            ordered.len() == calls.len(),
            forall|k: int| 0 <= k < ordered.len() ==> collated(outcomes@, calls@[k], #[trigger] ordered@[k]),
            r.len() == i,
            forall|k: int| 0 <= k < i ==> reports(#[trigger] r@[k], ordered@[k]),
        decreases ordered.len() - i,
    {
        let o = ordered[i].clone();
        r.push(outcome_message(o));
        i += 1;
    }
    assert forall|k: int| 0 <= k < r.len() implies tool_text(#[trigger] r@[k]) == collated_text(
        outcomes@,
        calls@[k],
    ) by {
        assert(collated(outcomes@, calls@[k], ordered@[k]));
        assert(reports(r@[k], ordered@[k]));
    }
    r
}

} // verus!
