//! The agent state machine. Each internal event is handled by one call of
//! [`AgentCore::handle_event`], which updates the state, the trace and the
//! compressor, and returns the actions for the runtime to carry out (spawn a
//! brain step or a tool batch, ask for a summary, fire the cancel handle,
//! publish an event). The runtime owns the tasks and the cancel handle; the
//! core owns every decision.
use vstd::prelude::*;

use crate::compressor::{
    dialogue, middle_part, objective_text, rendered, summary_placed, summary_user_prompt,
    without_summaries, lemma_compression_places_summary, lemma_compressed_split,
    lemma_filter_keeps_all, lemma_compressed_pieces, dialogue_pred, kept_system, recent_part, recent_start, CompressionInfo, ContextCompressor,
    SummaryError, SummaryRequest,
};
use crate::message::{answers_all, answers_call, requested_calls, same_message, Message, ToolCall, copy_calls};
use crate::prompt::COMPRESSION_SUMMARY_PROMPT_HEAD;
use crate::tools::{
    cancelled_outcomes, collated_text, tool_messages, tool_text, ToolOutcome, ToolSpec,
    CANCELLED, ERROR_PREFIX,
};

verus! {

/// How the brain encodes tool invocations.
#[derive(Debug, Clone, Copy, PartialEq, Eq, Structural)]
pub enum ToolCallMethod {
    Auto,
    FunctionCall,
    FunctionCallRequired,
    StructuredOutput,
    Parsing,
}

/// The brain's verdict on what follows a step without tool calls.
#[derive(Debug, Clone, Copy, PartialEq, Eq, Structural)]
pub enum ThinkerFlowControl {
    AgentContinue,
    AgentPause,
}

/// The brain's output for one step.
#[derive(Debug)]
pub struct ThinkerDecision {
    pub message: Message,
    pub flow: ThinkerFlowControl,
    /// Prompt and completion tokens of the step.
    pub token_usage: Option<(u32, u32)>,
    pub compression_info: Option<CompressionInfo>,
}

#[derive(Debug, Clone)]
pub enum AgentError {
    /// The brain produced something other than an assistant message.
    InvalidResponse(String),
    /// The call to the language model failed.
    BrainTransport(String),
    ToolInvocation { tool: String, cause: String },
    ToolTimeout { tool: String },
    Cancelled,
    CompressionFailed,
}

/// The background task that a `Processing` state waits for.
#[derive(Debug, Clone, Copy, PartialEq, Eq, Structural)]
pub enum TaskKind {
    NextStep,
    Tools,
    Compression,
}

/// The agent's state as observers see it (the cancel handle stays with the runtime).
#[derive(Debug, Clone, Copy, PartialEq, Eq, Structural)]
pub enum AgentState {
    Idle,
    Processing { task: TaskKind, started_at: i64 },
    Paused,
}

/// Events that drive the state machine.
#[derive(Debug)]
pub enum InternalAgentEvent {
    UserInput { input: String },
    BrainResult { result: Result<ThinkerDecision, AgentError> },
    ToolsResult { outcomes: Vec<ToolOutcome> },
    SummaryResult { outcome: Result<(String, u32), SummaryError> },
    CancelTask,
    ManualCompressionRequested,
    Shutdown,
}

/// Events published to subscribers.
#[derive(Debug)]
pub enum AgentEvent {
    BrainResult { timestamp: i64, thought: Result<Message, AgentError> },
    ToolCallStart { call: ToolCall },
    ToolCallEnd { outcome: ToolOutcome },
    ToolCallApproval { call: ToolCall },
    TokenUsage { input_tokens: u32, output_tokens: u32 },
    ContextCompressed { info: CompressionInfo },
    StateChanged { state: AgentState },
    TaskCancelled,
    InputRejected { input: String },
}

/// What the runtime is to do after an event.
#[derive(Debug)]
pub enum AgentAction {
    /// Start a brain step on a snapshot of the trace.
    SpawnBrain,
    /// Run these tool calls; report their outcomes in one `ToolsResult`.
    SpawnTools { calls: Vec<ToolCall> },
    /// Send this request to the language model; report a `SummaryResult`.
    Summarize { request: SummaryRequest },
    /// Fire the cancel handle of the task in flight.
    CancelTask,
    Emit { event: AgentEvent },
    Terminate,
}

/// The state machine's data as a mathematical value.
pub struct CoreView {
    pub state: AgentState,
    pub trace: Seq<Message>,
    pub full_trace: Seq<Message>,
    pub pending_calls: Seq<ToolCall>,
    pub deferred: Option<Result<ThinkerDecision, AgentError>>,
    pub compressor: Option<ContextCompressor>,
    pub compression_queued: bool,
    /// The time of the event being handled, in milliseconds since the epoch.
    pub clock: i64,
}

/// The agent's core: state, traces, compressor, and the calls in flight.
pub struct AgentCore {
    state: AgentState,
    trace: Vec<Message>,
    full_trace: Vec<Message>,
    pending_calls: Vec<ToolCall>,
    deferred: Option<Result<ThinkerDecision, AgentError>>,
    compressor: Option<ContextCompressor>,
    compression_queued: bool,
    available_tools: Vec<ToolSpec>,
    method: ToolCallMethod,
    clock: i64,
}

impl View for AgentCore {
    type V = CoreView;

    closed spec fn view(&self) -> CoreView {
        CoreView {
            state: self.state,
            trace: self.trace@,
            full_trace: self.full_trace@,
            pending_calls: self.pending_calls@,
            deferred: self.deferred,
            compressor: self.compressor,
            compression_queued: self.compression_queued,
            clock: self.clock,
        }
    }
}

pub open spec fn is_task(s: AgentState, k: TaskKind) -> bool {
    s matches AgentState::Processing { task, .. } && task == k
}

/// The assistant message at `i` of `s` has its tool calls answered by the
/// messages right after it, one for one and id for id, and no further tool
/// message follows them.
pub open spec fn block_complete(s: Seq<Message>, i: int) -> bool {
    let calls = requested_calls(s[i]);
    &&& i + calls.len() < s.len()
    &&& forall|j: int| 0 <= j < calls.len() ==> answers_call(#[trigger] s[i + 1 + j], calls[j].id@)
    &&& i + 1 + calls.len() < s.len() ==> !(s[i + 1 + calls.len()] is Tool)
}

/// Every assistant message of `s` that requested tools has its block complete.
pub open spec fn tool_turns_complete(s: Seq<Message>) -> bool {
    forall|i: int|
        0 <= i < s.len() && requested_calls(s[i]).len() > 0 ==> #[trigger] block_complete(s, i)
}

proof fn lemma_complete_push(s: Seq<Message>, m: Message)
    requires
        tool_turns_complete(s),
        !(m is Tool),
        requested_calls(m).len() == 0,
    ensures
        tool_turns_complete(s.push(m)),
{
    let u = s.push(m);
    assert forall|i: int| 0 <= i < u.len() && requested_calls(u[i]).len() > 0 implies #[trigger] block_complete(u, i) by {
        assert(i < s.len());
        assert(u[i] == s[i]);
        assert(block_complete(s, i));
        let k = requested_calls(s[i]).len();
        assert forall|j: int| 0 <= j < k implies answers_call(#[trigger] u[i + 1 + j], requested_calls(u[i])[j].id@) by {
            assert(u[i + 1 + j] == s[i + 1 + j]);
        }
    }
}

proof fn lemma_complete_close(s: Seq<Message>, msgs: Seq<Message>)
    requires
        s.len() > 0,
        tool_turns_complete(s.drop_last()),
        !(s.last() is Tool),
        answers_all(msgs, requested_calls(s.last())),
    ensures
        tool_turns_complete(s + msgs),
{
    let u = s + msgs;
    let d = s.drop_last();
    let n = s.len() - 1;
    assert forall|i: int| 0 <= i < u.len() && requested_calls(u[i]).len() > 0 implies #[trigger] block_complete(u, i) by {
        if i < n {
            assert(u[i] == d[i]);
            assert(block_complete(d, i));
            let k = requested_calls(d[i]).len();
            assert forall|j: int| 0 <= j < k implies answers_call(#[trigger] u[i + 1 + j], requested_calls(u[i])[j].id@) by {
                assert(u[i + 1 + j] == d[i + 1 + j]);
            }
            if i + 1 + k < n {
                assert(u[i + 1 + k] == d[i + 1 + k]);
            } else {
                assert(u[n] == s.last());
            }
        } else if i == n {
            assert(u[i] == s.last());
            let k = requested_calls(s.last()).len();
            assert forall|j: int| 0 <= j < k implies answers_call(#[trigger] u[i + 1 + j], requested_calls(u[i])[j].id@) by {
                assert(u[i + 1 + j] == msgs[j]);
            }
        } else {
            assert(u[i] == msgs[i - s.len()]);
            assert(answers_call(msgs[i - s.len()], requested_calls(s.last())[i - s.len()].id@));
        }
    }
}

proof fn lemma_complete_suffix(s: Seq<Message>, c: int)
    requires
        tool_turns_complete(s),
        0 <= c <= s.len(),
    ensures
        tool_turns_complete(s.skip(c)),
{
    let u = s.skip(c);
    assert forall|i: int| 0 <= i < u.len() && requested_calls(u[i]).len() > 0 implies #[trigger] block_complete(u, i) by {
        assert(u[i] == s[i + c]);
        assert(block_complete(s, i + c));
        let k = requested_calls(s[i + c]).len();
        assert forall|j: int| 0 <= j < k implies answers_call(#[trigger] u[i + 1 + j], requested_calls(u[i])[j].id@) by {
            assert(u[i + 1 + j] == s[i + c + 1 + j]);
        }
        if i + 1 + k < u.len() {
            assert(u[i + 1 + k] == s[i + c + 1 + k]);
        }
    }
}

/// The invariant of the state machine.
pub open spec fn core_wf(s: CoreView) -> bool {
    &&& summary_placed(s.trace)
    &&& is_task(s.state, TaskKind::Tools) ==> s.pending_calls.len() > 0 && s.trace.len() > 0
        && requested_calls(s.trace.last()) == s.pending_calls
    &&& s.deferred is Some ==> is_task(s.state, TaskKind::Compression)
    &&& is_task(s.state, TaskKind::Compression) ==> s.compressor is Some && dialogue(s.trace).len()
        > 2
    &&& systems_first(s.trace)
    &&& if is_task(s.state, TaskKind::Tools) {
        tool_turns_complete(dialogue(s.trace).drop_last())
    } else {
        turns_done(s)
    }
}

/// Every system message of `t` comes before every other message.
pub open spec fn systems_first(t: Seq<Message>) -> bool {
    forall|i: int, j: int| 0 <= i < j < t.len() && (#[trigger] t[j]).is_system() ==> (#[trigger] t[i]).is_system()
}

proof fn lemma_systems_first_append(t: Seq<Message>, msgs: Seq<Message>)
    requires
        systems_first(t),
        forall|k: int| 0 <= k < msgs.len() ==> !(#[trigger] msgs[k]).is_system(),
    ensures
        systems_first(t + msgs),
{
    let u = t + msgs;
    assert forall|i: int, j: int| 0 <= i < j < u.len() && (#[trigger] u[j]).is_system() implies (#[trigger] u[i]).is_system() by {
        if j >= t.len() {
            assert(u[j] == msgs[j - t.len()]);
        } else {
            assert(u[j] == t[j] && u[i] == t[i]);
        }
    }
}

proof fn lemma_systems_first_compressed(
    t: Seq<Message>,
    r: Seq<Message>,
    outcome: Result<(String, u32), SummaryError>,
)
    requires
        crate::compressor::compressed_as(t, r, outcome),
    ensures
        systems_first(r),
{
    lemma_compressed_pieces(t);
    lemma_compressed_split(t, r, outcome);
    let sys = kept_system(t);
    let rec = recent_part(t);
    let p = if middle_part(t).len() > 0 {
        sys.len() as int + 1
    } else {
        sys.len() as int
    };
    assert forall|k: int| 0 <= k < r.len() implies (#[trigger] r[k]).is_system() == (k < p) by {
        if k < sys.len() {
            assert(r[k] == sys[k]);
        } else if k >= p {
            assert(r[k] == rec[k - p]);
        }
    }
}

/// With its system messages first, a trace is those system messages
/// followed by its non-system messages.
proof fn lemma_systems_first_split(t: Seq<Message>)
    requires
        systems_first(t),
    ensures
        dialogue(t).len() <= t.len(),
        t.skip(t.len() - dialogue(t).len()) == dialogue(t),
        forall|i: int| 0 <= i < t.len() - dialogue(t).len() ==> (#[trigger] t[i]).is_system(),
    decreases t.len(),
{
    reveal(Seq::filter);
    if t.len() == 0 {
        assert(t.skip(0) =~= t);
    } else {
        let d = t.drop_last();
        assert(systems_first(d));
        lemma_systems_first_split(d);
        if t.last().is_system() {
            assert forall|i: int| 0 <= i < t.len() implies (#[trigger] t[i]).is_system() by {
                if i < t.len() - 1 {
                    assert(t[t.len() - 1].is_system());
                }
            }
            lemma_filter_keeps_none_sys(t);
            assert(t.skip(t.len() as int) =~= Seq::<Message>::empty());
        } else {
            assert(dialogue(t) == dialogue(d).push(t.last()));
            assert forall|i: int| 0 <= i < d.len() - dialogue(d).len() implies (#[trigger] t[i]).is_system() by {
                assert(t[i] == d[i]);
            }
            assert(t.skip(t.len() - dialogue(t).len()) =~= d.skip(d.len() - dialogue(d).len()).push(t.last()));
        }
    }
}

proof fn lemma_filter_keeps_none_sys(t: Seq<Message>)
    requires
        forall|i: int| 0 <= i < t.len() ==> (#[trigger] t[i]).is_system(),
    ensures
        dialogue(t).len() == 0,
    decreases t.len(),
{
    reveal(Seq::filter);
    if t.len() > 0 {
        let d = t.drop_last();
        assert forall|i: int| 0 <= i < d.len() implies (#[trigger] d[i]).is_system() by {
            assert(d[i] == t[i]);
        }
        lemma_filter_keeps_none_sys(d);
    }
}

/// No tool turn of `s`'s conversation is left open.
pub open spec fn turns_done(s: CoreView) -> bool {
    tool_turns_complete(dialogue(s.trace))
}

proof fn lemma_dialogue_push(t: Seq<Message>, m: Message)
    requires
        !m.is_system(),
    ensures
        dialogue(t.push(m)) == dialogue(t).push(m),
{
    t.lemma_filter_push(m, dialogue_pred());
}

proof fn lemma_dialogue_append_tools(t: Seq<Message>, msgs: Seq<Message>)
    requires
        forall|k: int| 0 <= k < msgs.len() ==> (#[trigger] msgs[k]) is Tool,
    ensures
        dialogue(t + msgs) == dialogue(t) + msgs,
{
    Seq::filter_distributes_over_add(t, msgs, dialogue_pred());
    lemma_filter_keeps_all(msgs, dialogue_pred());
}

/// Appending the answers to the calls of the trace's last message closes
/// the open tool turn.
proof fn lemma_close_turn(t: Seq<Message>, msgs: Seq<Message>)
    requires
        t.len() > 0,
        requested_calls(t.last()).len() > 0,
        tool_turns_complete(dialogue(t).drop_last()),
        answers_all(msgs, requested_calls(t.last())),
    ensures
        tool_turns_complete(dialogue(t + msgs)),
{
    let last = t.last();
    assert(t.drop_last().push(last) =~= t);
    lemma_dialogue_push(t.drop_last(), last);
    assert forall|k: int| 0 <= k < msgs.len() implies (#[trigger] msgs[k]) is Tool by {
        assert(answers_call(msgs[k], requested_calls(last)[k].id@));
    }
    lemma_dialogue_append_tools(t, msgs);
    lemma_complete_close(dialogue(t), msgs);
}

pub open spec fn emits(a: AgentAction, e: AgentEvent) -> bool {
    a == AgentAction::Emit { event: e }
}

pub open spec fn state_changed(a: AgentAction, st: AgentState) -> bool {
    emits(a, AgentEvent::StateChanged { state: st })
}

/// `q` is the summary request for compressing `trace` with `c`.
pub open spec fn request_for(
    c: ContextCompressor,
    trace: Seq<Message>,
    full_trace: Seq<Message>,
    q: SummaryRequest,
) -> bool {
    &&& c.summary_model() == Some(q.model@)
    &&& q.system_prompt@ == COMPRESSION_SUMMARY_PROMPT_HEAD@
    &&& q.user_prompt@ == summary_user_prompt(
        objective_text(full_trace),
        rendered(without_summaries(trace)),
    )
}

/// A summary is to be asked for before compressing `trace` with `c`.
pub open spec fn needs_summary(c: ContextCompressor, trace: Seq<Message>) -> bool {
    middle_part(trace).len() > 0 && c.summary_model() is Some
}

/// The compression report that `acts` (empty, or a single event) publishes.
pub open spec fn report_of(acts: Seq<AgentAction>) -> Option<CompressionInfo> {
    if acts.len() == 1 && acts[0] matches AgentAction::Emit {
        event: AgentEvent::ContextCompressed { .. },
    } {
        match acts[0] {
            AgentAction::Emit { event: AgentEvent::ContextCompressed { info } } => Some(info),
            _ => None,
        }
    } else {
        None
    }
}

/// `acts` publishes exactly the report `info`, if any.
pub open spec fn reports_compression(acts: Seq<AgentAction>, info: Option<CompressionInfo>) -> bool {
    match info {
        Some(i) => acts == seq![AgentAction::Emit { event: AgentEvent::ContextCompressed { info: i } }],
        None => acts.len() == 0,
    }
}

/// How many actions a compression report takes at the start of `acts`.
pub open spec fn report_len(acts: Seq<AgentAction>) -> int {
    if acts.len() > 0 && acts[0] matches AgentAction::Emit {
        event: AgentEvent::ContextCompressed { .. },
    } {
        1
    } else {
        0
    }
}

/// A brain step was started from `s`.
pub open spec fn spawn_post(s: CoreView, t: CoreView, acts: Seq<AgentAction>) -> bool {
    &&& t == CoreView { state: t.state, ..s }
    &&& t.state == AgentState::Processing { task: TaskKind::NextStep, started_at: s.clock }
    &&& acts.len() == 2
    &&& acts[0] is SpawnBrain
    &&& state_changed(acts[1], t.state)
}

/// A manual compression was started from the paused state `s`.
pub open spec fn manual_post(s: CoreView, t: CoreView, acts: Seq<AgentAction>) -> bool {
    match s.compressor {
        None => t == s && acts.len() == 0,
        Some(c) => if dialogue(s.trace).len() <= 2 {
            t == s && acts.len() == 0
        } else if needs_summary(c, s.trace) {
            &&& t == CoreView { state: t.state, ..s }
            &&& t.state == AgentState::Processing { task: TaskKind::Compression, started_at: s.clock }
            &&& acts.len() == 2
            &&& acts[0] matches AgentAction::Summarize { request } && request_for(
                c,
                s.trace,
                s.full_trace,
                request,
            )
            &&& state_changed(acts[1], t.state)
        } else {
            &&& t.compressor matches Some(after) && c.compression_post(
                s.trace,
                Err(SummaryError::NoClient),
                t.trace,
                report_of(acts),
                after,
            )
            &&& reports_compression(acts, report_of(acts))
            &&& t == CoreView { trace: t.trace, compressor: t.compressor, ..s }
        },
    }
}

/// The state machine paused from `s`, running a queued manual compression.
pub open spec fn pause_post(s: CoreView, t: CoreView, acts: Seq<AgentAction>) -> bool {
    &&& acts.len() >= 1
    &&& state_changed(acts[0], AgentState::Paused)
    &&& if s.compression_queued {
        manual_post(
            CoreView { state: AgentState::Paused, compression_queued: false, ..s },
            t,
            acts.skip(1),
        )
    } else {
        t == CoreView { state: AgentState::Paused, ..s } && acts.len() == 1
    }
}

/// The brain failed with `e`: the error is published and the agent pauses.
pub open spec fn failed_post(s: CoreView, e: AgentError, t: CoreView, acts: Seq<AgentAction>) -> bool {
    &&& acts.len() >= 1
    &&& acts[0] matches AgentAction::Emit {
        event: AgentEvent::BrainResult { thought: Err(e2), timestamp },
    } && e2 == e && timestamp == s.clock
    &&& pause_post(CoreView { deferred: None, ..s }, t, acts.skip(1))
}

/// How many events publish a decision `d`: its message, then its token
/// usage and its compression report when present.
pub open spec fn decision_event_count(d: ThinkerDecision) -> int {
    1 + (if d.token_usage is Some {
        1int
    } else {
        0
    }) + (if d.compression_info is Some {
        1int
    } else {
        0
    })
}

/// `acts` opens with the events that publish decision `d`.
pub open spec fn publishes(d: ThinkerDecision, clock: i64, acts: Seq<AgentAction>) -> bool {
    &&& acts.len() >= decision_event_count(d)
    &&& acts[0] matches AgentAction::Emit {
        event: AgentEvent::BrainResult { thought: Ok(m), timestamp },
    } && same_message(m, d.message) && timestamp == clock
    &&& d.token_usage matches Some((i, o)) ==> emits(
        acts[1],
        AgentEvent::TokenUsage { input_tokens: i, output_tokens: o },
    )
    &&& d.compression_info matches Some(info) ==> emits(
        acts[decision_event_count(d) - 1],
        AgentEvent::ContextCompressed { info },
    )
}

/// `after` is `c` with a step's token usage added.
pub open spec fn counted(c: Option<ContextCompressor>, usage: Option<(u32, u32)>, after: Option<ContextCompressor>) -> bool {
    match (c, usage) {
        (Some(c0), Some((i, o))) => after matches Some(c1) && c1.limit() == c0.limit()
            && c1.summary_model() == c0.summary_model() && c1.tokens() == vstd::math::min(
            c0.tokens() + i + o,
            u32::MAX as int,
        ),
        _ => after == c,
    }
}

/// The assistant message of `d` was taken into the traces; then the agent
/// runs its tool calls, takes another step, or pauses.
pub open spec fn accepted_post(s: CoreView, d: ThinkerDecision, t: CoreView, acts: Seq<AgentAction>) -> bool {
    &&& t.full_trace.len() == s.full_trace.len() + 1
    &&& t.full_trace.drop_last() == s.full_trace
    &&& same_message(t.full_trace.last(), d.message)
    &&& publishes(d, s.clock, acts)
    &&& exists|c: Option<ContextCompressor>|
        counted(s.compressor, d.token_usage, c) && #[trigger] continued_post(
            CoreView {
                trace: s.trace.push(d.message),
                full_trace: t.full_trace,
                compressor: c,
                deferred: None,
                ..s
            },
            d,
            t,
            acts.skip(decision_event_count(d)),
        )
}

/// After an assistant message joined the traces (in `s`): its tool calls
/// run, or another step starts, or the agent pauses, as the decision says.
pub open spec fn continued_post(s: CoreView, d: ThinkerDecision, t: CoreView, tail: Seq<AgentAction>) -> bool {
    let calls = requested_calls(d.message);
    if calls.len() > 0 {
        &&& t == CoreView { state: t.state, pending_calls: calls, ..s }
        &&& t.state == AgentState::Processing { task: TaskKind::Tools, started_at: s.clock }
        &&& tail.len() == 2
        &&& tail[0] matches AgentAction::SpawnTools { calls: v } && v@ == calls
        &&& state_changed(tail[1], t.state)
    } else if d.flow == ThinkerFlowControl::AgentContinue {
        spawn_post(s, t, tail)
    } else {
        pause_post(s, t, tail)
    }
}

/// The brain's `result` was acted on from `s`.
pub open spec fn decision_post(
    s: CoreView,
    result: Result<ThinkerDecision, AgentError>,
    t: CoreView,
    acts: Seq<AgentAction>,
) -> bool {
    match result {
        Err(e) => failed_post(s, e, t, acts),
        Ok(d) => if d.message is Assistant {
            accepted_post(s, d, t, acts)
        } else {
            &&& acts.len() >= 1
            &&& acts[0] matches AgentAction::Emit {
                event: AgentEvent::BrainResult {
                    thought: Err(AgentError::InvalidResponse(_)),
                    timestamp,
                },
            } && timestamp == s.clock
            &&& pause_post(CoreView { deferred: None, ..s }, t, acts.skip(1))
        },
    }
}

/// The trace of `s` was compressed with `outcome`, publishing the report at
/// the start of `acts`; `rest` is what was then done from `mid`.
pub open spec fn compressed_then(
    s: CoreView,
    outcome: Result<(String, u32), SummaryError>,
    acts: Seq<AgentAction>,
    next: spec_fn(CoreView, Seq<AgentAction>) -> bool,
) -> bool {
    let k = report_len(acts);
    exists|r: Seq<Message>, after: ContextCompressor|
        {
            &&& #[trigger] s.compressor.unwrap().compression_post(
                s.trace,
                outcome,
                r,
                report_of(acts.take(k)),
                after,
            )
            &&& reports_compression(acts.take(k), report_of(acts.take(k)))
            &&& next(CoreView { trace: r, compressor: Some(after), ..s }, acts.skip(k))
        }
}

/// A brain result arrived while a step was in flight.
pub open spec fn brain_post(
    s: CoreView,
    result: Result<ThinkerDecision, AgentError>,
    t: CoreView,
    acts: Seq<AgentAction>,
) -> bool {
    match s.compressor {
        Some(c) => if c.compression_wanted(s.trace) {
            if needs_summary(c, s.trace) {
                &&& t == CoreView { state: t.state, deferred: Some(result), ..s }
                &&& t.state == AgentState::Processing {
                    task: TaskKind::Compression,
                    started_at: s.clock,
                }
                &&& acts.len() == 2
                &&& acts[0] matches AgentAction::Summarize { request } && request_for(
                    c,
                    s.trace,
                    s.full_trace,
                    request,
                )
                &&& state_changed(acts[1], t.state)
            } else {
                compressed_then(
                    s,
                    Err(SummaryError::NoClient),
                    acts,
                    |mid: CoreView, rest: Seq<AgentAction>| decision_post(mid, result, t, rest),
                )
            }
        } else {
            decision_post(s, result, t, acts)
        },
        None => decision_post(s, result, t, acts),
    }
}

/// A summary arrived while a compression was in flight.
pub open spec fn summary_post(
    s: CoreView,
    outcome: Result<(String, u32), SummaryError>,
    t: CoreView,
    acts: Seq<AgentAction>,
) -> bool {
    compressed_then(
        s,
        outcome,
        acts,
        |mid: CoreView, rest: Seq<AgentAction>|
            match s.deferred {
                Some(result) => decision_post(CoreView { deferred: None, ..mid }, result, t, rest),
                None => pause_post(mid, t, rest),
            },
    )
}

/// The tool messages of a finished batch were appended and the next step started.
pub open spec fn tools_post(s: CoreView, outcomes: Seq<ToolOutcome>, t: CoreView, acts: Seq<AgentAction>) -> bool {
    exists|msgs: Seq<Message>|
        {
            &&& answers_all(msgs, s.pending_calls)
            &&& forall|k: int|
                0 <= k < msgs.len() ==> tool_text(#[trigger] msgs[k]) == collated_text(
                    outcomes,
                    s.pending_calls[k],
                )
            &&& #[trigger] t.trace == s.trace + msgs
            &&& spawn_post(
                CoreView {
                    trace: s.trace + msgs,
                    full_trace: s.full_trace + msgs,
                    pending_calls: Seq::empty(),
                    ..s
                },
                t,
                acts,
            )
        }
}

/// The task in flight was cancelled: open tool calls are answered as
/// cancelled and the agent pauses.
pub open spec fn cancel_post(s: CoreView, t: CoreView, acts: Seq<AgentAction>) -> bool {
    &&& t.state == AgentState::Paused
    &&& t.pending_calls.len() == 0
    &&& t.deferred is None
    &&& !t.compression_queued
    &&& t.compressor == s.compressor
    &&& acts == seq![
        AgentAction::CancelTask,
        AgentAction::Emit { event: AgentEvent::TaskCancelled },
        AgentAction::Emit { event: AgentEvent::StateChanged { state: AgentState::Paused } },
    ]
    &&& cancel_trace(s, t)
}

/// The open tool calls of `s`, if any, were answered as cancelled in `t`.
pub open spec fn cancel_trace(s: CoreView, t: CoreView) -> bool {
    if is_task(s.state, TaskKind::Tools) {
        let added = t.trace.skip(s.trace.len() as int);
        &&& t.trace.take(s.trace.len() as int) == s.trace
        &&& answers_all(added, s.pending_calls)
        &&& forall|k: int|
            0 <= k < added.len() ==> tool_text(#[trigger] added[k]) == ERROR_PREFIX@ + CANCELLED@
        &&& t.full_trace == s.full_trace + added
    } else {
        t.trace == s.trace && t.full_trace == s.full_trace
    }
}

/// What one event does to the state machine.
pub open spec fn step_post(s: CoreView, e: InternalAgentEvent, t: CoreView, acts: Seq<AgentAction>) -> bool {
    match e {
        InternalAgentEvent::UserInput { input } => if s.state is Processing {
            t == s && acts == seq![
                AgentAction::Emit { event: AgentEvent::InputRejected { input } },
            ]
        } else {
            spawn_post(
                CoreView {
                    trace: s.trace.push(Message::User { content: Some(input) }),
                    full_trace: s.full_trace.push(Message::User { content: Some(input) }),
                    ..s
                },
                t,
                acts,
            )
        },
        InternalAgentEvent::BrainResult { result } => if is_task(s.state, TaskKind::NextStep) {
            brain_post(s, result, t, acts)
        } else {
            t == s && acts.len() == 0
        },
        InternalAgentEvent::ToolsResult { outcomes } => if is_task(s.state, TaskKind::Tools) {
            tools_post(s, outcomes@, t, acts)
        } else {
            t == s && acts.len() == 0
        },
        InternalAgentEvent::SummaryResult { outcome } => if is_task(
            s.state,
            TaskKind::Compression,
        ) {
            summary_post(s, outcome, t, acts)
        } else {
            t == s && acts.len() == 0
        },
        InternalAgentEvent::CancelTask => if s.state is Processing {
            cancel_post(s, t, acts)
        } else {
            t == s && acts.len() == 0
        },
        InternalAgentEvent::ManualCompressionRequested => if s.state is Paused {
            manual_post(s, t, acts)
        } else {
            t == CoreView { compression_queued: true, ..s } && acts.len() == 0
        },
        InternalAgentEvent::Shutdown => {
            &&& t == CoreView {
                state: AgentState::Idle,
                deferred: None,
                pending_calls: Seq::empty(),
                compression_queued: false,
                trace: t.trace,
                full_trace: t.full_trace,
                ..s
            }
            &&& cancel_trace(s, t)
            &&& acts == if s.state is Processing {
                seq![AgentAction::CancelTask, AgentAction::Terminate]
            } else {
                seq![AgentAction::Terminate]
            }
        },
    }
}

fn single(a: AgentAction) -> (r: Vec<AgentAction>)
    ensures
        r@ == seq![a],
{
    let mut r: Vec<AgentAction> = Vec::new();
    r.push(a);
    r
}

fn duplicate_messages(v: &Vec<Message>) -> (r: Vec<Message>)
    requires
        forall|k: int| 0 <= k < v.len() ==> (#[trigger] v@[k]) is Tool,
    ensures
        r@ == v@,
{
    let mut r: Vec<Message> = Vec::new();
    let mut i: usize = 0;
    while i < v.len()
        invariant
            i <= v.len(),
            forall|k: int| 0 <= k < v.len() ==> (#[trigger] v@[k]) is Tool,
            r@ == v@.take(i as int),
        decreases v.len() - i,
    {
        let m = v[i].duplicate();
        assert(v@[i as int] is Tool);
        r.push(m);
        i += 1;
        assert(r@ =~= v@.take(i as int));
    }
    assert(v@.take(v.len() as int) =~= v@);
    r
}

proof fn lemma_append_keeps_placement(t: Seq<Message>, msgs: Seq<Message>)
    requires
        summary_placed(t),
        forall|k: int| 0 <= k < msgs.len() ==> !(#[trigger] msgs[k]).is_system(),
    ensures
        summary_placed(t + msgs),
{
    let u = t + msgs;
    assert forall|j: int, k: int|
        0 <= k < j < u.len() && (#[trigger] u[j]).is_summary() implies (#[trigger] u[k]).is_system()
        && !u[k].is_summary() by {
        if j >= t.len() {
            assert(u[j] == msgs[j - t.len()]);
        } else {
            assert(u[j] == t[j] && u[k] == t[k]);
        }
    }
}

impl AgentCore {
    /// A core with an empty trace, or one holding the system prompt.
    pub fn new(
        system_prompt: Option<String>,
        available_tools: Vec<ToolSpec>,
        method: ToolCallMethod,
        compressor: Option<ContextCompressor>,
    ) -> (r: Self)
        ensures
            r.wf(),
            r@.state == AgentState::Idle,
            r@.pending_calls.len() == 0,
            r@.deferred is None,
            r@.compressor == compressor,
            !r@.compression_queued,
            r.tools_view() == available_tools@,
            r.method_view() == method,
            match system_prompt {
                Some(p) => r@.trace == seq![Message::System { content: Some(p), name: None }]
                    && r@.full_trace == r@.trace,
                None => r@.trace.len() == 0 && r@.full_trace.len() == 0,
            },
    {
        let mut trace: Vec<Message> = Vec::new();
        let mut full_trace: Vec<Message> = Vec::new();
        match system_prompt {
            Some(p) => {
                full_trace.push(Message::System { content: Some(p.clone()), name: None });
                trace.push(Message::System { content: Some(p), name: None });
            },
            None => {},
        }
        proof {
            reveal(Seq::filter);
            Seq::<Message>::empty().lemma_filter_push(trace@.last(), dialogue_pred());
            if trace@.len() == 1 {
                assert(trace@ =~= Seq::<Message>::empty().push(trace@.last()));
            }
            assert(dialogue(trace@).len() == 0);
        }
        AgentCore {
            state: AgentState::Idle,
            trace,
            full_trace,
            pending_calls: Vec::new(),
            deferred: None,
            compressor,
            compression_queued: false,
            available_tools,
            method,
            clock: 0,
        }
    }

    pub open spec fn wf(&self) -> bool {
        core_wf(self@)
    }

    /// The tool catalog offered to the brain.
    pub closed spec fn tools_view(&self) -> Seq<ToolSpec> {
        self.available_tools@
    }

    /// How the brain encodes tool calls.
    pub closed spec fn method_view(&self) -> ToolCallMethod {
        self.method
    }

    pub fn public_state(&self) -> (r: AgentState)
        ensures
            r == self@.state,
    {
        self.state
    }

    pub fn trace(&self) -> (r: &Vec<Message>)
        ensures
            r@ == self@.trace,
    {
        &self.trace
    }

    pub fn full_trace(&self) -> (r: &Vec<Message>)
        ensures
            r@ == self@.full_trace,
    {
        &self.full_trace
    }

    pub fn compressor(&self) -> (r: &Option<ContextCompressor>)
        ensures
            *r == self@.compressor,
    {
        &self.compressor
    }

    pub fn available_tools(&self) -> (r: &Vec<ToolSpec>)
        ensures
            r@ == self.tools_view(),
    {
        &self.available_tools
    }

    pub fn method(&self) -> (r: ToolCallMethod)
        ensures
            r == self.method_view(),
    {
        self.method
    }

    fn take_trace(&mut self) -> (r: Vec<Message>)
        ensures
            r@ == old(self)@.trace,
            final(self)@ == (CoreView { trace: Seq::empty(), ..old(self)@ }),
            final(self).tools_view() == old(self).tools_view(),
            final(self).method_view() == old(self).method_view(),
    {
        let mut t: Vec<Message> = Vec::new();
        core::mem::swap(&mut self.trace, &mut t);
        t
    }

    fn spawn_next_step(&mut self) -> (acts: Vec<AgentAction>)
        requires
            summary_placed(old(self)@.trace),
            turns_done(old(self)@),
            systems_first(old(self)@.trace),
            old(self)@.deferred is None,
        ensures
            spawn_post(old(self)@, final(self)@, acts@),
            final(self).wf(),
            final(self).tools_view() == old(self).tools_view(),
            final(self).method_view() == old(self).method_view(),
    {
        self.state = AgentState::Processing { task: TaskKind::NextStep, started_at: self.clock };
        let mut acts: Vec<AgentAction> = Vec::new();
        acts.push(AgentAction::SpawnBrain);
        acts.push(AgentAction::Emit { event: AgentEvent::StateChanged { state: self.state } });
        acts
    }

    /// Compresses the trace with `outcome` (forced: the caller has checked
    /// that compression is wanted), and returns the report event, if any.
    fn apply_compression(&mut self, outcome: Result<(String, u32), SummaryError>) -> (acts: Vec<
        AgentAction,
    >)
        requires
            old(self)@.compressor is Some,
            dialogue(old(self)@.trace).len() > 2,
            summary_placed(old(self)@.trace),
            turns_done(old(self)@),
            systems_first(old(self)@.trace),
        ensures
            turns_done(final(self)@),
            systems_first(final(self)@.trace),
            report_len(acts@) == acts.len(),
            reports_compression(acts@, report_of(acts@)),
            final(self)@.compressor is Some,
            old(self)@.compressor.unwrap().compression_post(
                old(self)@.trace,
                outcome,
                final(self)@.trace,
                report_of(acts@),
                final(self)@.compressor.unwrap(),
            ),
            final(self)@ == (CoreView {
                trace: final(self)@.trace,
                compressor: final(self)@.compressor,
                ..old(self)@
            }),
            summary_placed(final(self)@.trace),
            final(self).tools_view() == old(self).tools_view(),
            final(self).method_view() == old(self).method_view(),
    {
        let trace = self.take_trace();
        let mut c = self.compressor.take().unwrap();
        let (compressed, info) = c.compress_messages_force(trace, outcome);
        proof {
            let t = old(self)@.trace;
            lemma_compression_places_summary(t, outcome, compressed@);
            lemma_compressed_split(t, compressed@, outcome);
            lemma_complete_suffix(dialogue(t), recent_start(dialogue(t).len() as int));
            lemma_systems_first_compressed(t, compressed@, outcome);
        }
        self.trace = compressed;
        self.compressor = Some(c);
        match info {
            Some(i) => {
                let acts = single(AgentAction::Emit { event: AgentEvent::ContextCompressed { info: i } });
                proof {
                    assert(report_of(acts@) == Some(i));
                }
                acts
            },
            None => Vec::new(),
        }
    }

    /// Compresses the trace on request, whatever the token count (the paused
    /// state's handling of a manual request). Asks for a summary when there
    /// is a middle to summarise and a model to ask; otherwise compresses at
    /// once.
    pub fn check_and_compress_context_manual(&mut self) -> (acts: Vec<AgentAction>)
        requires
            old(self).wf(),
            old(self)@.state == AgentState::Paused,
        ensures
            manual_post(old(self)@, final(self)@, acts@),
            final(self).wf(),
            final(self).tools_view() == old(self).tools_view(),
            final(self).method_view() == old(self).method_view(),
    {
        let request = match &self.compressor {
            None => {
                return Vec::new();
            },
            Some(c) => {
                if crate::compressor::count_dialogue(&self.trace) <= 2 {
                    return Vec::new();
                }
                c.summary_request(&self.trace, &self.full_trace)
            },
        };
        match request {
            Some(q) => {
                self.state = AgentState::Processing {
                    task: TaskKind::Compression,
                    started_at: self.clock,
                };
                let mut acts: Vec<AgentAction> = Vec::new();
                acts.push(AgentAction::Summarize { request: q });
                acts.push(AgentAction::Emit { event: AgentEvent::StateChanged { state: self.state } });
                acts
            },
            None => self.apply_compression(Err(SummaryError::NoClient)),
        }
    }

    fn enter_paused(&mut self) -> (acts: Vec<AgentAction>)
        requires
            old(self)@.deferred is None,
            summary_placed(old(self)@.trace),
            turns_done(old(self)@),
            systems_first(old(self)@.trace),
        ensures
            pause_post(old(self)@, final(self)@, acts@),
            final(self).wf(),
            final(self).tools_view() == old(self).tools_view(),
            final(self).method_view() == old(self).method_view(),
    {
        self.state = AgentState::Paused;
        let mut acts = single(AgentAction::Emit { event: AgentEvent::StateChanged { state: AgentState::Paused } });
        if self.compression_queued {
            self.compression_queued = false;
            let mut more = self.check_and_compress_context_manual();
            let ghost more_v = more@;
            acts.append(&mut more);
            assert(acts@.skip(1) =~= more_v);
        }
        acts
    }

    fn handle_brain_error(&mut self, e: AgentError) -> (acts: Vec<AgentAction>)
        requires
            summary_placed(old(self)@.trace),
            turns_done(old(self)@),
            systems_first(old(self)@.trace),
        ensures
            failed_post(old(self)@, e, final(self)@, acts@),
            final(self).wf(),
            final(self).tools_view() == old(self).tools_view(),
            final(self).method_view() == old(self).method_view(),
    {
        self.deferred = None;
        let mut acts = single(
            AgentAction::Emit { event: AgentEvent::BrainResult { timestamp: self.clock, thought: Err(e) } },
        );
        let mut more = self.enter_paused();
        let ghost more_v = more@;
        acts.append(&mut more);
        assert(acts@.skip(1) =~= more_v);
        acts
    }

    /// Acts on a brain result: an error pauses the agent; an assistant message
    /// joins the traces and leads to its tool calls, another step, or a pause.
    fn process_next_step(&mut self, result: Result<ThinkerDecision, AgentError>) -> (acts: Vec<
        AgentAction,
    >)
        requires
            summary_placed(old(self)@.trace),
            turns_done(old(self)@),
            systems_first(old(self)@.trace),
        ensures
            decision_post(old(self)@, result, final(self)@, acts@),
            final(self).wf(),
            final(self).tools_view() == old(self).tools_view(),
            final(self).method_view() == old(self).method_view(),
    {
        let d = match result {
            Err(e) => {
                return self.handle_brain_error(e);
            },
            Ok(d) => d,
        };
        let is_assistant = match &d.message {
            Message::Assistant { .. } => true,
            _ => false,
        };
        if !is_assistant {
            self.deferred = None;
            let mut acts = single(
                AgentAction::Emit {
                    event: AgentEvent::BrainResult {
                        timestamp: self.clock,
                        thought: Err(
                            AgentError::InvalidResponse(String::from_str("assistant message expected")),
                        ),
                    },
                },
            );
            let mut more = self.enter_paused();
            let ghost more_v = more@;
            acts.append(&mut more);
            assert(acts@.skip(1) =~= more_v);
            return acts;
        }
        let ghost s = self@;
        let ghost d0 = d;
        let ThinkerDecision { message, flow, token_usage, compression_info } = d;
        self.deferred = None;
        let calls: Vec<ToolCall> = match &message {
            Message::Assistant { tool_calls: Some(v), .. } => copy_calls(v),
            _ => Vec::new(),
        };
        let mut acts: Vec<AgentAction> = Vec::new();
        self.full_trace.push(message.duplicate());
        acts.push(
            AgentAction::Emit {
                event: AgentEvent::BrainResult { timestamp: self.clock, thought: Ok(message.duplicate()) },
            },
        );
        proof {
            lemma_append_keeps_placement(self.trace@, seq![message]);
            lemma_systems_first_append(self.trace@, seq![message]);
            lemma_dialogue_push(self.trace@, message);
            assert(dialogue(self.trace@).push(message).drop_last() =~= dialogue(self.trace@));
            if requested_calls(message).len() == 0 {
                lemma_complete_push(dialogue(self.trace@), message);
            }
        }
        self.trace.push(message);
        assert(self.full_trace@.drop_last() =~= s.full_trace);
        match token_usage {
            Some((i, o)) => {
                acts.push(
                    AgentAction::Emit {
                        event: AgentEvent::TokenUsage { input_tokens: i, output_tokens: o },
                    },
                );
                match self.compressor.take() {
                    Some(mut c) => {
                        c.update_token_count(i, o);
                        self.compressor = Some(c);
                    },
                    None => {},
                }
            },
            None => {},
        }
        match compression_info {
            Some(info) => {
                acts.push(AgentAction::Emit { event: AgentEvent::ContextCompressed { info } });
            },
            None => {},
        }
        let ghost n = acts.len();
        assert(n == decision_event_count(d0));
        let ghost head = acts@;
        let ghost mid = self@;
        let mut tail: Vec<AgentAction>;
        if calls.len() > 0 {
            self.pending_calls = copy_calls(&calls);
            self.state = AgentState::Processing { task: TaskKind::Tools, started_at: self.clock };
            tail = Vec::new();
            tail.push(AgentAction::SpawnTools { calls });
            tail.push(AgentAction::Emit { event: AgentEvent::StateChanged { state: self.state } });
        } else if flow == ThinkerFlowControl::AgentContinue {
            tail = self.spawn_next_step();
        } else {
            tail = self.enter_paused();
        }
        let ghost tail_v = tail@;
        acts.append(&mut tail);
        assert(acts@.skip(n as int) =~= tail_v);
        assert(acts@.take(n as int) =~= head);
        assert(continued_post(mid, d0, self@, acts@.skip(n as int)));
        acts
    }

    fn on_brain_result(&mut self, result: Result<ThinkerDecision, AgentError>) -> (acts: Vec<
        AgentAction,
    >)
        requires
            old(self).wf(),
            is_task(old(self)@.state, TaskKind::NextStep),
        ensures
            brain_post(old(self)@, result, final(self)@, acts@),
            final(self).wf(),
    {
        let (wanted, request) = match &self.compressor {
            Some(c) => {
                if c.should_compress_conversation(&self.trace) {
                    (true, c.summary_request(&self.trace, &self.full_trace))
                } else {
                    (false, None)
                }
            },
            None => (false, None),
        };
        if !wanted {
            return self.process_next_step(result);
        }
        match request {
            Some(q) => {
                self.deferred = Some(result);
                self.state = AgentState::Processing {
                    task: TaskKind::Compression,
                    started_at: self.clock,
                };
                let mut acts: Vec<AgentAction> = Vec::new();
                acts.push(AgentAction::Summarize { request: q });
                acts.push(AgentAction::Emit { event: AgentEvent::StateChanged { state: self.state } });
                acts
            },
            None => {
                let ghost s = self@;
                let mut acts = self.apply_compression(Err(SummaryError::NoClient));
                let ghost mid = self@;
                let ghost head = acts@;
                let mut more = self.process_next_step(result);
                let ghost more_v = more@;
                acts.append(&mut more);
                proof {
                    let k = report_len(acts@);
                    assert(acts@.take(k) =~= head);
                    assert(acts@.skip(k) =~= more_v);
                    assert(s.compressor.unwrap().compression_post(
                        s.trace,
                        Err(SummaryError::NoClient),
                        mid.trace,
                        report_of(acts@.take(k)),
                        mid.compressor.unwrap(),
                    ));
                }
                acts
            },
        }
    }

    fn on_summary_result(&mut self, outcome: Result<(String, u32), SummaryError>) -> (acts: Vec<
        AgentAction,
    >)
        requires
            old(self).wf(),
            is_task(old(self)@.state, TaskKind::Compression),
        ensures
            summary_post(old(self)@, outcome, final(self)@, acts@),
            final(self).wf(),
    {
        let ghost s = self@;
        let mut acts = self.apply_compression(outcome);
        let ghost mid = self@;
        let ghost head = acts@;
        let mut more = match self.deferred.take() {
            Some(result) => self.process_next_step(result),
            None => self.enter_paused(),
        };
        let ghost more_v = more@;
        acts.append(&mut more);
        proof {
            let k = report_len(acts@);
            assert(acts@.take(k) =~= head);
            assert(acts@.skip(k) =~= more_v);
            assert(s.compressor.unwrap().compression_post(
                s.trace,
                outcome,
                mid.trace,
                report_of(acts@.take(k)),
                mid.compressor.unwrap(),
            ));
        }
        acts
    }

    fn on_tools_result(&mut self, outcomes: Vec<ToolOutcome>) -> (acts: Vec<AgentAction>)
        requires
            old(self).wf(),
            is_task(old(self)@.state, TaskKind::Tools),
        ensures
            tools_post(old(self)@, outcomes@, final(self)@, acts@),
            final(self).wf(),
    {
        let ghost s = self@;
        let msgs = tool_messages(&self.pending_calls, &outcomes);
        let ghost mv = msgs@;
        let mut copy = duplicate_messages(&msgs);
        let mut msgs = msgs;
        proof {
            lemma_append_keeps_placement(self.trace@, mv);
            lemma_systems_first_append(self.trace@, mv);
            lemma_close_turn(self.trace@, mv);
        }
        self.trace.append(&mut msgs);
        self.full_trace.append(&mut copy);
        self.pending_calls = Vec::new();
        self.spawn_next_step()
    }

    /// Answers the open tool calls, if a tool batch is running, as cancelled.
    fn answer_pending_as_cancelled(&mut self)
        requires
            old(self).wf(),
        ensures
            cancel_trace(old(self)@, final(self)@),
            final(self)@ == (CoreView {
                trace: final(self)@.trace,
                full_trace: final(self)@.full_trace,
                ..old(self)@
            }),
            summary_placed(final(self)@.trace),
            turns_done(final(self)@),
            systems_first(final(self)@.trace),
    {
        let ghost s = self@;
        if is_tools(self.state) {
            let outcomes = cancelled_outcomes(&self.pending_calls);
            let msgs = tool_messages(&self.pending_calls, &outcomes);
            let ghost mv = msgs@;
            let mut copy = duplicate_messages(&msgs);
            let mut msgs = msgs;
            proof {
                lemma_append_keeps_placement(self.trace@, mv);
            lemma_systems_first_append(self.trace@, mv);
                lemma_close_turn(self.trace@, mv);
                assert forall|k: int| 0 <= k < mv.len() implies tool_text(#[trigger] mv[k])
                    == ERROR_PREFIX@ + CANCELLED@ by {
                    lemma_cancelled_text(outcomes@, s.pending_calls, k);
                }
            }
            self.trace.append(&mut msgs);
            self.full_trace.append(&mut copy);
            assert(self.trace@.skip(s.trace.len() as int) =~= mv);
            assert(self.trace@.take(s.trace.len() as int) =~= s.trace);
        }
    }

    fn on_cancel(&mut self) -> (acts: Vec<AgentAction>)
        requires
            old(self).wf(),
            old(self)@.state is Processing,
        ensures
            cancel_post(old(self)@, final(self)@, acts@),
            final(self).wf(),
    {
        self.answer_pending_as_cancelled();
        self.pending_calls = Vec::new();
        self.deferred = None;
        self.compression_queued = false;
        self.state = AgentState::Paused;
        let mut acts: Vec<AgentAction> = Vec::new();
        acts.push(AgentAction::CancelTask);
        acts.push(AgentAction::Emit { event: AgentEvent::TaskCancelled });
        acts.push(AgentAction::Emit { event: AgentEvent::StateChanged { state: AgentState::Paused } });
        assert(acts@ =~= seq![
            AgentAction::CancelTask,
            AgentAction::Emit { event: AgentEvent::TaskCancelled },
            AgentAction::Emit { event: AgentEvent::StateChanged { state: AgentState::Paused } },
        ]);
        acts
    }

    /// Handles one internal event, arriving at time `now` (milliseconds
    /// since the epoch), and returns the actions it calls for.
    pub fn handle_event(&mut self, event: InternalAgentEvent, now: i64) -> (acts: Vec<AgentAction>)
        requires
            old(self).wf(),
        ensures
            final(self).wf(),
            step_post((CoreView { clock: now, ..old(self)@ }), event, final(self)@, acts@),
    {
        self.clock = now;
        match event {
            InternalAgentEvent::UserInput { input } => {
                if is_processing(self.state) {
                    return single(AgentAction::Emit { event: AgentEvent::InputRejected { input } });
                }
                proof {
                    let m = Message::User { content: Some(input) };
                    lemma_append_keeps_placement(self.trace@, seq![m]);
                    lemma_systems_first_append(self.trace@, seq![m]);
                    lemma_dialogue_push(self.trace@, m);
                    lemma_complete_push(dialogue(self.trace@), m);
                }
                self.full_trace.push(Message::User { content: Some(input.clone()) });
                self.trace.push(Message::User { content: Some(input) });
                self.spawn_next_step()
            },
            InternalAgentEvent::BrainResult { result } => {
                if is_next_step(self.state) {
                    self.on_brain_result(result)
                } else {
                    Vec::new()
                }
            },
            InternalAgentEvent::ToolsResult { outcomes } => {
                if is_tools(self.state) {
                    self.on_tools_result(outcomes)
                } else {
                    Vec::new()
                }
            },
            InternalAgentEvent::SummaryResult { outcome } => {
                if is_compression(self.state) {
                    self.on_summary_result(outcome)
                } else {
                    Vec::new()
                }
            },
            InternalAgentEvent::CancelTask => {
                if is_processing(self.state) {
                    self.on_cancel()
                } else {
                    Vec::new()
                }
            },
            InternalAgentEvent::ManualCompressionRequested => {
                if self.state == AgentState::Paused {
                    self.check_and_compress_context_manual()
                } else {
                    self.compression_queued = true;
                    Vec::new()
                }
            },
            InternalAgentEvent::Shutdown => {
                let processing = is_processing(self.state);
                self.answer_pending_as_cancelled();
                self.state = AgentState::Idle;
                self.deferred = None;
                self.pending_calls = Vec::new();
                self.compression_queued = false;
                let mut acts: Vec<AgentAction> = Vec::new();
                if processing {
                    acts.push(AgentAction::CancelTask);
                }
                acts.push(AgentAction::Terminate);
                proof {
                    if processing {
                        assert(acts@ =~= seq![AgentAction::CancelTask, AgentAction::Terminate]);
                    } else {
                        assert(acts@ =~= seq![AgentAction::Terminate]);
                    }
                }
                acts
            },
        }
    }
}

proof fn lemma_cancelled_text(outcomes: Seq<ToolOutcome>, calls: Seq<ToolCall>, k: int)
    requires
        outcomes.len() == calls.len(),
        0 <= k < calls.len(),
        forall|j: int|
            0 <= j < outcomes.len() ==> crate::tools::is_failure(
                #[trigger] outcomes[j],
                calls[j].id@,
                CANCELLED@,
            ),
    ensures
        collated_text(outcomes, calls[k]) == ERROR_PREFIX@ + CANCELLED@,
{
    lemma_first_id_failure(outcomes, calls, calls[k].id@, 0);
}

proof fn lemma_first_id_failure(outcomes: Seq<ToolOutcome>, calls: Seq<ToolCall>, id: Seq<char>, j: int)
    requires
        outcomes.len() == calls.len(),
        0 <= j,
        exists|k: int| j <= k < calls.len() && calls[k].id@ == id,
        forall|i: int|
            0 <= i < outcomes.len() ==> crate::tools::is_failure(
                #[trigger] outcomes[i],
                calls[i].id@,
                CANCELLED@,
            ),
    ensures
        crate::tools::outcome_index(outcomes, id, j) matches Some(i) && crate::tools::outcome_text(
            outcomes[i],
        ) == ERROR_PREFIX@ + CANCELLED@,
    decreases outcomes.len() - j,
{
    let k = choose|k: int| j <= k < calls.len() && calls[k].id@ == id;
    assert(crate::tools::is_failure(outcomes[j], calls[j].id@, CANCELLED@));
    if outcomes[j].id@ != id {
        lemma_first_id_failure(outcomes, calls, id, j + 1);
    }
}

/// Whenever no tool batch is running, every assistant message of the trace
/// that requested tools is followed by one tool message per call, answering
/// the calls in order, id for id, and then by no further tool message.
pub proof fn lemma_tool_turns_complete(s: CoreView)
    requires
        core_wf(s),
        !is_task(s.state, TaskKind::Tools),
    ensures
        tool_turns_complete(s.trace),
{
    let t = s.trace;
    let d = dialogue(t);
    lemma_systems_first_split(t);
    let p = t.len() - d.len();
    assert forall|i: int| 0 <= i < t.len() && requested_calls(t[i]).len() > 0 implies #[trigger] block_complete(t, i) by {
        if i < p {
            assert(t[i].is_system());
        } else {
            assert(t.skip(p)[i - p] == t[i]);
            assert(block_complete(d, i - p));
            let k = requested_calls(t[i]).len();
            assert forall|j: int| 0 <= j < k implies answers_call(#[trigger] t[i + 1 + j], requested_calls(t[i])[j].id@) by {
                assert(t.skip(p)[i - p + 1 + j] == t[i + 1 + j]);
            }
            if i + 1 + k < t.len() {
                assert(t.skip(p)[i - p + 1 + k] == t[i + 1 + k]);
            }
        }
    }
}

/// When a tool batch completes, the trace gains one tool message per call of
/// the assistant message that requested the batch, answering the calls in
/// order, id for id.
pub proof fn lemma_tool_results_answer_calls(
    s: CoreView,
    outcomes: Vec<ToolOutcome>,
    t: CoreView,
    acts: Seq<AgentAction>,
)
    requires
        core_wf(s),
        is_task(s.state, TaskKind::Tools),
        step_post(s, InternalAgentEvent::ToolsResult { outcomes }, t, acts),
    ensures
        t.trace.take(s.trace.len() as int) == s.trace,
        answers_all(t.trace.skip(s.trace.len() as int), requested_calls(s.trace.last())),
{
    let msgs = choose|msgs: Seq<Message>|
        {
            &&& answers_all(msgs, s.pending_calls)
            &&& forall|k: int|
                0 <= k < msgs.len() ==> tool_text(#[trigger] msgs[k]) == collated_text(
                    outcomes@,
                    s.pending_calls[k],
                )
            &&& #[trigger] t.trace == s.trace + msgs
            &&& spawn_post(
                CoreView {
                    trace: s.trace + msgs,
                    full_trace: s.full_trace + msgs,
                    pending_calls: Seq::empty(),
                    ..s
                },
                t,
                acts,
            )
        };
    assert(t.trace.take(s.trace.len() as int) =~= s.trace);
    assert(t.trace.skip(s.trace.len() as int) =~= msgs);
}

/// Cancelling a tool batch also answers every call of the requesting
/// assistant message, in order, each as cancelled.
pub proof fn lemma_cancelled_tools_answered(s: CoreView, t: CoreView, acts: Seq<AgentAction>)
    requires
        core_wf(s),
        is_task(s.state, TaskKind::Tools),
        step_post(s, InternalAgentEvent::CancelTask, t, acts),
    ensures
        t.trace.take(s.trace.len() as int) == s.trace,
        answers_all(t.trace.skip(s.trace.len() as int), requested_calls(s.trace.last())),
{
}

/// Cancelling while a task is in flight pauses the agent at once, whatever
/// the task, and tells the runtime to fire the cancel handle.
pub proof fn lemma_cancel_pauses(s: CoreView, t: CoreView, acts: Seq<AgentAction>)
    requires
        s.state is Processing,
        step_post(s, InternalAgentEvent::CancelTask, t, acts),
    ensures
        t.state == AgentState::Paused,
        acts[0] is CancelTask,
        emits(acts[1], AgentEvent::TaskCancelled),
        t.deferred is None,
        t.pending_calls.len() == 0,
        !is_task(s.state, TaskKind::Tools) ==> t.trace == s.trace && t.full_trace == s.full_trace,
{
}

/// A brain result that arrives when no brain step is in flight (after a
/// cancel, for instance) changes nothing and calls for nothing.
pub proof fn lemma_late_result_ignored(
    s: CoreView,
    result: Result<ThinkerDecision, AgentError>,
    t: CoreView,
    acts: Seq<AgentAction>,
)
    requires
        !is_task(s.state, TaskKind::NextStep),
        step_post(s, InternalAgentEvent::BrainResult { result }, t, acts),
    ensures
        t == s,
        acts.len() == 0,
{
}

/// In every state the machine can reach, the trace holds at most one
/// summary, and only system messages that are not summaries come before it.
pub proof fn lemma_single_summary(s: CoreView)
    requires
        core_wf(s),
    ensures
        forall|i: int, j: int|
            0 <= i < s.trace.len() && 0 <= j < s.trace.len() && (#[trigger] s.trace[i]).is_summary()
                && (#[trigger] s.trace[j]).is_summary() ==> i == j,
        forall|i: int, k: int|
            0 <= k < i < s.trace.len() && (#[trigger] s.trace[i]).is_summary() ==> (#[trigger] s.trace[k]).is_system()
                && !s.trace[k].is_summary(),
{
    assert forall|i: int, j: int|
        0 <= i < s.trace.len() && 0 <= j < s.trace.len() && (#[trigger] s.trace[i]).is_summary()
            && (#[trigger] s.trace[j]).is_summary() implies i == j by {
        if i < j {
            assert(!s.trace[i].is_summary());
        }
        if j < i {
            assert(!s.trace[j].is_summary());
        }
    }
}

fn is_processing(s: AgentState) -> (r: bool)
    ensures
        r == s is Processing,
{
    match s {
        AgentState::Processing { .. } => true,
        _ => false,
    }
}

fn is_next_step(s: AgentState) -> (r: bool)
    ensures
        r == is_task(s, TaskKind::NextStep),
{
    match s {
        AgentState::Processing { task: TaskKind::NextStep, .. } => true,
        _ => false,
    }
}

fn is_tools(s: AgentState) -> (r: bool)
    ensures
        r == is_task(s, TaskKind::Tools),
{
    match s {
        AgentState::Processing { task: TaskKind::Tools, .. } => true,
        _ => false,
    }
}

fn is_compression(s: AgentState) -> (r: bool)
    ensures
        r == is_task(s, TaskKind::Compression),
{
    match s {
        AgentState::Processing { task: TaskKind::Compression, .. } => true,
        _ => false,
    }
}

} // verus!
