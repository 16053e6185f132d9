use vstd::prelude::*;

use crate::message::{Message, SUMMARY_TAG};
use crate::prompt::{get_compression_summary_prompt, COMPRESSION_SUMMARY_PROMPT_HEAD};
use crate::text::{is_blank, unicode_white_space};

verus! {

broadcast use vstd::seq_lib::group_filter_ensures, vstd::seq_lib::group_seq_properties;

/// How many of the newest non-system messages a compression keeps verbatim.
pub const RECENT_WINDOW: usize = 6;

/// The token estimate recorded after a compression whose summary failed.
pub const FALLBACK_TOKEN_ESTIMATE: u32 = 50;

pub const SUMMARY_PREFIX: &'static str = "Previous conversation summary: ";

pub const FALLBACK_NOTE: &'static str = "[Previous conversation history compressed - AI summary unavailable]";

/// The `name` tag of the note that stands in for a failed summary.
pub const FALLBACK_TAG: &'static str = "system";

pub const NO_USER_MESSAGE: &'static str = "[no user message found]";

/// Information about a compression operation.
#[derive(Debug, Clone)]
pub struct CompressionInfo {
    pub original_message_count: usize,
    pub compressed_message_count: usize,
    pub tokens_before: Option<u32>,
    pub current_tokens: Option<u32>,
    pub max_tokens: u32,
    pub ai_summary: Option<String>,
}

/// Why no summary could be had from the language model.
#[derive(Debug, Clone)]
pub enum SummaryError {
    /// No language model is attached to the compressor.
    NoClient,
    /// The call to the language model failed.
    Transport(String),
    /// The response carried no token usage.
    NoUsage,
    /// The summary was blank or its completion token count was zero.
    EmptySummary,
    /// The first choice of the response held no assistant text.
    NoContent,
}

/// Token usage reported by the language model.
#[derive(Debug, Clone)]
pub struct LlmUsage {
    pub prompt_tokens: Option<u32>,
    pub completion_tokens: Option<u32>,
    pub total_tokens: u32,
}

/// The parts of a chat completion that summarisation reads.
#[derive(Debug, Clone)]
pub struct LlmResponse {
    pub first_choice: Option<Message>,
    pub usage: Option<LlmUsage>,
}

/// A summarisation request, ready to be sent to the language model
/// (at a low temperature).
#[derive(Debug, Clone)]
pub struct SummaryRequest {
    pub model: String,
    pub system_prompt: String,
    pub user_prompt: String,
}

/// Context compression state for keeping a conversation under a token limit.
#[derive(Debug, Clone)]
pub struct ContextCompressor {
    max_tokens: u32,
    current_tokens: u32,
    model: Option<String>,
}

/// The count `tokens` has reached ninety percent of `max`.
pub open spec fn reaches_threshold(tokens: u32, max: u32) -> bool {
    10 * tokens >= 9 * max
}

/// Ninety-five percent of `max`, rounded down.
pub open spec fn near_limit_threshold(max: u32) -> int {
    (max as int * 19) / 20
}

pub open spec fn kept_system_pred() -> spec_fn(Message) -> bool {
    |m: Message| m.is_system() && !m.is_summary()
}

pub open spec fn dialogue_pred() -> spec_fn(Message) -> bool {
    |m: Message| !m.is_system()
}

pub open spec fn not_summary_pred() -> spec_fn(Message) -> bool {
    |m: Message| !m.is_summary()
}

/// The system messages of `t` that compression keeps: every one but old summaries.
pub open spec fn kept_system(t: Seq<Message>) -> Seq<Message> {
    t.filter(kept_system_pred())
}

/// The non-system messages of `t`, in order.
pub open spec fn dialogue(t: Seq<Message>) -> Seq<Message> {
    t.filter(dialogue_pred())
}

/// `t` with old summaries dropped.
pub open spec fn without_summaries(t: Seq<Message>) -> Seq<Message> {
    t.filter(not_summary_pred())
}

/// Index into the dialogue where the kept window begins.
pub open spec fn recent_start(n: int) -> int {
    if n > RECENT_WINDOW as int {
        n - RECENT_WINDOW as int
    } else {
        0
    }
}

/// The newest non-system messages, kept verbatim by compression.
pub open spec fn recent_part(t: Seq<Message>) -> Seq<Message> {
    dialogue(t).skip(recent_start(dialogue(t).len() as int))
}

/// The older non-system messages, replaced by a summary.
pub open spec fn middle_part(t: Seq<Message>) -> Seq<Message> {
    dialogue(t).take(recent_start(dialogue(t).len() as int))
}

/// The text of the first user message of `t` that has text.
pub open spec fn first_user_text(t: Seq<Message>) -> Option<Seq<char>>
    decreases t.len(),
{
    if t.len() == 0 {
        None
    } else if t[0].user_text() is Some {
        t[0].user_text()
    } else {
        first_user_text(t.skip(1))
    }
}

/// The original request as the summariser is told it.
pub open spec fn objective_text(full_trace: Seq<Message>) -> Seq<char> {
    match first_user_text(full_trace) {
        Some(s) => s,
        None => NO_USER_MESSAGE@,
    }
}

/// One line of the rendered conversation; empty for a message without text.
pub open spec fn line_of(m: Message) -> Seq<char> {
    match m {
        Message::User { content: Some(s) } => "User: "@ + s@ + "\n"@,
        Message::Assistant { content: Some(s), .. } => "Assistant: "@ + s@ + "\n"@,
        Message::Tool { content, .. } => "Tool: "@ + content@ + "\n"@,
        Message::System { content: Some(s), .. } => "System: "@ + s@ + "\n"@,
        _ => Seq::empty(),
    }
}

/// The conversation `t` rendered one line per message, with role prefixes.
pub open spec fn rendered(t: Seq<Message>) -> Seq<char>
    decreases t.len(),
{
    if t.len() == 0 {
        Seq::empty()
    } else {
        rendered(t.drop_last()) + line_of(t.last())
    }
}

/// The user prompt of a summarisation request.
pub open spec fn summary_user_prompt(objective: Seq<char>, conversation: Seq<char>) -> Seq<char> {
    "Original user request: \""@ + objective + "\"\n\nFull conversation:\n"@ + conversation
}

/// `m` is the summary note carrying `s`.
pub open spec fn is_summary_note(m: Message, s: Seq<char>) -> bool {
    match m {
        Message::System { content: Some(c), name: Some(n) } => c@ == SUMMARY_PREFIX@ + s
            && n@ == SUMMARY_TAG@,
        _ => false,
    }
}

/// `m` is the note that stands in for a failed summary.
pub open spec fn is_fallback_note(m: Message) -> bool {
    match m {
        Message::System { content: Some(c), name: Some(n) } => c@ == FALLBACK_NOTE@ && n@
            == FALLBACK_TAG@,
        _ => false,
    }
}

/// `r` is `t` compressed with the given summariser outcome: the kept system
/// messages, then (when there is a middle to replace) the summary note or the
/// fallback note, then the recent window.
pub open spec fn compressed_as(
    t: Seq<Message>,
    r: Seq<Message>,
    summary: Result<(String, u32), SummaryError>,
) -> bool {
    let sys = kept_system(t);
    let rec = recent_part(t);
    if middle_part(t).len() == 0 {
        r == sys + rec
    } else {
        &&& r.len() == sys.len() + 1 + rec.len()
        &&& r.take(sys.len() as int) == sys
        &&& r.skip(sys.len() as int + 1) == rec
        &&& match summary {
            Ok((s, _)) => is_summary_note(r[sys.len() as int], s@),
            Err(_) => is_fallback_note(r[sys.len() as int]),
        }
    }
}

/// Every summary in `t` is preceded only by system messages that are not summaries.
/// In particular `t` holds at most one summary.
pub open spec fn summary_placed(t: Seq<Message>) -> bool {
    forall|j: int, k: int|
        0 <= k < j < t.len() && (#[trigger] t[j]).is_summary() ==> (#[trigger] t[k]).is_system()
            && !t[k].is_summary()
}

impl ContextCompressor {
    pub closed spec fn limit(&self) -> u32 {
        self.max_tokens
    }

    pub closed spec fn tokens(&self) -> u32 {
        self.current_tokens
    }

    /// The model used for summaries; `None` when no language model is attached.
    pub closed spec fn summary_model(&self) -> Option<Seq<char>> {
        match self.model {
            Some(m) => Some(m@),
            None => None,
        }
    }

    pub open spec fn compress_due(&self) -> bool {
        reaches_threshold(self.tokens(), self.limit())
    }

    pub open spec fn compression_wanted(&self, t: Seq<Message>) -> bool {
        self.compress_due() && dialogue(t).len() > 2
    }

    /// What a compression of `t` with outcome `summary` leaves: the messages
    /// `r`, the report `info`, and the compressor `after`.
    pub open spec fn compression_post(
        &self,
        t: Seq<Message>,
        summary: Result<(String, u32), SummaryError>,
        r: Seq<Message>,
        info: Option<CompressionInfo>,
        after: ContextCompressor,
    ) -> bool {
        &&& compressed_as(t, r, summary)
        &&& after.limit() == self.limit()
        &&& after.summary_model() == self.summary_model()
        &&& if middle_part(t).len() == 0 {
            &&& info is None
            &&& after.tokens() == 0
        } else {
            let new_tokens: u32 = match summary {
                Ok((_, k)) => k,
                Err(_) => FALLBACK_TOKEN_ESTIMATE,
            };
            &&& after.tokens() == new_tokens
            &&& info matches Some(i) && i.original_message_count == t.len()
                && i.compressed_message_count == r.len() && i.tokens_before == Some(self.tokens())
                && i.current_tokens == (if new_tokens > 0 {
                Some(new_tokens)
            } else {
                None
            }) && i.max_tokens == self.limit() && match summary {
                Ok((s, _)) => i.ai_summary == Some(s),
                Err(_) => i.ai_summary is None,
            }
        }
    }

    /// What the conditional compression leaves: nothing changes unless
    /// compression is wanted.
    pub open spec fn conditional_post(
        &self,
        t: Seq<Message>,
        summary: Result<(String, u32), SummaryError>,
        r: Seq<Message>,
        info: Option<CompressionInfo>,
        after: ContextCompressor,
    ) -> bool {
        if self.compression_wanted(t) {
            self.compression_post(t, summary, r, info, after)
        } else {
            r == t && info is None && after == *self
        }
    }

    pub fn new(max_tokens: u32) -> (r: Self)
        ensures
            r.limit() == max_tokens,
            r.tokens() == 0,
            r.summary_model() is None,
    {
        ContextCompressor { max_tokens, current_tokens: 0, model: None }
    }

    /// A compressor that asks `model` for its summaries.
    pub fn new_with_llm(max_tokens: u32, model: String) -> (r: Self)
        ensures
            r.limit() == max_tokens,
            r.tokens() == 0,
            r.summary_model() == Some(model@),
    {
        ContextCompressor { max_tokens, current_tokens: 0, model: Some(model) }
    }

    /// Adds one exchange's prompt and completion tokens to the running count,
    /// saturating at `u32::MAX`.
    pub fn update_token_count(&mut self, input_tokens: u32, output_tokens: u32)
        ensures
            final(self).limit() == old(self).limit(),
            final(self).summary_model() == old(self).summary_model(),
            final(self).tokens() == vstd::math::min(
                old(self).tokens() + input_tokens + output_tokens,
                u32::MAX as int,
            ),
    {
        let sum: u64 = self.current_tokens as u64 + input_tokens as u64 + output_tokens as u64;
        if sum > u32::MAX as u64 {
            self.current_tokens = u32::MAX;
        } else {
            self.current_tokens = sum as u32;
        }
    }

    /// Whether the count has reached ninety percent of the limit.
    pub fn should_compress(&self) -> (r: bool)
        ensures
            r == self.compress_due(),
    {
        10 * (self.current_tokens as u64) >= 9 * (self.max_tokens as u64)
    }

    /// Whether compression is due and the conversation has more than two
    /// non-system messages to work with.
    pub fn should_compress_conversation(&self, messages: &Vec<Message>) -> (r: bool)
        ensures
            r == self.compression_wanted(messages@),
    {
        if !self.should_compress() {
            return false;
        }
        count_dialogue(messages) > 2
    }

    pub fn get_current_tokens(&self) -> (r: u32)
        ensures
            r == self.tokens(),
    {
        self.current_tokens
    }

    pub fn get_max_tokens(&self) -> (r: u32)
        ensures
            r == self.limit(),
    {
        self.max_tokens
    }

    /// Whether the count has reached ninety-five percent of the limit.
    pub fn is_near_limit(&self) -> (r: bool)
        ensures
            r == (self.tokens() >= near_limit_threshold(self.limit())),
    {
        let threshold: u64 = self.max_tokens as u64 * 19 / 20;
        self.current_tokens as u64 >= threshold
    }

    /// The request to send to the language model for a compression of
    /// `messages`; `None` when there is no middle to summarise or no model.
    /// The objective is recovered from `full_trace`, the uncompressed history.
    pub fn summary_request(&self, messages: &Vec<Message>, full_trace: &Vec<Message>) -> (r:
        Option<SummaryRequest>)
        ensures
            r is Some <==> middle_part(messages@).len() > 0 && self.summary_model() is Some,
            r matches Some(q) ==> {
                &&& self.summary_model() == Some(q.model@)
                &&& q.system_prompt@ == COMPRESSION_SUMMARY_PROMPT_HEAD@
                &&& q.user_prompt@ == summary_user_prompt(
                    objective_text(full_trace@),
                    rendered(without_summaries(messages@)),
                )
            },
    {
        let n = count_dialogue(messages);
        if n <= RECENT_WINDOW {
            return None;
        }
        let model = match &self.model {
            Some(m) => m.clone(),
            None => {
                return None;
            },
        };
        let objective = match find_first_user_text(full_trace) {
            Some(s) => s,
            None => String::from_str(NO_USER_MESSAGE),
        };
        let conversation = render_conversation(messages);
        let user_prompt = String::from_str("Original user request: \"").concat(
            objective.as_str(),
        ).concat("\"\n\nFull conversation:\n").concat(conversation.as_str());
        let system_prompt = get_compression_summary_prompt("");
        proof {
            reveal_strlit("");
        }
        assert(system_prompt@ =~= COMPRESSION_SUMMARY_PROMPT_HEAD@);
        Some(SummaryRequest { model, system_prompt, user_prompt })
    }

    /// Compresses `messages` when compression is wanted; returns them
    /// unchanged otherwise. `summary` is the summariser's outcome for the
    /// request that `summary_request` gave for these messages.
    pub fn compress_messages(
        &mut self,
        messages: Vec<Message>,
        summary: Result<(String, u32), SummaryError>,
    ) -> (r: (Vec<Message>, Option<CompressionInfo>))
        ensures
            old(self).conditional_post(messages@, summary, r.0@, r.1, *final(self)),
    {
        if !self.should_compress_conversation(&messages) {
            return (messages, None);
        }
        self.compress_messages_internal(messages, summary)
    }

    /// Compresses `messages` whatever the token count, provided they hold more
    /// than two non-system messages; returns them unchanged otherwise.
    pub fn compress_messages_force(
        &mut self,
        messages: Vec<Message>,
        summary: Result<(String, u32), SummaryError>,
    ) -> (r: (Vec<Message>, Option<CompressionInfo>))
        ensures
            if dialogue(messages@).len() > 2 {
                old(self).compression_post(messages@, summary, r.0@, r.1, *final(self))
            } else {
                r.0@ == messages@ && r.1 is None && *final(self) == *old(self)
            },
    {
        if count_dialogue(&messages) <= 2 {
            return (messages, None);
        }
        self.compress_messages_internal(messages, summary)
    }

    fn compress_messages_internal(
        &mut self,
        messages: Vec<Message>,
        summary: Result<(String, u32), SummaryError>,
    ) -> (r: (Vec<Message>, Option<CompressionInfo>))
        ensures
            old(self).compression_post(messages@, summary, r.0@, r.1, *final(self)),
    {
        let ghost t = messages@;
        let original_count = messages.len();
        let tokens_before = self.current_tokens;
        let n = count_dialogue(&messages);
        let cut: usize = if n > RECENT_WINDOW {
            n - RECENT_WINDOW
        } else {
            0
        };
        let mut rest = messages;
        let mut system_messages: Vec<Message> = Vec::new();
        let mut recent: Vec<Message> = Vec::new();
        let mut k: usize = 0;
        let mut i: usize = 0;
        while rest.len() > 0
            invariant
                i <= t.len(),
                t.len() <= usize::MAX,
                rest@ == t.skip(i as int),
                system_messages@ == kept_system(t.take(i as int)),
                k == dialogue(t.take(i as int)).len(),
                n == dialogue(t).len(),
                cut == recent_start(n as int),
                recent@ == (if k <= cut {
                    Seq::empty()
                } else {
                    dialogue(t.take(i as int)).subrange(cut as int, k as int)
                }),
            decreases rest.len(),
        {
            let ghost before = t.take(i as int);
            let m = rest.remove(0);
            assert(t.take(i + 1) =~= before.push(m));
            proof {
                before.lemma_filter_push(m, dialogue_pred());
                before.lemma_filter_push(m, kept_system_pred());
                lemma_dialogue_prefix_len(t, i as int + 1);
            }
            if m.is_summary_message() {
                // an old summary gives way to the new one
            } else if m.is_system_message() {
                system_messages.push(m);
            } else {
                if k >= cut {
                    recent.push(m);
                }
                k += 1;
            }
            i += 1;
            assert(rest@ =~= t.skip(i as int));
            assert(recent@ =~= (if k <= cut {
                Seq::empty()
            } else {
                dialogue(t.take(i as int)).subrange(cut as int, k as int)
            }));
        }
        assert(t.take(i as int) =~= t);
        assert(recent@ =~= recent_part(t));
        let mut compressed = system_messages;
        let ghost sys = compressed@;
        if cut == 0 {
            compressed.append(&mut recent);
            self.current_tokens = 0;
            return (compressed, None);
        }
        let ai_summary: Option<String>;
        let new_tokens: u32;
        match summary {
            Ok((s, tokens)) => {
                let note = String::from_str(SUMMARY_PREFIX).concat(s.as_str());
                compressed.push(
                    Message::System { content: Some(note), name: Some(String::from_str(SUMMARY_TAG)) },
                );
                ai_summary = Some(s);
                new_tokens = tokens;
            },
            Err(_) => {
                compressed.push(
                    Message::System {
                        content: Some(String::from_str(FALLBACK_NOTE)),
                        name: Some(String::from_str(FALLBACK_TAG)),
                    },
                );
                ai_summary = None;
                new_tokens = FALLBACK_TOKEN_ESTIMATE;
            },
        }
        let ghost with_note = compressed@;
        compressed.append(&mut recent);
        assert(compressed@.take(sys.len() as int) =~= sys);
        assert(compressed@.skip(sys.len() as int + 1) =~= recent_part(t));
        assert(compressed@[sys.len() as int] == with_note[sys.len() as int]);
        self.current_tokens = new_tokens;
        let info = CompressionInfo {
            original_message_count: original_count,
            compressed_message_count: compressed.len(),
            tokens_before: Some(tokens_before),
            current_tokens: if new_tokens > 0 {
                Some(new_tokens)
            } else {
                None
            },
            max_tokens: self.max_tokens,
            ai_summary,
        };
        (compressed, Some(info))
    }
}

pub(crate) proof fn lemma_filter_keeps_all(s: Seq<Message>, p: spec_fn(Message) -> bool)
    requires
        forall|i: int| 0 <= i < s.len() ==> p(#[trigger] s[i]),
    ensures
        s.filter(p) == s,
    decreases s.len(),
{
    reveal(Seq::filter);
    if s.len() > 0 {
        lemma_filter_keeps_all(s.drop_last(), p);
        assert(s.drop_last().push(s.last()) =~= s);
    }
}

proof fn lemma_filter_keeps_none(s: Seq<Message>, p: spec_fn(Message) -> bool)
    requires
        forall|i: int| 0 <= i < s.len() ==> !p(#[trigger] s[i]),
    ensures
        s.filter(p) == Seq::<Message>::empty(),
    decreases s.len(),
{
    reveal(Seq::filter);
    if s.len() > 0 {
        lemma_filter_keeps_none(s.drop_last(), p);
    }
}

/// The pieces of a compressed trace, and how the two filters see them.
pub(crate) proof fn lemma_compressed_pieces(t: Seq<Message>)
    ensures
        forall|i: int|
            0 <= i < kept_system(t).len() ==> (#[trigger] kept_system(t)[i]).is_system()
                && !kept_system(t)[i].is_summary(),
        forall|i: int| 0 <= i < recent_part(t).len() ==> !(#[trigger] recent_part(t)[i]).is_system(),
        dialogue(kept_system(t)) == Seq::<Message>::empty(),
        kept_system(kept_system(t)) == kept_system(t),
        dialogue(recent_part(t)) == recent_part(t),
        kept_system(recent_part(t)) == Seq::<Message>::empty(),
        recent_part(t).len() == dialogue(t).len() - middle_part(t).len(),
{
    let sys = kept_system(t);
    let rec = recent_part(t);
    let d = dialogue(t);
    assert forall|i: int| 0 <= i < sys.len() implies (#[trigger] sys[i]).is_system()
        && !sys[i].is_summary() by {
        t.lemma_filter_pred(kept_system_pred(), i);
    }
    assert forall|i: int| 0 <= i < rec.len() implies !(#[trigger] rec[i]).is_system() by {
        t.lemma_filter_pred(dialogue_pred(), i + recent_start(d.len() as int));
    }
    lemma_filter_keeps_none(sys, dialogue_pred());
    lemma_filter_keeps_all(sys, kept_system_pred());
    lemma_filter_keeps_all(rec, dialogue_pred());
    lemma_filter_keeps_none(rec, kept_system_pred());
}

/// A compressed trace splits into its kept system messages, an optional note,
/// and the recent window.
pub(crate) proof fn lemma_compressed_split(
    t: Seq<Message>,
    r: Seq<Message>,
    summary: Result<(String, u32), SummaryError>,
)
    requires
        compressed_as(t, r, summary),
    ensures
        middle_part(t).len() == 0 ==> r == kept_system(t) + recent_part(t),
        middle_part(t).len() > 0 ==> r == kept_system(t) + seq![r[kept_system(t).len() as int]]
            + recent_part(t),
        middle_part(t).len() > 0 ==> r[kept_system(t).len() as int].is_system(),
        dialogue(r) == recent_part(t),
{
    let sys = kept_system(t);
    let rec = recent_part(t);
    lemma_compressed_pieces(t);
    Seq::filter_distributes_over_add(sys, rec, dialogue_pred());
    if middle_part(t).len() > 0 {
        let note = seq![r[sys.len() as int]];
        assert(r =~= sys + note + rec);
        Seq::filter_distributes_over_add(sys + note, rec, dialogue_pred());
        Seq::filter_distributes_over_add(sys, note, dialogue_pred());
        lemma_filter_keeps_none(note, dialogue_pred());
        assert(dialogue(r) =~= rec);
    } else {
        assert(dialogue(r) =~= rec);
    }
}

/// Compression keeps the six newest non-system messages as they were, provided
/// there were at least six.
pub proof fn lemma_recent_window_kept(
    c: ContextCompressor,
    t: Seq<Message>,
    summary: Result<(String, u32), SummaryError>,
    r: Seq<Message>,
    info: Option<CompressionInfo>,
    after: ContextCompressor,
)
    requires
        c.compression_post(t, summary, r, info, after),
        dialogue(t).len() >= RECENT_WINDOW,
    ensures
        dialogue(r).len() == RECENT_WINDOW,
        dialogue(r) == dialogue(t).skip(dialogue(t).len() - RECENT_WINDOW),
{
    lemma_compressed_split(t, r, summary);
}

/// Every compression leaves at most one summary, placed right after the kept
/// system messages.
pub proof fn lemma_compression_places_summary(
    t: Seq<Message>,
    summary: Result<(String, u32), SummaryError>,
    r: Seq<Message>,
)
    requires
        compressed_as(t, r, summary),
    ensures
        summary_placed(r),
{
    let sys = kept_system(t);
    let rec = recent_part(t);
    lemma_compressed_pieces(t);
    lemma_compressed_split(t, r, summary);
    reveal_strlit("system");
    reveal_strlit("summary");
    assert forall|j: int, k: int|
        0 <= k < j < r.len() && (#[trigger] r[j]).is_summary() implies (#[trigger] r[k]).is_system()
        && !r[k].is_summary() by {
        if middle_part(t).len() > 0 {
            if j > sys.len() {
                assert(r[j] == rec[j - sys.len() - 1]);
            }
            if j < sys.len() {
                assert(r[j] == sys[j]);
            }
            assert(r[k] == sys[k]);
        } else {
            if j >= sys.len() {
                assert(r[j] == rec[j - sys.len()]);
            }
            assert(r[j] == sys[j]);
            assert(r[k] == sys[k]);
        }
    }
}

/// Compressing twice in a row, with no token update in between, changes
/// nothing the second time, unless the first compression wrote a note and
/// left the count at or above the threshold.
pub proof fn lemma_compression_idempotent(
    c: ContextCompressor,
    t: Seq<Message>,
    first: Result<(String, u32), SummaryError>,
    r1: Seq<Message>,
    info1: Option<CompressionInfo>,
    c1: ContextCompressor,
    second: Result<(String, u32), SummaryError>,
    r2: Seq<Message>,
    info2: Option<CompressionInfo>,
    c2: ContextCompressor,
)
    requires
        c.conditional_post(t, first, r1, info1, c1),
        c1.conditional_post(r1, second, r2, info2, c2),
        info1 is None || !c1.compress_due(),
    ensures
        r2 == r1,
        info2 is None,
        c2.tokens() == c1.tokens(),
        c2.limit() == c1.limit(),
        c2.summary_model() == c1.summary_model(),
{
    if c.compression_wanted(t) && info1 is None {
        lemma_compressed_split(t, r1, first);
        lemma_compressed_pieces(t);
        let sys = kept_system(t);
        let rec = recent_part(t);
        Seq::filter_distributes_over_add(sys, rec, kept_system_pred());
        assert(kept_system(r1) =~= sys);
        assert(recent_part(r1) =~= rec);
        assert(middle_part(r1).len() == 0);
    }
}

proof fn lemma_dialogue_prefix_len(t: Seq<Message>, i: int)
    requires
        0 <= i <= t.len(),
    ensures
        dialogue(t.take(i)).len() <= dialogue(t).len(),
    decreases t.len() - i,
{
    if i < t.len() {
        lemma_dialogue_prefix_len(t, i + 1);
        assert(t.take(i + 1) =~= t.take(i).push(t[i]));
        t.take(i).lemma_filter_push(t[i], dialogue_pred());
    } else {
        assert(t.take(i) =~= t);
    }
}

/// The number of non-system messages in `messages`.
pub fn count_dialogue(messages: &Vec<Message>) -> (r: usize)
    ensures
        r == dialogue(messages@).len(),
{
    let mut count: usize = 0;
    let mut i: usize = 0;
    while i < messages.len()
        invariant
            i <= messages.len(),
            count == dialogue(messages@.take(i as int)).len(),
        decreases messages.len() - i,
    {
        assert(messages@.take(i + 1) =~= messages@.take(i as int).push(messages@[i as int]));
        proof {
            messages@.take(i as int).lemma_filter_len(dialogue_pred());
            messages@.take(i as int).lemma_filter_push(messages@[i as int], dialogue_pred());
        }
        if !messages[i].is_system_message() {
            count += 1;
        }
        i += 1;
    }
    assert(messages@.take(i as int) =~= messages@);
    count
}

proof fn lemma_first_user_text_skip(t: Seq<Message>, i: int)
    requires
        0 <= i < t.len(),
        t[i].user_text() is None,
    ensures
        first_user_text(t.skip(i)) == first_user_text(t.skip(i + 1)),
{
    assert(t.skip(i).skip(1) =~= t.skip(i + 1));
}

/// The text of the first user message of `messages` that has text.
pub fn find_first_user_text(messages: &Vec<Message>) -> (r: Option<String>)
    ensures
        opt_view(r) == first_user_text(messages@),
{
    let mut i: usize = 0;
    assert(messages@.skip(0) =~= messages@);
    while i < messages.len()
        invariant
            i <= messages.len(),
            first_user_text(messages@.skip(i as int)) == first_user_text(messages@),
        decreases messages.len() - i,
    {
        match &messages[i] {
            Message::User { content: Some(s) } => {
                return Some(s.clone());
            },
            _ => {},
        }
        proof {
            lemma_first_user_text_skip(messages@, i as int);
        }
        i += 1;
    }
    None
}

pub open spec fn opt_view(o: Option<String>) -> Option<Seq<char>> {
    match o {
        Some(s) => Some(s@),
        None => None,
    }
}

/// `messages` without old summaries, one line per message with text.
pub fn render_conversation(messages: &Vec<Message>) -> (r: String)
    ensures
        r@ == rendered(without_summaries(messages@)),
{
    let mut text = String::new();
    let mut i: usize = 0;
    while i < messages.len()
        invariant
            i <= messages.len(),
            text@ == rendered(without_summaries(messages@.take(i as int))),
        decreases messages.len() - i,
    {
        let ghost before = without_summaries(messages@.take(i as int));
        let m = &messages[i];
        assert(messages@.take(i + 1) =~= messages@.take(i as int).push(*m));
        proof {
            messages@.take(i as int).lemma_filter_push(*m, not_summary_pred());
        }
        if !m.is_summary_message() {
            assert(before.push(*m).drop_last() =~= before);
            match m {
                Message::User { content: Some(s) } => {
                    text.append("User: ");
                    text.append(s.as_str());
                    text.append("\n");
                },
                Message::Assistant { content: Some(s), .. } => {
                    text.append("Assistant: ");
                    text.append(s.as_str());
                    text.append("\n");
                },
                Message::Tool { content, .. } => {
                    text.append("Tool: ");
                    text.append(content.as_str());
                    text.append("\n");
                },
                Message::System { content: Some(s), .. } => {
                    text.append("System: ");
                    text.append(s.as_str());
                    text.append("\n");
                },
                _ => {},
            }
            assert(text@ =~= rendered(before.push(*m)));
        }
        i += 1;
    }
    assert(messages@.take(i as int) =~= messages@);
    text
}

/// The summary carried by a summariser response, with its completion token
/// count: the first choice must be assistant text that is not blank, and the
/// completion token count must be positive.
pub fn summary_from_response(response: Result<LlmResponse, String>) -> (r: Result<
    (String, u32),
    SummaryError,
>)
    ensures
        match response {
            Err(e) => r == Err::<(String, u32), SummaryError>(SummaryError::Transport(e)),
            Ok(resp) => match resp.usage {
                None => r matches Err(SummaryError::NoUsage),
                Some(u) => {
                    let k: u32 = match u.completion_tokens {
                        Some(c) => c,
                        None => 0,
                    };
                    match resp.first_choice {
                        Some(Message::Assistant { content: Some(s), .. }) => if k > 0 && exists|
                            j: int,
                        |
                            0 <= j < s@.len() && !unicode_white_space(#[trigger] s@[j]) {
                            r == Ok::<(String, u32), SummaryError>((s, k))
                        } else {
                            r matches Err(SummaryError::EmptySummary)
                        },
                        _ => r matches Err(SummaryError::NoContent),
                    }
                },
            },
        },
{
    let resp = match response {
        Err(e) => {
            return Err(SummaryError::Transport(e));
        },
        Ok(resp) => resp,
    };
    let k = match resp.usage {
        None => {
            return Err(SummaryError::NoUsage);
        },
        Some(u) => match u.completion_tokens {
            Some(c) => c,
            None => 0,
        },
    };
    match resp.first_choice {
        Some(Message::Assistant { content: Some(s), .. }) => {
            if !is_blank(s.as_str()) && k > 0 {
                Ok((s, k))
            } else {
                Err(SummaryError::EmptySummary)
            }
        },
        _ => Err(SummaryError::NoContent),
    }
}

} // verus!
