//! Decisions of the local Codex app-server provider: the turn prompt, the
//! web-answer cache key, model selection, the handling of each streamed
//! JSON-RPC message, and the sources cited in an answer.
//!
//! The process, its pipes and the JSON encoding stay with the caller, which
//! hands this module the fields it reads from each message.
use vstd::prelude::*;

use crate::provider::{source_views, StreamSource};
use crate::text::{
    chars_eq, chars_of, has_at, join, join_chars, char_views, lead, lead_index, lemma_lead_bounds,
    lemma_stop_bounds, lemma_tail_bounds, matches_at, push_all, push_str, slice_of, starts_with,
    starts_with_chars, stop, stop_index, string_of, tail, tail_index, trim, trim_back,
    trim_chars, trim_front, trimmed_back, trimmed_front, Strip,
};

verus! {

/// The id that stands for the app-server's own default model.
pub open spec fn default_model_id() -> Seq<char> {
    "codex-default"@
}

/// The model to request: none for a blank name or the default id.
pub open spec fn model_choice(model: Seq<char>) -> Option<Seq<char>> {
    let m = trim(model);
    if m.len() == 0 || m == default_model_id() {
        None
    } else {
        Some(m)
    }
}

/// Chooses the model to request from the configured model name.
pub fn normalized_model(model: &str) -> (r: Option<String>)
    ensures
        match r {
            Some(m) => model_choice(model@) == Some(m@),
            None => model_choice(model@) is None,
        },
{
    let c = chars_of(model);
    let m = trim_chars(&c);
    if m.len() == 0 || chars_eq(&m, &chars_of("codex-default")) {
        None
    } else {
        Some(string_of(&m))
    }
}

/// The reasoning effort to request: the trimmed value, unless blank.
pub open spec fn effort_choice(effort: Option<Seq<char>>) -> Option<Seq<char>> {
    match effort {
        Some(e) => if trim(e).len() > 0 {
            Some(trim(e))
        } else {
            None
        },
        None => None,
    }
}

pub fn requested_effort(effort: Option<&str>) -> (r: Option<String>)
    ensures
        match r {
            Some(e) => effort_choice(
                match effort {
                    Some(x) => Some(x@),
                    None => None,
                },
            ) == Some(e@),
            None => effort_choice(
                match effort {
                    Some(x) => Some(x@),
                    None => None,
                },
            ) is None,
        },
{
    match effort {
        None => None,
        Some(e) => {
            let t = trim_chars(&chars_of(e));
            if t.len() > 0 {
                Some(string_of(&t))
            } else {
                None
            }
        },
    }
}

/// The key under which a web-grounded answer is cached.
pub open spec fn cache_key_of(
    model: Option<Seq<char>>,
    effort: Option<Seq<char>>,
    query: Seq<char>,
) -> Seq<char> {
    "model="@ + (match model {
        Some(m) => m,
        None => "default"@,
    }) + ";effort="@ + (match effort {
        Some(e) => e,
        None => "default"@,
    }) + ";query="@ + query
}

/// Builds the cache key of a web-grounded answer from the requested model,
/// the requested effort and the caller's query key.
pub fn web_cache_key(model: Option<&str>, effort: Option<&str>, query: &str) -> (r: String)
    ensures
        r@ == cache_key_of(
            match model {
                Some(m) => Some(m@),
                None => None,
            },
            match effort {
                Some(e) => Some(e@),
                None => None,
            },
            query@,
        ),
{
    let mut k: Vec<char> = Vec::new();
    push_str(&mut k, "model=");
    match model {
        Some(m) => push_str(&mut k, m),
        None => push_str(&mut k, "default"),
    }
    push_str(&mut k, ";effort=");
    match effort {
        Some(e) => push_str(&mut k, e),
        None => push_str(&mut k, "default"),
    }
    push_str(&mut k, ";query=");
    push_str(&mut k, query);
    string_of(&k)
}

/// One message of a conversation.
#[derive(Debug)]
pub struct LLMMessage {
    pub role: String,
    pub content: String,
}

/// The system prompt: the content of the first message whose role is
/// `system`, or nothing.
pub open spec fn system_prompt_of(ms: Seq<LLMMessage>) -> Seq<char>
    decreases ms.len(),
{
    if ms.len() == 0 {
        Seq::empty()
    } else if ms[0].role@ == "system"@ {
        ms[0].content@
    } else {
        system_prompt_of(ms.drop_first())
    }
}

/// The contents of the messages whose role is not `system`, in order.
pub open spec fn user_parts(ms: Seq<LLMMessage>) -> Seq<Seq<char>>
    decreases ms.len(),
{
    if ms.len() == 0 {
        Seq::empty()
    } else if ms.last().role@ == "system"@ {
        user_parts(ms.drop_last())
    } else {
        user_parts(ms.drop_last()).push(ms.last().content@)
    }
}

pub open spec fn prompt_head() -> Seq<char> {
    "For this interview-assistant turn, follow the instructions below. Never control, join, speak in, or type into a meeting application. Do not modify files.\n\n<instructions>\n"@
}

pub open spec fn prompt_middle() -> Seq<char> {
    "\n</instructions>\n\n<meeting_context>\n"@
}

pub open spec fn prompt_web() -> Seq<char> {
    "\n</meeting_context>\n\nWeb search is "@
}

pub open spec fn prompt_tail() -> Seq<char> {
    " for this turn. If it is enabled and the question needs current information, you may use web search and make the returned sources clear. If it is disabled, answer only from the supplied context and stable knowledge. If the supplied context does not support a personal claim, say that you do not have enough information instead of inventing it."@
}

/// The prompt of one turn: the system prompt as instructions, the other
/// messages (separated by blank lines) as meeting context, and whether web
/// search is allowed.
pub open spec fn turn_prompt_of(ms: Seq<LLMMessage>, enable_web_search: bool) -> Seq<char> {
    prompt_head() + system_prompt_of(ms) + prompt_middle() + join(user_parts(ms), "\n\n"@)
        + prompt_web() + (if enable_web_search {
        "enabled when needed"@
    } else {
        "disabled"@
    }) + prompt_tail()
}

fn is_system(m: &LLMMessage) -> (r: bool)
    ensures
        r == (m.role@ == "system"@),
{
    chars_eq(&chars_of(m.role.as_str()), &chars_of("system"))
}

/// Builds the prompt of one Codex turn from the conversation messages.
pub fn turn_prompt(messages: &Vec<LLMMessage>, enable_web_search: bool) -> (r: String)
    ensures
        r@ == turn_prompt_of(messages@, enable_web_search),
{
    let ghost ms = messages@;
    let mut system: Vec<char> = Vec::new();
    let mut found = false;
    let mut parts: Vec<Vec<char>> = Vec::new();
    let mut i: usize = 0;
    assert(ms.subrange(0, ms.len() as int) =~= ms);
    while i < messages.len()
        invariant
            i <= messages@.len(),
            ms == messages@,
            found ==> system@ == system_prompt_of(ms),
            !found ==> system@ == Seq::<char>::empty(),
            !found ==> system_prompt_of(ms) == system_prompt_of(ms.subrange(i as int, ms.len() as int)),
            char_views(parts@) == user_parts(ms.subrange(0, i as int)),
        decreases messages.len() - i,
    {
        proof {
            let rest = ms.subrange(i as int, ms.len() as int);
            assert(rest[0] == ms[i as int]);
            assert(rest.drop_first() =~= ms.subrange(i + 1, ms.len() as int));
            assert(ms.subrange(0, i + 1).drop_last() =~= ms.subrange(0, i as int));
            assert(ms.subrange(0, i + 1).last() == ms[i as int]);
        }
        let m = &messages[i];
        if is_system(m) {
            if !found {
                system = chars_of(m.content.as_str());
                found = true;
            }
        } else {
            let p = chars_of(m.content.as_str());
            let ghost before = char_views(parts@);
            parts.push(p);
            assert(char_views(parts@) =~= before.push(p@));
        }
        i = i + 1;
    }
    proof {
        assert(ms.subrange(0, ms.len() as int) =~= ms);
        if !found {
            assert(ms.subrange(ms.len() as int, ms.len() as int) =~= Seq::<LLMMessage>::empty());
        }
    }
    let user = join_chars(&parts, &chars_of("\n\n"));
    assert(system@ == system_prompt_of(messages@));
    assert(char_views(parts@) == user_parts(messages@));
    assert(user@ == join(user_parts(messages@), "\n\n"@));
    let mut p: Vec<char> = Vec::new();
    push_str(
        &mut p,
        "For this interview-assistant turn, follow the instructions below. Never control, join, speak in, or type into a meeting application. Do not modify files.\n\n<instructions>\n",
    );
    push_all(&mut p, &system);
    push_str(&mut p, "\n</instructions>\n\n<meeting_context>\n");
    push_all(&mut p, &user);
    push_str(&mut p, "\n</meeting_context>\n\nWeb search is ");
    if enable_web_search {
        push_str(&mut p, "enabled when needed");
    } else {
        push_str(&mut p, "disabled");
    }
    push_str(
        &mut p,
        " for this turn. If it is enabled and the question needs current information, you may use web search and make the returned sources clear. If it is disabled, answer only from the supplied context and stable knowledge. If the supplied context does not support a personal claim, say that you do not have enough information instead of inventing it.",
    );
    string_of(&p)
}

/// Number of pieces a cached answer of `n` characters is replayed in.
pub open spec fn chunk_count(n: int) -> int {
    (n + 63) / 64
}

/// Splits a cached answer into the pieces that are replayed as stream
/// tokens: consecutive runs of 64 characters, the last one shorter.
pub fn answer_chunks(answer: &str) -> (r: Vec<String>)
    ensures
        r@.len() == chunk_count(answer@.len() as int),
        forall|i: int|
            0 <= i < r@.len() ==> (#[trigger] r@[i])@ == answer@.subrange(
                64 * i,
                if 64 * i + 64 < answer@.len() {
                    64 * i + 64
                } else {
                    answer@.len() as int
                },
            ),
{
    let c = chars_of(answer);
    let mut r: Vec<String> = Vec::new();
    let mut start: usize = 0;
    if c.len() == 0 {
        return r;
    }
    loop
        invariant_except_break
            start < c@.len(),
            start == 64 * r@.len(),
        invariant
            c@ == answer@,
            forall|i: int|
                0 <= i < r@.len() ==> (#[trigger] r@[i])@ == answer@.subrange(
                    64 * i,
                    if 64 * i + 64 < answer@.len() {
                        64 * i + 64
                    } else {
                        answer@.len() as int
                    },
                ),
        ensures
            r@.len() == chunk_count(answer@.len() as int),
        decreases c.len() - start,
    {
        let end = if c.len() - start > 64 {
            start + 64
        } else {
            c.len()
        };
        let piece = string_of(&slice_of(&c, start, end));
        let ghost k = r@.len();
        r.push(piece);
        if end == c.len() {
            assert(r@.len() == chunk_count(answer@.len() as int)) by (nonlinear_arith)
                requires
                    64 * k < answer@.len(),
                    answer@.len() <= 64 * k + 64,
                    r@.len() == k + 1,
            ;
            break;
        }
        start = end;
    }
    r
}

/// What a streamed completion hands to the frontend.
#[derive(Debug)]
pub enum StreamEvent {
    /// A piece of the answer.
    Token(String),
    /// The sources the answer cites.
    Sources(Vec<StreamSource>),
    /// The end of the answer.
    End { total_tokens: u64, latency_ms: u64 },
}

/// Statistics of one completion.
#[derive(Debug, Clone, Copy)]
pub struct CompletionStats {
    pub prompt_tokens: u64,
    pub completion_tokens: u64,
    pub total_tokens: u64,
    pub latency_ms: u64,
}

/// The end of a reply: the sources, when there are any, then the end event
/// with `tokens` tokens and the latency.
pub open spec fn reply_tail(events: Seq<StreamEvent>, sources: Seq<(Seq<char>, Seq<char>)>, tokens: u64, latency_ms: u64) -> bool {
    if sources.len() > 0 {
        &&& events.len() == 2
        &&& events[0] matches StreamEvent::Sources(s) && source_views(s@) == sources
        &&& events[1] matches StreamEvent::End { total_tokens, latency_ms: l } && total_tokens
            == tokens && l == latency_ms
    } else {
        &&& events.len() == 1
        &&& events[0] matches StreamEvent::End { total_tokens, latency_ms: l } && total_tokens
            == tokens && l == latency_ms
    }
}

fn push_tail(events: &mut Vec<StreamEvent>, sources: Vec<StreamSource>, tokens: u64, latency_ms: u64)
    ensures
        final(events)@.len() >= old(events)@.len(),
        final(events)@.subrange(0, old(events)@.len() as int) == old(events)@,
        reply_tail(
            final(events)@.subrange(old(events)@.len() as int, final(events)@.len() as int),
            source_views(sources@),
            tokens,
            latency_ms,
        ),
{
    let ghost before = events@;
    let ghost sv = source_views(sources@);
    if sources.len() > 0 {
        events.push(StreamEvent::Sources(sources));
    }
    events.push(StreamEvent::End { total_tokens: tokens, latency_ms });
    assert(events@.subrange(0, before.len() as int) =~= before);
    proof {
        let tail = events@.subrange(before.len() as int, events@.len() as int);
        assert(tail[0] == events@[before.len() as int]);
        if sv.len() > 0 {
            assert(tail[1] == events@[before.len() as int + 1]);
        }
    }
}

/// The reply to a query answered from the web-answer cache: the answer
/// replayed as 64-character tokens, its sources when there are any, and the
/// end, with as many tokens as pieces and no latency.
pub fn cached_reply(answer: &str, sources: Vec<StreamSource>) -> (r: (Vec<StreamEvent>, CompletionStats))
    ensures
        ({
            let n = chunk_count(answer@.len() as int);
            &&& r.0@.len() >= n
            &&& forall|i: int|
                0 <= i < n ==> ((#[trigger] r.0@[i]) matches StreamEvent::Token(t) && t@
                    == answer@.subrange(
                    64 * i,
                    if 64 * i + 64 < answer@.len() {
                        64 * i + 64
                    } else {
                        answer@.len() as int
                    },
                ))
            &&& reply_tail(r.0@.subrange(n, r.0@.len() as int), source_views(sources@), n as u64, 0)
            &&& r.1 == (CompletionStats {
                prompt_tokens: 0,
                completion_tokens: n as u64,
                total_tokens: n as u64,
                latency_ms: 0,
            })
        }),
{
    let chunks = answer_chunks(answer);
    let count = chunks.len() as u64;
    let mut events: Vec<StreamEvent> = Vec::new();
    let mut i: usize = 0;
    while i < chunks.len()
        invariant
            events@.len() == i,
            i <= chunks@.len(),
            forall|j: int| 0 <= j < i ==> ((#[trigger] events@[j]) matches StreamEvent::Token(t)
                && t@ == chunks@[j]@),
        decreases chunks.len() - i,
    {
        events.push(StreamEvent::Token(string_of(&chars_of(chunks[i].as_str()))));
        i = i + 1;
    }
    let ghost before = events@;
    push_tail(&mut events, sources, count, 0);
    proof {
        assert forall|j: int| 0 <= j < before.len() implies events@[j] == before[j] by {
            assert(events@.subrange(0, before.len() as int)[j] == events@[j]);
        }
        let n = chunk_count(answer@.len() as int);
        assert(before.len() == n);
        assert(count == n as u64);
        assert(reply_tail(events@.subrange(n, events@.len() as int), source_views(sources@), n as u64, 0));
        assert forall|i: int| 0 <= i < n implies ((#[trigger] events@[i]) matches StreamEvent::Token(t)
            && t@ == answer@.subrange(
            64 * i,
            if 64 * i + 64 < answer@.len() {
                64 * i + 64
            } else {
                answer@.len() as int
            },
        )) by {
            assert(events@[i] == before[i]);
            assert(chunks@[i]@ == answer@.subrange(
                64 * i,
                if 64 * i + 64 < answer@.len() {
                    64 * i + 64
                } else {
                    answer@.len() as int
                },
            ));
        }
    }
    (
        events,
        CompletionStats {
            prompt_tokens: 0,
            completion_tokens: count,
            total_tokens: count,
            latency_ms: 0,
        },
    )
}

/// The end of a reply produced by a Codex turn: the cited sources when
/// there are any (none unless web search was on), then the end, with the
/// turn's token count and latency.
pub fn turn_reply(token_count: u64, latency_ms: u64, sources: Vec<StreamSource>) -> (r: (
    Vec<StreamEvent>,
    CompletionStats,
))
    ensures
        reply_tail(r.0@, source_views(sources@), token_count, latency_ms),
        r.1 == (CompletionStats {
            prompt_tokens: 0,
            completion_tokens: token_count,
            total_tokens: token_count,
            latency_ms,
        }),
{
    let mut events: Vec<StreamEvent> = Vec::new();
    push_tail(&mut events, sources, token_count, latency_ms);
    assert(events@.subrange(0, events@.len() as int) =~= events@);
    (events, CompletionStats { prompt_tokens: 0, completion_tokens: token_count, total_tokens: token_count, latency_ms })
}

/// Fields read from one JSON-RPC message of the app-server.
#[derive(Debug)]
pub struct TurnMessage {
    /// The numeric `id`, when present.
    pub id: Option<u64>,
    /// The `error` member, as JSON text, when present.
    pub error: Option<String>,
    /// The `method`, when present and a string.
    pub method: Option<String>,
    /// `params.threadId`, when present and a string.
    pub thread_id: Option<String>,
    /// `params.delta`, when present and a string.
    pub delta: Option<String>,
    /// `params.turn.status`, when present and a string.
    pub status: Option<String>,
    /// `params.turn.error.message`, when present and a string.
    pub failure: Option<String>,
}

/// Why a turn failed.
#[derive(Debug)]
pub enum TurnFailure {
    /// The provider reported an error.
    Provider(String),
    /// The provider's messages were not what the protocol requires.
    InvalidResponse(String),
}

/// What to do after one message of a turn.
#[derive(Debug)]
pub enum TurnStep {
    /// Read the next message.
    Continue,
    /// Emit this piece of the answer, then read the next message.
    Token(String),
    /// Stop with this failure.
    Failed(TurnFailure),
    /// The turn is complete.
    Completed,
}

/// The state of one streamed turn.
pub struct TurnStream {
    pub request_id: u64,
    pub thread_id: String,
    pub request_seen: bool,
    pub token_count: u64,
    pub response_text: String,
}

pub open spec fn opt_view(o: Option<String>) -> Option<Seq<char>> {
    match o {
        Some(s) => Some(s@),
        None => None,
    }
}

impl TurnStream {
    /// A stream waiting for the acknowledgement of request `request_id` on
    /// thread `thread_id`.
    pub fn new(request_id: u64, thread_id: String) -> (r: Self)
        ensures
            r.request_id == request_id,
            r.thread_id == thread_id,
            !r.request_seen,
            r.token_count == 0,
            r.response_text@ == Seq::<char>::empty(),
    {
        TurnStream {
            request_id,
            thread_id,
            request_seen: false,
            token_count: 0,
            response_text: String::new(),
        }
    }

    /// Handles one message: the acknowledgement of the turn request (or its
    /// error), a delta of the answer on this thread, or the completion of
    /// the turn on this thread. Any other message is skipped.
    pub fn on_message(&mut self, msg: &TurnMessage) -> (r: TurnStep)
        ensures
            final(self).request_id == old(self).request_id,
            final(self).thread_id == old(self).thread_id,
            ({
                let ack = msg.id == Some(old(self).request_id);
                let same = opt_view(msg.thread_id) == Some(old(self).thread_id@);
                let method = opt_view(msg.method);
                if ack {
                    &&& final(self).request_seen
                    &&& final(self).token_count == old(self).token_count
                    &&& final(self).response_text@ == old(self).response_text@
                    &&& match msg.error {
                        Some(e) => r matches TurnStep::Failed(TurnFailure::Provider(m)) && m@
                            == "Codex turn/start failed: "@ + e@,
                        None => r is Continue,
                    }
                } else if method == Some("item/agentMessage/delta"@) && same && msg.delta is Some
                    && msg.delta.unwrap()@.len() > 0 {
                    let d = msg.delta.unwrap()@;
                    &&& r matches TurnStep::Token(t) && t@ == d
                    &&& final(self).request_seen == old(self).request_seen
                    &&& final(self).token_count == if old(self).token_count < u64::MAX {
                        old(self).token_count + 1
                    } else {
                        old(self).token_count as int
                    }
                    &&& final(self).response_text@ == old(self).response_text@ + d
                } else {
                    &&& final(self).request_seen == old(self).request_seen
                    &&& final(self).token_count == old(self).token_count
                    &&& final(self).response_text@ == old(self).response_text@
                    &&& if method == Some("turn/completed"@) && same {
                        let status = match msg.status {
                            Some(s) => s@,
                            None => "completed"@,
                        };
                        if status == "failed"@ {
                            r matches TurnStep::Failed(TurnFailure::Provider(m)) && m@ == match msg.failure {
                                Some(f) => f@,
                                None => "Codex turn failed"@,
                            }
                        } else if !old(self).request_seen {
                            r matches TurnStep::Failed(TurnFailure::InvalidResponse(m)) && m@
                                == "Codex completed a turn without acknowledging turn/start"@
                        } else {
                            r is Completed
                        }
                    } else {
                        r is Continue
                    }
                }
            }),
    {
        proof {
            reveal_strlit("item/agentMessage/delta");
            reveal_strlit("turn/completed");
            assert("item/agentMessage/delta"@.len() == 23);
            assert("turn/completed"@.len() == 14);
        }
        let ack = match msg.id {
            Some(i) => i == self.request_id,
            None => false,
        };
        if ack {
            self.request_seen = true;
            return match &msg.error {
                Some(e) => {
                    let mut m: Vec<char> = Vec::new();
                    push_str(&mut m, "Codex turn/start failed: ");
                    push_str(&mut m, e.as_str());
                    TurnStep::Failed(TurnFailure::Provider(string_of(&m)))
                },
                None => TurnStep::Continue,
            };
        }
        let method = match &msg.method {
            Some(m) => chars_of(m.as_str()),
            None => {
                return TurnStep::Continue;
            },
        };
        let same = match &msg.thread_id {
            Some(t) => *t == self.thread_id,
            None => false,
        };
        if chars_eq(&method, &chars_of("item/agentMessage/delta")) && same {
            if let Some(d) = &msg.delta {
                if !d.as_str().is_empty() {
                    self.token_count = self.token_count.saturating_add(1);
                    let mut text = chars_of(self.response_text.as_str());
                    push_str(&mut text, d.as_str());
                    self.response_text = string_of(&text);
                    return TurnStep::Token(d.clone());
                }
            }
            return TurnStep::Continue;
        }
        if chars_eq(&method, &chars_of("turn/completed")) && same {
            let status = match &msg.status {
                Some(s) => chars_of(s.as_str()),
                None => chars_of("completed"),
            };
            if chars_eq(&status, &chars_of("failed")) {
                let m = match &msg.failure {
                    Some(f) => f.clone(),
                    None => string_of(&chars_of("Codex turn failed")),
                };
                return TurnStep::Failed(TurnFailure::Provider(m));
            }
            if !self.request_seen {
                return TurnStep::Failed(
                    TurnFailure::InvalidResponse(
                        string_of(&chars_of("Codex completed a turn without acknowledging turn/start")),
                    ),
                );
            }
            return TurnStep::Completed;
        }
        TurnStep::Continue
    }
}

/// What to do with one message while waiting for the reply to a request.
#[derive(Debug)]
pub enum ReplyStep {
    /// Not the reply (a notification, or another request's reply): read on.
    Skip,
    /// The request failed.
    Failed(TurnFailure),
    /// This is the reply; its `result` is the answer.
    Reply,
}

/// Decides one message read while waiting for the reply to request
/// `request_id`, which called `method`.
pub fn reply_step(request_id: u64, method: &str, msg: &TurnMessage) -> (r: ReplyStep)
    ensures
        if msg.id != Some(request_id) {
            r is Skip
        } else {
            match msg.error {
                Some(e) => r matches ReplyStep::Failed(TurnFailure::Provider(m)) && m@ == "Codex "@
                    + method@ + " failed: "@ + e@,
                None => r is Reply,
            }
        },
{
    let mine = match msg.id {
        Some(i) => i == request_id,
        None => false,
    };
    if !mine {
        return ReplyStep::Skip;
    }
    match &msg.error {
        Some(e) => {
            let mut m: Vec<char> = Vec::new();
            push_str(&mut m, "Codex ");
            push_str(&mut m, method);
            push_str(&mut m, " failed: ");
            push_str(&mut m, e.as_str());
            ReplyStep::Failed(TurnFailure::Provider(string_of(&m)))
        },
        None => ReplyStep::Reply,
    }
}

/// The outcome of the `initialize` handshake: its result must name the
/// Codex home directory.
pub fn initialize_outcome(codex_home: Option<&str>) -> (r: Result<(), TurnFailure>)
    ensures
        codex_home is Some <==> r is Ok,
        r matches Err(TurnFailure::InvalidResponse(m)) ==> m@
            == "Codex initialize response did not include codexHome"@,
        r is Err ==> r->Err_0 is InvalidResponse,
{
    match codex_home {
        Some(_) => Ok(()),
        None => Err(
            TurnFailure::InvalidResponse(
                string_of(&chars_of("Codex initialize response did not include codexHome")),
            ),
        ),
    }
}

/// The thread id that `thread/start` returned, which the reply must hold.
pub fn thread_outcome(thread_id: Option<String>) -> (r: Result<String, TurnFailure>)
    ensures
        match thread_id {
            Some(t) => r matches Ok(id) && id@ == t@,
            None => r matches Err(TurnFailure::InvalidResponse(m)) && m@
                == "Codex thread/start response did not include thread.id"@,
        },
{
    match thread_id {
        Some(t) => Ok(t),
        None => Err(
            TurnFailure::InvalidResponse(
                string_of(&chars_of("Codex thread/start response did not include thread.id")),
            ),
        ),
    }
}

/// A model the provider offers.
#[derive(Debug)]
pub struct ModelInfo {
    pub id: String,
    pub name: String,
    pub provider: String,
    pub context_window: Option<u64>,
}

/// Fields read from one entry of the `model/list` reply.
#[derive(Debug)]
pub struct ModelEntry {
    pub id: Option<String>,
    pub model: Option<String>,
    pub display_name: Option<String>,
}

/// The id of a listed model: its `id`, else its `model`.
pub open spec fn entry_id(e: ModelEntry) -> Option<Seq<char>> {
    match e.id {
        Some(i) => Some(i@),
        None => match e.model {
            Some(m) => Some(m@),
            None => None,
        },
    }
}

/// The models of the listed entries that have an id, each named by its
/// display name or else its id.
pub open spec fn listed_models(es: Seq<ModelEntry>) -> Seq<(Seq<char>, Seq<char>)>
    decreases es.len(),
{
    if es.len() == 0 {
        Seq::empty()
    } else {
        let e = es.last();
        match entry_id(e) {
            Some(id) => listed_models(es.drop_last()).push(
                (
                    id,
                    match e.display_name {
                        Some(n) => n@,
                        None => id,
                    },
                ),
            ),
            None => listed_models(es.drop_last()),
        }
    }
}

pub open spec fn model_views(ms: Seq<ModelInfo>) -> Seq<(Seq<char>, Seq<char>)> {
    ms.map_values(|m: ModelInfo| (m.id@, m.name@))
}

/// The models to offer: those of the `model/list` reply (`None` when the
/// request failed or the reply had no list), or the app-server's default
/// model when there are none. Every model is a `codex` model without a
/// known context window.
pub fn models_from_list(entries: Option<Vec<ModelEntry>>) -> (r: Vec<ModelInfo>)
    ensures
        forall|i: int|
            0 <= i < r@.len() ==> (#[trigger] r@[i]).provider@ == "codex"@
                && r@[i].context_window is None,
        ({
            let listed = match entries {
                Some(es) => listed_models(es@),
                None => Seq::empty(),
            };
            if listed.len() > 0 {
                model_views(r@) == listed
            } else {
                model_views(r@) == seq![(default_model_id(), "Codex local app-server default"@)]
            }
        }),
{
    let mut models: Vec<ModelInfo> = Vec::new();
    if let Some(es) = &entries {
        let mut i: usize = 0;
        while i < es.len()
            invariant
                i <= es@.len(),
                model_views(models@) == listed_models(es@.subrange(0, i as int)),
                forall|k: int|
                    0 <= k < models@.len() ==> (#[trigger] models@[k]).provider@ == "codex"@
                        && models@[k].context_window is None,
            decreases es.len() - i,
        {
            proof {
                assert(es@.subrange(0, i + 1).drop_last() =~= es@.subrange(0, i as int));
                assert(es@.subrange(0, i + 1).last() == es@[i as int]);
            }
            let e = &es[i];
            let id = match &e.id {
                Some(x) => Some(x.clone()),
                None => match &e.model {
                    Some(m) => Some(m.clone()),
                    None => None,
                },
            };
            if let Some(id) = id {
                let name = match &e.display_name {
                    Some(n) => n.clone(),
                    None => id.clone(),
                };
                let m = ModelInfo {
                    id,
                    name,
                    provider: string_of(&chars_of("codex")),
                    context_window: None,
                };
                let ghost before = models@;
                models.push(m);
                assert(model_views(models@) =~= model_views(before).push((m.id@, m.name@)));
            }
            i = i + 1;
        }
        proof {
            assert(es@.subrange(0, es@.len() as int) =~= es@);
        }
    }
    if models.len() > 0 {
        return models;
    }
    let mut fallback: Vec<ModelInfo> = Vec::new();
    fallback.push(
        ModelInfo {
            id: string_of(&chars_of("codex-default")),
            name: string_of(&chars_of("Codex local app-server default")),
            provider: string_of(&chars_of("codex")),
            context_window: None,
        },
    );
    assert(model_views(fallback@) =~= seq![
        (default_model_id(), "Codex local app-server default"@),
    ]);
    fallback
}

/// The next JSON-RPC request id; ids stop growing at `u64::MAX`.
pub fn next_request_id(current: u64) -> (r: (u64, u64))
    ensures
        r.0 == current,
        r.1 == if current < u64::MAX {
            current + 1
        } else {
            current as int
        },
{
    (current, current.saturating_add(1))
}

pub open spec fn is_web_url(u: Seq<char>) -> bool {
    starts_with(u, "https://"@) || starts_with(u, "http://"@)
}

/// First position at or after `i` where `t` occurs in `s`, or -1.
pub open spec fn find_from(s: Seq<char>, t: Seq<char>, i: int) -> int
    decreases s.len() + 1 - i,
{
    if i < 0 || i + t.len() > s.len() {
        -1
    } else if has_at(s, t, i) {
        i
    } else {
        find_from(s, t, i + 1)
    }
}

/// The title and URL a whitespace-separated token offers: a Markdown link
/// `[title](url)` or a bare URL stripped of surrounding marks.
pub open spec fn candidate(token: Seq<char>) -> (Seq<char>, Seq<char>) {
    if token.len() > 0 && token[0] == '[' {
        let st = token.subrange(1, token.len() as int);
        let c = find_from(st, "]("@, 0);
        if c >= 0 {
            (st.subrange(0, c), trim_back(st.subrange(c + 2, st.len() as int), Strip::CloseLink))
        } else {
            ("Web source"@, Seq::empty())
        }
    } else {
        ("Web source"@, trim_back(trim_front(token, Strip::OpenMark), Strip::CloseBare))
    }
}

pub open spec fn url_seen(acc: Seq<(Seq<char>, Seq<char>)>, url: Seq<char>) -> bool {
    exists|i: int| 0 <= i < acc.len() && acc[i].1 == url
}

/// First index at or after `i` that holds `]` or a line feed, or the
/// length of `s` when there is none.
pub open spec fn bracket_close(s: Seq<char>, i: int) -> int
    decreases s.len() - i,
{
    if i < 0 || i >= s.len() {
        s.len() as int
    } else if s[i] == ']' || s[i] == '\n' {
        i
    } else {
        bracket_close(s, i + 1)
    }
}

/// A Markdown link `[title](url)` starts at `a`: the title, which may hold
/// spaces, runs to the first `]` on the same line, and `(` follows it.
pub open spec fn link_at(s: Seq<char>, a: int) -> bool {
    &&& 0 <= a < s.len()
    &&& s[a] == '['
    &&& bracket_close(s, a + 1) + 1 < s.len()
    &&& s[bracket_close(s, a + 1)] == ']'
    &&& s[bracket_close(s, a + 1) + 1] == '('
}

/// The title and URL offered at the start `a` of a token, and where the
/// scan goes on: a Markdown link, whose URL runs to the next whitespace and
/// drops trailing closing marks; else what the whitespace-separated token
/// offers.
pub open spec fn next_source(s: Seq<char>, a: int) -> ((Seq<char>, Seq<char>), int) {
    if link_at(s, a) {
        let c = bracket_close(s, a + 1);
        let e = stop(s, Strip::Space, c + 2);
        ((s.subrange(a + 1, c), trim_back(s.subrange(c + 2, e), Strip::CloseLink)), e)
    } else {
        let b = stop(s, Strip::Space, a);
        (candidate(s.subrange(a, b)), b)
    }
}

pub proof fn lemma_bracket_close(s: Seq<char>, i: int)
    requires
        0 <= i <= s.len(),
    ensures
        i <= bracket_close(s, i) <= s.len(),
        forall|j: int| i <= j < bracket_close(s, i) ==> #[trigger] s[j] != ']' && s[j] != '\n',
    decreases s.len() - i,
{
    if i < s.len() && !(s[i] == ']' || s[i] == '\n') {
        lemma_bracket_close(s, i + 1);
    }
}

pub proof fn lemma_next_source(s: Seq<char>, a: int)
    requires
        0 <= a < s.len(),
        !crate::text::is_ws(s[a]),
    ensures
        a < next_source(s, a).1 <= s.len(),
{
    if link_at(s, a) {
        let c = bracket_close(s, a + 1);
        lemma_bracket_close(s, a + 1);
        lemma_stop_bounds(s, Strip::Space, c + 2);
    } else {
        lemma_stop_bounds(s, Strip::Space, a);
        lemma_stop_bounds(s, Strip::Space, a + 1);
    }
}

/// The sources found in `s` from position `p` on, after those already in
/// `acc`: each Markdown link or whitespace-separated token offers one; web
/// URLs only, each URL once, at most eight in all.
pub open spec fn sources_from(s: Seq<char>, p: int, acc: Seq<(Seq<char>, Seq<char>)>) -> Seq<
    (Seq<char>, Seq<char>),
>
    decreases s.len() - p,
{
    if p < 0 || p >= s.len() {
        acc
    } else {
        let a = lead(s, Strip::Space, p);
        if a >= s.len() {
            acc
        } else {
            proof {
                lemma_lead_bounds(s, Strip::Space, p);
                lemma_next_source(s, a);
            }
            let (cand, b) = next_source(s, a);
            if !is_web_url(cand.1) || url_seen(acc, cand.1) {
                sources_from(s, b, acc)
            } else if acc.len() + 1 >= 8 {
                acc.push(cand)
            } else {
                sources_from(s, b, acc.push(cand))
            }
        }
    }
}

/// The sources cited in an answer.
pub open spec fn sources_of(s: Seq<char>) -> Seq<(Seq<char>, Seq<char>)> {
    sources_from(s, 0, Seq::empty())
}

/// A list of sources that only holds web URLs, each once, at most eight.
pub open spec fn well_formed_sources(acc: Seq<(Seq<char>, Seq<char>)>) -> bool {
    &&& acc.len() <= 8
    &&& forall|i: int| 0 <= i < acc.len() ==> is_web_url(#[trigger] acc[i].1)
    &&& forall|i: int, j: int| 0 <= i < acc.len() && 0 <= j < acc.len() && i != j ==> acc[i].1 != acc[j].1
}

proof fn lemma_sources_from(s: Seq<char>, p: int, acc: Seq<(Seq<char>, Seq<char>)>)
    requires
        well_formed_sources(acc),
        acc.len() < 8,
    ensures
        well_formed_sources(sources_from(s, p, acc)),
    decreases s.len() - p,
{
    if 0 <= p < s.len() {
        let a = lead(s, Strip::Space, p);
        lemma_lead_bounds(s, Strip::Space, p);
        if a < s.len() {
            lemma_next_source(s, a);
            let (cand, b) = next_source(s, a);
            if !is_web_url(cand.1) || url_seen(acc, cand.1) {
                lemma_sources_from(s, b, acc);
            } else {
                let acc2 = acc.push(cand);
                assert forall|i: int, j: int|
                    0 <= i < acc2.len() && 0 <= j < acc2.len() && i != j implies acc2[i].1
                    != acc2[j].1 by {
                    if i == acc.len() {
                        assert(!(acc[j].1 == cand.1));
                    } else if j == acc.len() {
                        assert(!(acc[i].1 == cand.1));
                    }
                }
                if acc2.len() < 8 {
                    lemma_sources_from(s, b, acc2);
                }
            }
        }
    }
}

/// The sources cited in any answer are web URLs, each listed once, at most
/// eight.
pub proof fn law_sources_are_distinct_web_urls(text: Seq<char>)
    ensures
        well_formed_sources(sources_of(text)),
{
    lemma_sources_from(text, 0, Seq::empty());
}

fn find_index(s: &Vec<char>, t: &Vec<char>) -> (r: Option<usize>)
    ensures
        match r {
            Some(i) => i as int == find_from(s@, t@, 0) && i + t@.len() <= s@.len(),
            None => find_from(s@, t@, 0) == -1,
        },
{
    let mut i: usize = 0;
    while i <= s.len() && t.len() <= s.len() - i
        invariant
            find_from(s@, t@, i as int) == find_from(s@, t@, 0),
        decreases s.len() + 1 - i,
    {
        if matches_at(s, t, i) {
            return Some(i);
        }
        if i == s.len() {
            assert(find_from(s@, t@, i + 1) == -1);
            return None;
        }
        i = i + 1;
    }
    None
}

fn candidate_of(token: &Vec<char>) -> (r: (Vec<char>, Vec<char>))
    ensures
        (r.0@, r.1@) == candidate(token@),
{
    proof {
        reveal_strlit("](");
    }
    if token.len() > 0 && token[0] == '[' {
        let st = slice_of(token, 1, token.len());
        match find_index(&st, &chars_of("](")) {
            Some(c) => {
                let title = slice_of(&st, 0, c);
                let rest = slice_of(&st, c + 2, st.len());
                let url = trimmed_back(&rest, Strip::CloseLink);
                (title, url)
            },
            None => (chars_of("Web source"), Vec::new()),
        }
    } else {
        let front = trimmed_front(token, Strip::OpenMark);
        let url = trimmed_back(&front, Strip::CloseBare);
        (chars_of("Web source"), url)
    }
}

fn bracket_close_index(s: &Vec<char>, i: usize) -> (r: usize)
    requires
        i <= s@.len(),
    ensures
        r == bracket_close(s@, i as int),
{
    let mut j = i;
    while j < s.len() && s[j] != ']' && s[j] != '\n'
        invariant
            i <= j <= s@.len(),
            bracket_close(s@, j as int) == bracket_close(s@, i as int),
        decreases s.len() - j,
    {
        j = j + 1;
    }
    j
}

/// The title and URL offered at the start `a` of a token, and where the
/// scan goes on.
fn next_source_at(s: &Vec<char>, a: usize) -> (r: (Vec<char>, Vec<char>, usize))
    requires
        a < s.len(),
        !crate::text::is_ws(s@[a as int]),
    ensures
        ((r.0@, r.1@), r.2 as int) == next_source(s@, a as int),
        a < r.2 <= s@.len(),
{
    proof {
        lemma_next_source(s@, a as int);
    }
    if s[a] == '[' {
        let c = bracket_close_index(s, a + 1);
        proof {
            lemma_bracket_close(s@, a + 1);
        }
        if c < s.len() && s[c] == ']' && c + 1 < s.len() && s[c + 1] == '(' {
            let e = stop_index(s, Strip::Space, c + 2);
            proof {
                lemma_stop_bounds(s@, Strip::Space, c + 2);
            }
            let title = slice_of(s, a + 1, c);
            let raw = slice_of(s, c + 2, e);
            let url = trimmed_back(&raw, Strip::CloseLink);
            return (title, url, e);
        }
    }
    let b = stop_index(s, Strip::Space, a);
    proof {
        lemma_stop_bounds(s@, Strip::Space, a as int);
    }
    let token = slice_of(s, a, b);
    let (title, url) = candidate_of(&token);
    (title, url, b)
}

fn seen_url(acc: &Vec<StreamSource>, url: &Vec<char>) -> (r: bool)
    ensures
        r == url_seen(source_views(acc@), url@),
{
    let mut i: usize = 0;
    while i < acc.len()
        invariant
            i <= acc@.len(),
            forall|j: int| 0 <= j < i ==> source_views(acc@)[j].1 != url@,
        decreases acc.len() - i,
    {
        if chars_eq(&chars_of(acc[i].url.as_str()), url) {
            assert(source_views(acc@)[i as int].1 == url@);
            return true;
        }
        i = i + 1;
    }
    false
}

/// Extracts explicit URLs from an answer so the UI can show a minimal,
/// user-auditable source list: Markdown links (whose titles may hold
/// spaces) and bare URLs, without duplicates, at most eight.
pub fn extract_sources(text: &str) -> (r: Vec<StreamSource>)
    ensures
        source_views(r@) == sources_of(text@),
{
    let s = chars_of(text);
    let mut acc: Vec<StreamSource> = Vec::new();
    let mut p: usize = 0;
    assert(source_views(acc@) =~= Seq::<(Seq<char>, Seq<char>)>::empty());
    while p < s.len()
        invariant_except_break
            source_views(acc@).len() < 8,
            sources_from(s@, p as int, source_views(acc@)) == sources_of(text@),
        invariant
            p <= s@.len(),
            s@ == text@,
        ensures
            source_views(acc@) == sources_of(text@),
        decreases s.len() - p,
    {
        let a = lead_index(&s, Strip::Space, p);
        proof {
            lemma_lead_bounds(s@, Strip::Space, p as int);
        }
        if a >= s.len() {
            break;
        }
        let (title, url, b) = next_source_at(&s, a);
        let web = starts_with_chars(&url, &chars_of("https://")) || starts_with_chars(
            &url,
            &chars_of("http://"),
        );
        if web && !seen_url(&acc, &url) {
            let src = StreamSource { title: string_of(&title), url: string_of(&url) };
            let ghost before = source_views(acc@);
            acc.push(src);
            assert(source_views(acc@) =~= before.push((title@, url@)));
            if acc.len() >= 8 {
                break;
            }
        }
        p = b;
    }
    acc
}

} // verus!
