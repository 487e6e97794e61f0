//! Turning the upstream Responses event stream into typed events.
//!
//! Both consumers read the upstream through here: the `/v1/responses`
//! passthrough forwards each event's raw JSON, `/v1/chat/completions` reads
//! the classified kind. Both need the same bookkeeping: which tool call an
//! arguments delta belongs to, and failures that arrive as events.

use vstd::prelude::*;
use crate::json::{clone_json, jget, jstr, ju64, json_text, parse_json, json_parse, str_eq, to_json_text, Json, JsonV};
use crate::translate::{str_or, type_is};

verus! {

broadcast use vstd::string::group_string_axioms;

/// The token counts of one response.
#[derive(Debug, Clone, Copy, PartialEq, Eq, Structural)]
pub struct Usage {
    pub prompt_tokens: u64,
    pub completion_tokens: u64,
    pub total_tokens: u64,
    pub cached_tokens: u64,
    pub reasoning_tokens: u64,
}

impl Usage {
    pub fn zero() -> (r: Usage)
        ensures
            r == zero_usage(),
    {
        Usage { prompt_tokens: 0, completion_tokens: 0, total_tokens: 0, cached_tokens: 0, reasoning_tokens: 0 }
    }
}

pub open spec fn zero_usage() -> Usage {
    Usage { prompt_tokens: 0, completion_tokens: 0, total_tokens: 0, cached_tokens: 0, reasoning_tokens: 0 }
}

impl Default for Usage {
    fn default() -> (r: Usage)
        ensures
            r == zero_usage(),
    {
        Usage::zero()
    }
}

/// What one upstream event means to a consumer.
pub enum EventKind {
    /// The upstream response object was created; carries its id.
    Created { response_id: String },
    TextDelta(String),
    /// Reasoning summary text, surfaced as `delta.reasoning_content`.
    ReasoningDelta(String),
    ToolCallStart { index: usize, call_id: String, name: String },
    ToolCallArgsDelta { index: usize, delta: String },
    /// A finished output item, which non-streaming callers aggregate.
    ItemDone(Json),
    Completed { usage: Usage },
    /// A remote failure, reported in-band after the headers went out.
    Failed(String),
    /// Anything not interpreted; passthrough consumers still forward it.
    Other,
}

/// The value of an [`EventKind`].
pub enum EventV {
    Created(Seq<char>),
    TextDelta(Seq<char>),
    ReasoningDelta(Seq<char>),
    ToolCallStart(usize, Seq<char>, Seq<char>),
    ToolCallArgsDelta(usize, Seq<char>),
    ItemDone(JsonV),
    Completed(Usage),
    Failed(Seq<char>),
    Other,
}

impl View for EventKind {
    type V = EventV;

    open spec fn view(&self) -> EventV {
        match self {
            EventKind::Created { response_id } => EventV::Created(response_id@),
            EventKind::TextDelta(s) => EventV::TextDelta(s@),
            EventKind::ReasoningDelta(s) => EventV::ReasoningDelta(s@),
            EventKind::ToolCallStart { index, call_id, name } => EventV::ToolCallStart(*index, call_id@, name@),
            EventKind::ToolCallArgsDelta { index, delta } => EventV::ToolCallArgsDelta(*index, delta@),
            EventKind::ItemDone(j) => EventV::ItemDone(j@),
            EventKind::Completed { usage } => EventV::Completed(*usage),
            EventKind::Failed(s) => EventV::Failed(s@),
            EventKind::Other => EventV::Other,
        }
    }
}

/// One decoded upstream event: its JSON as received, and what it means.
pub struct ParsedEvent {
    pub raw: Json,
    pub kind: EventKind,
}

pub open spec fn jget_in(v: Option<JsonV>, key: Seq<char>) -> Option<JsonV> {
    match v {
        Some(x) => jget(x, key),
        None => None,
    }
}

pub open spec fn count_of(usage: Option<JsonV>, key: Seq<char>) -> u64 {
    match ju64(jget_in(usage, key)) {
        Some(n) => n,
        None => 0,
    }
}

pub open spec fn nested_count_of(usage: Option<JsonV>, outer: Seq<char>, key: Seq<char>) -> u64 {
    match ju64(jget_in(jget_in(usage, outer), key)) {
        Some(n) => n,
        None => 0,
    }
}

/// The usage of a `response` object. A missing or zero total is derived
/// from input and output, wrapping as the release build's `+` does.
pub open spec fn usage_of(response: JsonV) -> Usage {
    let usage = jget(response, "usage"@);
    let prompt = count_of(usage, "input_tokens"@);
    let completion = count_of(usage, "output_tokens"@);
    let total = count_of(usage, "total_tokens"@);
    Usage {
        prompt_tokens: prompt,
        completion_tokens: completion,
        total_tokens: if total == 0 {
            ((prompt + completion) % 0x1_0000_0000_0000_0000) as u64
        } else {
            total
        },
        cached_tokens: nested_count_of(usage, "input_tokens_details"@, "cached_tokens"@),
        reasoning_tokens: nested_count_of(usage, "output_tokens_details"@, "reasoning_tokens"@),
    }
}

fn count(usage: Option<&Json>, key: &str) -> (r: u64)
    ensures
        r == count_of(crate::json::opt_jv(usage), key@),
{
    match usage {
        Some(u) => match u.get(key) {
            Some(v) => match v.as_u64() {
                Some(n) => n,
                None => 0,
            },
            None => 0,
        },
        None => 0,
    }
}

fn nested_count(usage: Option<&Json>, outer: &str, key: &str) -> (r: u64)
    ensures
        r == nested_count_of(crate::json::opt_jv(usage), outer@, key@),
{
    match usage {
        Some(u) => count(u.get(outer), key),
        None => 0,
    }
}

/// Reads the token counts of a `response` object, nested details included.
pub fn parse_usage(response: &Json) -> (r: Usage)
    ensures
        r == usage_of(response@),
{
    let usage = response.get("usage");
    let prompt_tokens = count(usage, "input_tokens");
    let completion_tokens = count(usage, "output_tokens");
    let total = count(usage, "total_tokens");
    let total_tokens = if total == 0 {
        let t = prompt_tokens.wrapping_add(completion_tokens);
        assert(t == ((prompt_tokens + completion_tokens) % 0x1_0000_0000_0000_0000) as u64) by (bit_vector)
            requires
                t == prompt_tokens.wrapping_add(completion_tokens),
        {
        }
        t
    } else {
        total
    };
    Usage {
        prompt_tokens,
        completion_tokens,
        total_tokens,
        cached_tokens: nested_count(usage, "input_tokens_details", "cached_tokens"),
        reasoning_tokens: nested_count(usage, "output_tokens_details", "reasoning_tokens"),
    }
}

} // verus!

verus! {

/// Which output item id belongs to which tool call: arguments deltas are
/// keyed by the item id, Chat Completions needs the positional index handed
/// out when the item was added. A later entry for an id replaces an earlier
/// one, as a map insert does.
pub struct CallIndex {
    pub entries: Vec<(String, usize, String)>,
    /// The index the next tool call gets.
    pub next_index: usize,
}

pub open spec fn entries_v(e: Seq<(String, usize, String)>) -> Seq<(Seq<char>, usize, Seq<char>)> {
    e.map_values(|x: (String, usize, String)| (x.0@, x.1, x.2@))
}

/// The index and call id last recorded for an item id.
pub open spec fn lookup(entries: Seq<(Seq<char>, usize, Seq<char>)>, id: Seq<char>) -> Option<(usize, Seq<char>)>
    decreases entries.len(),
{
    if entries.len() == 0 {
        None
    } else if entries.last().0 == id {
        Some((entries.last().1, entries.last().2))
    } else {
        lookup(entries.drop_last(), id)
    }
}

impl CallIndex {
    pub fn new() -> (r: Self)
        ensures
            r.entries@.len() == 0,
            r.next_index == 0,
    {
        CallIndex { entries: Vec::new(), next_index: 0 }
    }

    pub fn get(&self, id: &str) -> (r: Option<usize>)
        ensures
            r == match lookup(entries_v(self.entries@), id@) {
                Some(x) => Some(x.0),
                None => None::<usize>,
            },
    {
        let mut i: usize = self.entries.len();
        let ghost ev = entries_v(self.entries@);
        assert(ev.take(i as int) =~= ev);
        while i > 0
            invariant
                i <= self.entries.len(),
                ev == entries_v(self.entries@),
                lookup(ev, id@) == lookup(ev.take(i as int), id@),
            decreases i,
        {
            let ghost t = ev.take(i as int);
            assert(t.last() == ev[i - 1]);
            if str_eq(self.entries[i - 1].0.as_str(), id) {
                return Some(self.entries[i - 1].1);
            }
            assert(t.drop_last() =~= ev.take(i - 1));
            i = i - 1;
        }
        None
    }
}

/// The error object of a failure event: `response.error`, else `error`,
/// else the whole event.
pub open spec fn failure_of(e: JsonV) -> JsonV {
    match jget_in(jget(e, "response"@), "error"@) {
        Some(x) => x,
        None => match jget(e, "error"@) {
            Some(x) => x,
            None => e,
        },
    }
}

/// The message a failure reports: the error's `message`, or the whole
/// error as JSON text when it has none.
pub open spec fn failure_message(e: JsonV) -> Seq<char> {
    let error = failure_of(e);
    match jstr(jget(error, "message"@)) {
        Some(m) => m,
        None => json_text(error),
    }
}

pub open spec fn delta_or_other(e: JsonV, make_text: bool) -> EventV {
    match jstr(jget(e, "delta"@)) {
        Some(d) => if make_text {
            EventV::TextDelta(d)
        } else {
            EventV::ReasoningDelta(d)
        },
        None => EventV::Other,
    }
}

/// What an event means, given the ids recorded so far and the next index:
/// `(kind, entries after, next index after)`.
pub open spec fn classified(e: JsonV, entries: Seq<(Seq<char>, usize, Seq<char>)>, next: usize) -> (
    EventV,
    Seq<(Seq<char>, usize, Seq<char>)>,
    usize,
) {
    let same = |k: EventV| (k, entries, next);
    match jstr(jget(e, "type"@)) {
        None => same(EventV::Other),
        Some(t) => if t == "response.created"@ {
            same(EventV::Created(str_or(jget_in(jget(e, "response"@), "id"@), Seq::empty())))
        } else if t == "response.output_text.delta"@ {
            same(delta_or_other(e, true))
        } else if t == "response.reasoning_summary_text.delta"@ || t == "response.reasoning_text.delta"@ {
            same(delta_or_other(e, false))
        } else if t == "response.output_item.added"@ {
            match jget(e, "item"@) {
                None => same(EventV::Other),
                Some(item) => if !type_is(item, "function_call"@) {
                    same(EventV::Other)
                } else {
                    let call_id = str_or(jget(item, "call_id"@), Seq::empty());
                    let name = str_or(jget(item, "name"@), Seq::empty());
                    let entries2 = match jstr(jget(item, "id"@)) {
                        Some(id) => entries.push((id, next, call_id)),
                        None => entries,
                    };
                    (EventV::ToolCallStart(next, call_id, name), entries2, next.wrapping_add(1))
                },
            }
        } else if t == "response.function_call_arguments.delta"@ {
            match jstr(jget(e, "delta"@)) {
                None => same(EventV::Other),
                Some(d) => match lookup(entries, str_or(jget(e, "item_id"@), Seq::empty())) {
                    Some(x) => same(EventV::ToolCallArgsDelta(x.0, d)),
                    None => same(EventV::Other),
                },
            }
        } else if t == "response.output_item.done"@ {
            match jget(e, "item"@) {
                Some(item) => same(EventV::ItemDone(item)),
                None => same(EventV::Other),
            }
        } else if t == "response.completed"@ {
            same(
                EventV::Completed(
                    match jget(e, "response"@) {
                        Some(r) => usage_of(r),
                        None => zero_usage(),
                    },
                ),
            )
        } else if t == "response.failed"@ || t == "error"@ {
            same(EventV::Failed(failure_message(e)))
        } else {
            same(EventV::Other)
        },
    }
}

fn str_or_empty(v: Option<&Json>) -> (r: String)
    ensures
        r@ == str_or(crate::json::opt_jv(v), Seq::empty()),
{
    match v {
        Some(x) => match x.as_str() {
            Some(s) => s.to_string(),
            None => String::new(),
        },
        None => String::new(),
    }
}

fn delta_kind(event: &Json, text: bool) -> (r: EventKind)
    ensures
        r@ == delta_or_other(event@, text),
{
    match event.get("delta") {
        Some(d) => match d.as_str() {
            Some(s) => if text {
                EventKind::TextDelta(s.to_string())
            } else {
                EventKind::ReasoningDelta(s.to_string())
            },
            None => EventKind::Other,
        },
        None => EventKind::Other,
    }
}

/// Classifies one decoded event, recording each announced tool call so
/// that its later arguments deltas land on the index it was given. A delta
/// for an item never announced is `Other`, not attributed to some call.
pub fn classify(event: &Json, ids: &mut CallIndex) -> (r: EventKind)
    ensures
        ({
            let c = classified(event@, entries_v(old(ids).entries@), old(ids).next_index);
            &&& r@ == c.0
            &&& entries_v(final(ids).entries@) == c.1
            &&& final(ids).next_index == c.2
        }),
{
    let kind = match event.get("type") {
        Some(k) => match k.as_str() {
            Some(s) => s,
            None => return EventKind::Other,
        },
        None => return EventKind::Other,
    };
    if str_eq(kind, "response.created") {
        let r = match event.get("response") {
            Some(resp) => resp.get("id"),
            None => None,
        };
        EventKind::Created { response_id: str_or_empty(r) }
    } else if str_eq(kind, "response.output_text.delta") {
        delta_kind(event, true)
    } else if str_eq(kind, "response.reasoning_summary_text.delta") || str_eq(kind, "response.reasoning_text.delta") {
        delta_kind(event, false)
    } else if str_eq(kind, "response.output_item.added") {
        let item = match event.get("item") {
            Some(i) => i,
            None => return EventKind::Other,
        };
        let is_call = match item.get("type") {
            Some(t) => match t.as_str() {
                Some(s) => str_eq(s, "function_call"),
                None => false,
            },
            None => false,
        };
        if !is_call {
            return EventKind::Other;
        }
        let call_id = str_or_empty(item.get("call_id"));
        let name = str_or_empty(item.get("name"));
        let index = ids.next_index;
        ids.next_index = ids.next_index.wrapping_add(1);
        match item.get("id") {
            Some(idv) => match idv.as_str() {
                Some(id) => {
                    let entry = (id.to_string(), index, call_id.clone());
                    proof {
                        assert(entries_v(ids.entries@.push(entry)) =~= entries_v(ids.entries@).push(
                            (id@, index, call_id@),
                        ));
                    }
                    ids.entries.push(entry);
                },
                None => {},
            },
            None => {},
        }
        EventKind::ToolCallStart { index, call_id, name }
    } else if str_eq(kind, "response.function_call_arguments.delta") {
        let delta = match event.get("delta") {
            Some(d) => match d.as_str() {
                Some(s) => s,
                None => return EventKind::Other,
            },
            None => return EventKind::Other,
        };
        let item_id = str_or_empty(event.get("item_id"));
        match ids.get(item_id.as_str()) {
            Some(index) => EventKind::ToolCallArgsDelta { index, delta: delta.to_string() },
            None => EventKind::Other,
        }
    } else if str_eq(kind, "response.output_item.done") {
        match event.get("item") {
            Some(item) => EventKind::ItemDone(clone_json(item)),
            None => EventKind::Other,
        }
    } else if str_eq(kind, "response.completed") {
        EventKind::Completed {
            usage: match event.get("response") {
                Some(r) => parse_usage(r),
                None => Usage::zero(),
            },
        }
    } else if str_eq(kind, "response.failed") || str_eq(kind, "error") {
        let from_response = match event.get("response") {
            Some(r) => r.get("error"),
            None => None,
        };
        let error = match from_response {
            Some(x) => x,
            None => match event.get("error") {
                Some(x) => x,
                None => event,
            },
        };
        let message = match error.get("message") {
            Some(m) => match m.as_str() {
                Some(s) => s.to_string(),
                None => to_json_text(error),
            },
            None => to_json_text(error),
        };
        EventKind::Failed(message)
    } else {
        EventKind::Other
    }
}

} // verus!

verus! {

/// The events a run of `data:` payloads decodes to, in order, and the
/// call-id bookkeeping after them. `[DONE]` and payloads that are not JSON
/// yield nothing.
pub open spec fn events_of(
    payloads: Seq<Seq<char>>,
    entries: Seq<(Seq<char>, usize, Seq<char>)>,
    next: usize,
) -> (Seq<(JsonV, EventV)>, Seq<(Seq<char>, usize, Seq<char>)>, usize)
    decreases payloads.len(),
{
    if payloads.len() == 0 {
        (Seq::empty(), entries, next)
    } else {
        let before = events_of(payloads.drop_last(), entries, next);
        let p = payloads.last();
        if crate::text::spec_trim(p) == "[DONE]"@ {
            before
        } else {
            match json_parse(p) {
                Err(_) => before,
                Ok(v) => {
                    let c = classified(v, before.1, before.2);
                    (before.0.push((v, c.0)), c.1, c.2)
                },
            }
        }
    }
}

pub open spec fn parsed_v(e: ParsedEvent) -> (JsonV, EventV) {
    (e.raw@, e.kind@)
}

/// The whole decoding state of one upstream body: the unfinished line and
/// the tool-call bookkeeping.
pub struct EventDecoder {
    pub lines: crate::sse::SseLineBuffer,
    pub ids: CallIndex,
}

impl EventDecoder {
    pub fn new() -> (r: Self)
        ensures
            r.lines@.len() == 0,
            r.ids.entries@.len() == 0,
            r.ids.next_index == 0,
    {
        EventDecoder { lines: crate::sse::SseLineBuffer::new(), ids: CallIndex::new() }
    }

    /// Decodes one chunk of the upstream body: every `data:` payload it
    /// completes, except `[DONE]` and anything that is not JSON, becomes an
    /// event with its raw JSON and its classification.
    pub fn feed(&mut self, chunk: &[u8]) -> (r: Vec<ParsedEvent>)
        ensures
            ({
                let lines = crate::sse::lines_of(old(self).lines@ + chunk@);
                let e = events_of(crate::sse::payloads(lines), entries_v(old(self).ids.entries@), old(self).ids.next_index);
                &&& r@.map_values(|x: ParsedEvent| parsed_v(x)) == e.0
                &&& entries_v(final(self).ids.entries@) == e.1
                &&& final(self).ids.next_index == e.2
                &&& final(self).lines@ == crate::sse::rest_of(old(self).lines@ + chunk@)
            }),
    {
        let ghost start_entries = entries_v(self.ids.entries@);
        let ghost start_next = self.ids.next_index;
        let payloads = self.lines.push(chunk);
        let ghost ps = crate::sse::payloads(crate::sse::lines_of(old(self).lines@ + chunk@));
        let mut out: Vec<ParsedEvent> = Vec::new();
        let mut i: usize = 0;
        assert(ps.take(0) =~= Seq::<Seq<char>>::empty());
        while i < payloads.len()
            invariant
                i <= payloads.len(),
                crate::sse::string_views(payloads@) == ps,
                ps.len() == payloads@.len(),
                self.lines@ == crate::sse::rest_of(old(self).lines@ + chunk@),
                start_entries == entries_v(old(self).ids.entries@),
                start_next == old(self).ids.next_index,
                ({
                    let e = events_of(ps.take(i as int), start_entries, start_next);
                    &&& out@.map_values(|x: ParsedEvent| parsed_v(x)) == e.0
                    &&& entries_v(self.ids.entries@) == e.1
                    &&& self.ids.next_index == e.2
                }),
            decreases payloads.len() - i,
        {
            let p = payloads[i].as_str();
            assert(ps[i as int] == p@);
            assert(ps.take(i + 1).drop_last() =~= ps.take(i as int));
            assert(ps.take(i + 1).last() == p@);
            let trimmed = crate::text::trim(p);
            if !str_eq(trimmed, "[DONE]") {
                match parse_json(p) {
                    Ok(value) => {
                        let kind = classify(&value, &mut self.ids);
                        let ev = ParsedEvent { raw: value, kind };
                        proof {
                            assert(out@.push(ev).map_values(|x: ParsedEvent| parsed_v(x)) =~= out@.map_values(
                                |x: ParsedEvent| parsed_v(x),
                            ).push(parsed_v(ev)));
                        }
                        out.push(ev);
                    },
                    Err(_) => {},
                }
            }
            i = i + 1;
        }
        assert(ps.take(ps.len() as int) =~= ps);
        out
    }
}

} // verus!

verus! {


/// The event names the classification tells apart are pairwise different.
proof fn lemma_event_names_differ()
    ensures
        "response.output_item.added"@ != "response.created"@,
        "response.output_item.added"@ != "response.output_text.delta"@,
        "response.output_item.added"@ != "response.reasoning_summary_text.delta"@,
        "response.output_item.added"@ != "response.reasoning_text.delta"@,
        "response.function_call_arguments.delta"@ != "response.created"@,
        "response.function_call_arguments.delta"@ != "response.output_text.delta"@,
        "response.function_call_arguments.delta"@ != "response.reasoning_summary_text.delta"@,
        "response.function_call_arguments.delta"@ != "response.reasoning_text.delta"@,
        "response.function_call_arguments.delta"@ != "response.output_item.added"@,
{
    reveal_strlit("response.created");
    reveal_strlit("response.output_text.delta");
    reveal_strlit("response.reasoning_summary_text.delta");
    reveal_strlit("response.reasoning_text.delta");
    reveal_strlit("response.output_item.added");
    reveal_strlit("response.function_call_arguments.delta");
    assert("response.output_item.added"@.len() == 26);
    assert("response.created"@.len() == 16);
    assert("response.output_text.delta"@.len() == 26);
    assert("response.output_item.added"@[16] != "response.output_text.delta"@[16]);
    assert("response.function_call_arguments.delta"@.len() == 38);
    assert("response.reasoning_summary_text.delta"@.len() == 37);
    assert("response.reasoning_text.delta"@.len() == 29);
}

/// An arguments delta lands on the index its tool call was given when the
/// call was announced, whatever was announced before it.
pub proof fn law_delta_lands_on_announced_index(
    added: JsonV,
    delta: JsonV,
    entries: Seq<(Seq<char>, usize, Seq<char>)>,
    next: usize,
    id: Seq<char>,
    d: Seq<char>,
)
    requires
        jstr(jget(added, "type"@)) == Some("response.output_item.added"@),
        jget(added, "item"@) is Some,
        type_is(jget(added, "item"@)->0, "function_call"@),
        jstr(jget(jget(added, "item"@)->0, "id"@)) == Some(id),
        jstr(jget(delta, "type"@)) == Some("response.function_call_arguments.delta"@),
        jstr(jget(delta, "item_id"@)) == Some(id),
        jstr(jget(delta, "delta"@)) == Some(d),
    ensures
        ({
            let first = classified(added, entries, next);
            let second = classified(delta, first.1, first.2);
            &&& first.0 is ToolCallStart && first.0->ToolCallStart_0 == next
            &&& second.0 == EventV::ToolCallArgsDelta(next, d)
        }),
{
    lemma_event_names_differ();
    let first = classified(added, entries, next);
    let item = jget(added, "item"@)->0;
    let call_id = str_or(jget(item, "call_id"@), Seq::empty());
    assert(first.1 == entries.push((id, next, call_id)));
    assert(str_or(jget(delta, "item_id"@), Seq::empty()) == id);
    assert(lookup(first.1, id) == Some((next, call_id)));
}

/// A delta for an item that was never announced is not attributed to any
/// tool call.
pub proof fn law_orphan_delta_is_ignored(
    delta: JsonV,
    entries: Seq<(Seq<char>, usize, Seq<char>)>,
    next: usize,
)
    requires
        jstr(jget(delta, "type"@)) == Some("response.function_call_arguments.delta"@),
        lookup(entries, str_or(jget(delta, "item_id"@), Seq::empty())) is None,
    ensures
        classified(delta, entries, next).0 == EventV::Other,
        classified(delta, entries, next).1 == entries,
        classified(delta, entries, next).2 == next,
{
    lemma_event_names_differ();
}


proof fn lemma_events_concat(
    p1: Seq<Seq<char>>,
    p2: Seq<Seq<char>>,
    entries: Seq<(Seq<char>, usize, Seq<char>)>,
    next: usize,
)
    ensures
        ({
            let e1 = events_of(p1, entries, next);
            let e2 = events_of(p2, e1.1, e1.2);
            let whole = events_of(p1 + p2, entries, next);
            &&& whole.0 == e1.0 + e2.0
            &&& whole.1 == e2.1
            &&& whole.2 == e2.2
        }),
    decreases p2.len(),
{
    if p2.len() == 0 {
        assert(p1 + p2 =~= p1);
        let e1 = events_of(p1, entries, next);
        assert(e1.0 + Seq::<(JsonV, EventV)>::empty() =~= e1.0);
    } else {
        lemma_events_concat(p1, p2.drop_last(), entries, next);
        assert((p1 + p2).drop_last() =~= p1 + p2.drop_last());
        assert((p1 + p2).last() == p2.last());
        let e1 = events_of(p1, entries, next);
        let mid = events_of(p2.drop_last(), e1.1, e1.2);
        let p = p2.last();
        if !(crate::text::spec_trim(p) == "[DONE]"@) {
            match json_parse(p) {
                Ok(v) => {
                    let c = classified(v, mid.1, mid.2);
                    assert((e1.0 + mid.0).push((v, c.0)) =~= e1.0 + mid.0.push((v, c.0)));
                },
                Err(_) => {},
            }
        }
    }
}

/// Where the upstream body is cut into chunks makes no difference to the
/// events: feeding two chunks one after the other gives the same events,
/// in the same order, and leaves the same tool-call bookkeeping, as
/// feeding them as one chunk.
pub proof fn law_event_decoding_ignores_chunk_boundaries(
    buffered: Seq<u8>,
    first: Seq<u8>,
    second: Seq<u8>,
    entries: Seq<(Seq<char>, usize, Seq<char>)>,
    next: usize,
)
    ensures
        ({
            let e1 = events_of(crate::sse::payloads(crate::sse::lines_of(buffered + first)), entries, next);
            let e2 = events_of(
                crate::sse::payloads(crate::sse::lines_of(crate::sse::rest_of(buffered + first) + second)),
                e1.1,
                e1.2,
            );
            let whole = events_of(crate::sse::payloads(crate::sse::lines_of(buffered + first + second)), entries, next);
            &&& e1.0 + e2.0 == whole.0
            &&& e2.1 == whole.1
            &&& e2.2 == whole.2
        }),
{
    crate::sse::law_chunk_boundaries_are_invisible(buffered, first, second);
    lemma_events_concat(
        crate::sse::payloads(crate::sse::lines_of(buffered + first)),
        crate::sse::payloads(crate::sse::lines_of(crate::sse::rest_of(buffered + first) + second)),
        entries,
        next,
    );
}

/// A finished output item is handed on as the item itself: an event of type
/// `response.output_item.done` carrying `item` classifies as `ItemDone` of
/// that item, and leaves the tool-call bookkeeping as it was.
pub proof fn law_a_done_item_is_its_item(
    e: JsonV,
    item: JsonV,
    entries: Seq<(Seq<char>, usize, Seq<char>)>,
    next: usize,
)
    requires
        jget(e, "type"@) == Some(JsonV::Str("response.output_item.done"@)),
        jget(e, "item"@) == Some(item),
    ensures
        classified(e, entries, next) == (EventV::ItemDone(item), entries, next),
{
    reveal_strlit("response.output_item.done");
    reveal_strlit("response.created");
    reveal_strlit("response.output_text.delta");
    reveal_strlit("response.reasoning_summary_text.delta");
    reveal_strlit("response.reasoning_text.delta");
    reveal_strlit("response.output_item.added");
    reveal_strlit("response.function_call_arguments.delta");
    assert("response.output_item.done"@.len() == 25);
    assert("response.created"@.len() == 16);
    assert("response.output_text.delta"@.len() == 26);
    assert("response.reasoning_summary_text.delta"@.len() == 37);
    assert("response.reasoning_text.delta"@.len() == 29);
    assert("response.output_item.added"@.len() == 26);
    assert("response.function_call_arguments.delta"@.len() == 38);
}

} // verus!
