//! Token and tool-call accounting from a buffered upstream response.
//!
//! The counters are display counters that wrap like the atomics behind them,
//! so amounts are summed with wrapping addition.

use crate::json::{decode_json, items_view, lemma_items_view, json_decoded, opt_array, opt_get, opt_str, opt_u64, Json, JsonV};
use crate::json::{get_in, str_member_is, u64_in, array_in};
use crate::sse::{events_view, sse_events, sse_events_spec, utf8_text, EventKind, SseEvent, SseEventV};
use crate::stats::ProxyStats;
use vstd::prelude::*;

verus! {

broadcast use vstd::std_specs::vec::group_vec_axioms, vstd::seq::group_seq_axioms;

/// What one response adds to the counters.
#[derive(Debug, Clone, Copy, PartialEq, Eq, Structural)]
pub struct UsageTally {
    /// Prompt tokens, taken once.
    pub input_tokens: Option<u64>,
    /// Completion tokens.
    pub output_tokens: u64,
    /// Number of tool calls.
    pub tool_calls: u64,
}

pub open spec fn empty_tally() -> UsageTally {
    UsageTally { input_tokens: None, output_tokens: 0, tool_calls: 0 }
}

/// `input_tokens` of an event, where that event kind carries it.
pub open spec fn event_input_tokens(e: SseEventV) -> Option<u64> {
    match e.kind {
        EventKind::MessageStart => opt_u64(
            opt_get(opt_get(opt_get(Some(e.data), "message"@), "usage"@), "input_tokens"@),
        ),
        EventKind::MessageDelta => opt_u64(opt_get(opt_get(Some(e.data), "usage"@), "input_tokens"@)),
        _ => None,
    }
}

pub open spec fn tally_step(t: UsageTally, e: SseEventV) -> UsageTally {
    let input = match t.input_tokens {
        Some(x) => Some(x),
        None => event_input_tokens(e),
    };
    match e.kind {
        EventKind::MessageDelta => {
            let usage = opt_get(Some(e.data), "usage"@);
            let out = match opt_u64(opt_get(usage, "output_tokens"@)) {
                Some(o) => t.output_tokens.wrapping_add(o),
                None => t.output_tokens,
            };
            UsageTally { input_tokens: input, output_tokens: out, tool_calls: t.tool_calls }
        },
        EventKind::ContentBlockStart => {
            let ty = opt_str(opt_get(opt_get(Some(e.data), "content_block"@), "type"@));
            let tools = if ty == Some("tool_use"@) {
                t.tool_calls.wrapping_add(1)
            } else {
                t.tool_calls
            };
            UsageTally { input_tokens: input, output_tokens: t.output_tokens, tool_calls: tools }
        },
        _ => UsageTally { input_tokens: input, ..t },
    }
}

/// The tally of a sequence of SSE events, folded left to right.
pub open spec fn stream_tally(evs: Seq<SseEventV>) -> UsageTally
    decreases evs.len(),
{
    if evs.len() == 0 {
        empty_tally()
    } else {
        tally_step(stream_tally(evs.drop_last()), evs.last())
    }
}

/// `input_tokens` of the first event that carries it.
pub open spec fn first_input_tokens(evs: Seq<SseEventV>) -> Option<u64>
    decreases evs.len(),
{
    if evs.len() == 0 {
        None
    } else {
        match event_input_tokens(evs[0]) {
            Some(x) => Some(x),
            None => first_input_tokens(evs.drop_first()),
        }
    }
}

/// Number of `tool_use` blocks in a content array.
pub open spec fn count_tool_use(blocks: Seq<JsonV>) -> u64
    decreases blocks.len(),
{
    if blocks.len() == 0 {
        0
    } else {
        let prev = count_tool_use(blocks.drop_last());
        if blocks.last().get("type"@) == Some(JsonV::Str("tool_use"@)) {
            prev.wrapping_add(1)
        } else {
            prev
        }
    }
}

/// The tally of a single JSON response body.
pub open spec fn json_tally(d: JsonV) -> UsageTally {
    let usage = d.get("usage"@);
    UsageTally {
        input_tokens: opt_u64(opt_get(usage, "input_tokens"@)),
        output_tokens: match opt_u64(opt_get(usage, "output_tokens"@)) {
            Some(o) => o,
            None => 0,
        },
        tool_calls: match opt_array(d.get("content"@)) {
            Some(a) => count_tool_use(a),
            None => 0,
        },
    }
}

/// The tally of a buffered response body.
pub open spec fn response_tally(b: Seq<u8>, is_streaming: bool) -> UsageTally {
    if is_streaming {
        if vstd::utf8::valid_utf8(b) {
            stream_tally(sse_events_spec(b))
        } else {
            empty_tally()
        }
    } else {
        match json_decoded(b) {
            Some(d) => json_tally(d),
            None => empty_tally(),
        }
    }
}

fn event_input_tokens_exec(e: &SseEvent) -> (r: Option<u64>)
    ensures
        r == event_input_tokens(e@),
{
    match e.kind {
        EventKind::MessageStart => u64_in(
            get_in(get_in(get_in(Some(&e.data), "message"), "usage"), "input_tokens"),
        ),
        EventKind::MessageDelta => u64_in(get_in(get_in(Some(&e.data), "usage"), "input_tokens")),
        _ => None,
    }
}

fn tally_step_exec(t: UsageTally, e: &SseEvent) -> (r: UsageTally)
    ensures
        r == tally_step(t, e@),
{
    let input = match t.input_tokens {
        Some(x) => Some(x),
        None => event_input_tokens_exec(e),
    };
    match e.kind {
        EventKind::MessageDelta => {
            let usage = get_in(Some(&e.data), "usage");
            let out = match u64_in(get_in(usage, "output_tokens")) {
                Some(o) => t.output_tokens.wrapping_add(o),
                None => t.output_tokens,
            };
            UsageTally { input_tokens: input, output_tokens: out, tool_calls: t.tool_calls }
        },
        EventKind::ContentBlockStart => {
            let tools = if str_member_is(get_in(Some(&e.data), "content_block"), "type", "tool_use") {
                t.tool_calls.wrapping_add(1)
            } else {
                t.tool_calls
            };
            UsageTally { input_tokens: input, output_tokens: t.output_tokens, tool_calls: tools }
        },
        _ => UsageTally { input_tokens: input, output_tokens: t.output_tokens, tool_calls: t.tool_calls },
    }
}

/// The tally of a sequence of SSE events.
pub fn stream_tally_of(evs: &Vec<SseEvent>) -> (r: UsageTally)
    ensures
        r == stream_tally(events_view(evs@)),
{
    let ghost ev = events_view(evs@);
    let mut t = UsageTally { input_tokens: None, output_tokens: 0, tool_calls: 0 };
    let mut i: usize = 0;
    while i < evs.len()
        invariant
            0 <= i <= evs.len(),
            ev == events_view(evs@),
            t == stream_tally(ev.take(i as int)),
        decreases evs.len() - i,
    {
        assert(ev.take(i + 1).drop_last() =~= ev.take(i as int));
        assert(ev.take(i + 1).last() == evs@[i as int]@);
        t = tally_step_exec(t, &evs[i]);
        i = i + 1;
    }
    assert(ev.take(evs@.len() as int) =~= ev);
    t
}

fn count_tool_use_exec(a: &Vec<Json>) -> (r: u64)
    ensures
        r == count_tool_use(items_view(a@)),
{
    proof {
        lemma_items_view(a@);
    }
    let ghost av = items_view(a@);
    let mut n: u64 = 0;
    let mut i: usize = 0;
    while i < a.len()
        invariant
            0 <= i <= a.len(),
            av == items_view(a@),
            av.len() == a@.len(),
            forall|k: int| 0 <= k < a@.len() ==> #[trigger] av[k] == a@[k]@,
            n == count_tool_use(av.take(i as int)),
        decreases a.len() - i,
    {
        assert(av.take(i + 1).drop_last() =~= av.take(i as int));
        assert(av.take(i + 1).last() == a@[i as int]@);
        if str_member_is(Some(&a[i]), "type", "tool_use") {
            n = n.wrapping_add(1);
        }
        i = i + 1;
    }
    assert(av.take(a@.len() as int) =~= av);
    n
}

/// The tally of a single JSON response document.
pub fn json_tally_of(d: &Json) -> (r: UsageTally)
    ensures
        r == json_tally(d@),
{
    let usage = d.get("usage");
    let input_tokens = u64_in(get_in(usage, "input_tokens"));
    let output_tokens = match u64_in(get_in(usage, "output_tokens")) {
        Some(o) => o,
        None => 0,
    };
    let tool_calls = match array_in(d.get("content")) {
        Some(a) => count_tool_use_exec(a),
        None => 0,
    };
    UsageTally { input_tokens, output_tokens, tool_calls }
}

/// The tally of a buffered response body: a JSON document, or an SSE
/// stream when the request asked for streaming. A body that cannot be read
/// adds nothing.
pub fn extract_usage(response_bytes: &[u8], is_streaming: bool) -> (r: UsageTally)
    ensures
        r == response_tally(response_bytes@, is_streaming),
{
    if is_streaming {
        match utf8_text(response_bytes) {
            Some(_) => {
                let evs = sse_events(response_bytes);
                stream_tally_of(&evs)
            },
            None => UsageTally { input_tokens: None, output_tokens: 0, tool_calls: 0 },
        }
    } else {
        match decode_json(response_bytes) {
            Some(d) => json_tally_of(&d),
            None => UsageTally { input_tokens: None, output_tokens: 0, tool_calls: 0 },
        }
    }
}

/// Adds a tally to the shared counters.
pub fn record_usage(stats: &ProxyStats, t: UsageTally) {
    if let Some(n) = t.input_tokens {
        stats.add_input_tokens(n);
    }
    if t.output_tokens > 0 {
        stats.add_output_tokens(t.output_tokens);
    }
    if t.tool_calls > 0 {
        stats.add_tool_calls(t.tool_calls);
    }
}

/// Extracts token usage and tool calls from a buffered response and adds
/// them to the counters.
pub fn extract_and_record_stats(stats: &ProxyStats, response_bytes: &[u8], is_streaming: bool) {
    let t = extract_usage(response_bytes, is_streaming);
    record_usage(stats, t);
}

proof fn lemma_first_input_snoc(evs: Seq<SseEventV>)
    requires
        evs.len() > 0,
    ensures
        first_input_tokens(evs) == match first_input_tokens(evs.drop_last()) {
            Some(x) => Some(x),
            None => event_input_tokens(evs.last()),
        },
    decreases evs.len(),
{
    let a = evs.drop_last();
    let t = evs.drop_first();
    if evs.len() > 1 {
        lemma_first_input_snoc(t);
        assert(t.drop_last() =~= a.drop_first());
        assert(a[0] == evs[0]);
        assert(t.last() == evs.last());
        assert(first_input_tokens(a) == match event_input_tokens(a[0]) {
            Some(x) => Some(x),
            None => first_input_tokens(a.drop_first()),
        });
    } else {
        assert(a.len() == 0);
        assert(t.len() == 0);
        assert(first_input_tokens(a) is None);
        assert(first_input_tokens(t) is None);
        assert(evs.last() == evs[0]);
    }
}

/// A streamed response attributes at most one `input_tokens` value: the one
/// of the first event that delivers it, whether that is `message_start` or
/// `message_delta`, however many events carry it.
pub proof fn lemma_input_tokens_counted_once(evs: Seq<SseEventV>)
    ensures
        stream_tally(evs).input_tokens == first_input_tokens(evs),
    decreases evs.len(),
{
    if evs.len() > 0 {
        lemma_input_tokens_counted_once(evs.drop_last());
        lemma_first_input_snoc(evs);
    }
}

/// Total UTF-8 length of the string `content` members of `ms`, saturating.
pub open spec fn content_bytes(ms: Seq<JsonV>) -> nat
    decreases ms.len(),
{
    if ms.len() == 0 {
        0
    } else {
        content_bytes(ms.drop_last()) + match opt_str(ms.last().get("content"@)) {
            Some(c) => vstd::utf8::encode_utf8(c).len(),
            None => 0,
        }
    }
}

/// Rough prompt size for clients that ask for a token count the upstream
/// cannot give: a quarter of the bytes of the string message contents, or
/// 25 where the body has no message list.
pub open spec fn estimated_input_tokens(b: Seq<u8>) -> nat {
    let total = match json_decoded(b) {
        Some(d) => match opt_array(d.get("messages"@)) {
            Some(ms) => if content_bytes(ms) <= usize::MAX {
                content_bytes(ms)
            } else {
                usize::MAX as nat
            },
            None => 100,
        },
        None => 100,
    };
    total / 4
}

/// The token estimate of a request body.
pub fn estimate_input_tokens(body: &[u8]) -> (r: usize)
    ensures
        r == estimated_input_tokens(body@),
{
    let total: usize = match decode_json(body) {
        Some(d) => match array_in(d.get("messages")) {
            Some(ms) => {
                proof {
                    lemma_items_view(ms@);
                }
                let ghost mv = items_view(ms@);
                let mut sum: usize = 0;
                let mut i: usize = 0;
                while i < ms.len()
                    invariant
                        0 <= i <= ms.len(),
                        mv == items_view(ms@),
                        mv.len() == ms@.len(),
                        forall|k: int| 0 <= k < ms@.len() ==> #[trigger] mv[k] == ms@[k]@,
                        sum == if content_bytes(mv.take(i as int)) <= usize::MAX {
                            content_bytes(mv.take(i as int))
                        } else {
                            usize::MAX as nat
                        },
                    decreases ms.len() - i,
                {
                    assert(mv.take(i + 1).drop_last() =~= mv.take(i as int));
                    assert(mv.take(i + 1).last() == ms@[i as int]@);
                    let ghost prev = content_bytes(mv.take(i as int));
                    let ghost add = match opt_str(mv[i as int].get("content"@)) {
                        Some(c) => vstd::utf8::encode_utf8(c).len(),
                        None => 0,
                    };
                    assert(content_bytes(mv.take(i + 1)) == prev + add);
                    if let Some(c) = crate::json::str_in(ms[i].get("content")) {
                        let n = c.as_str().as_bytes().len();
                        assert(n == add);
                        if sum > usize::MAX - n {
                            sum = usize::MAX;
                        } else {
                            sum = sum + n;
                        }
                    }
                    i = i + 1;
                }
                assert(mv.take(ms@.len() as int) =~= mv);
                sum
            },
            None => 100,
        },
        None => 100,
    };
    total / 4
}

} // verus!
