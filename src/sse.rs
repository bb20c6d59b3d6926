//! Server-Sent-Events framing of a buffered response body.
//!
//! The body is split on blank lines (`"\n\n"`); each piece is split into
//! lines, and the last `event: ` and `data: ` lines of a piece give its type
//! and payload, trimmed of ASCII whitespace. A piece without a `data: ` line,
//! or whose payload is not one JSON text, is skipped.

use crate::json::{decode_json, json_decoded, Json, JsonV};
use vstd::prelude::*;
use vstd::slice::slice_subrange;
use vstd::string::StringSliceAdditionalSpecFns;

verus! {

broadcast use vstd::std_specs::vec::group_vec_axioms, vstd::seq::group_seq_axioms;

/// Relies on std::str::from_utf8: succeeds exactly on well-formed UTF-8,
/// and the text then holds the characters those bytes encode.
#[verifier::external_body]
pub(crate) fn utf8_text(b: &[u8]) -> (r: Option<String>)
    ensures
        r is Some <==> vstd::utf8::valid_utf8(b@),
        r matches Some(s) ==> s@ == vstd::utf8::decode_utf8(b@),
{
    std::str::from_utf8(b).ok().map(|s| s.to_string())
}

/// `pat` occurs in `s` at `i`.
pub closed spec fn match_at(s: Seq<u8>, pat: Seq<u8>, i: int) -> bool {
    0 <= i && i + pat.len() <= s.len() && s.subrange(i, i + pat.len()) == pat
}

/// First index at or after `i` where `pat` occurs, or `s.len()`.
pub open spec fn next_match(s: Seq<u8>, pat: Seq<u8>, i: int) -> int
    decreases s.len() + 1 - i,
{
    if i < 0 || i + pat.len() > s.len() {
        s.len() as int
    } else if match_at(s, pat, i) {
        i
    } else {
        next_match(s, pat, i + 1)
    }
}

/// The pieces of `s[i..]` between non-overlapping occurrences of `pat`,
/// left to right, as `str::split` gives them.
pub open spec fn split_from(s: Seq<u8>, pat: Seq<u8>, i: int) -> Seq<Seq<u8>>
    decreases s.len() + 1 - i,
{
    if pat.len() == 0 || i < 0 || i > s.len() {
        Seq::empty()
    } else {
        let m = next_match(s, pat, i);
        if m >= s.len() || m < i || m + pat.len() > s.len() {
            seq![s.subrange(i, s.len() as int)]
        } else {
            seq![s.subrange(i, m)] + split_from(s, pat, m + pat.len())
        }
    }
}

pub open spec fn is_ascii_ws(b: u8) -> bool {
    b == 0x20 || b == 0x09 || b == 0x0a || b == 0x0b || b == 0x0c || b == 0x0d
}

pub open spec fn trim_front(x: Seq<u8>) -> Seq<u8>
    decreases x.len(),
{
    if x.len() > 0 && is_ascii_ws(x[0]) {
        trim_front(x.drop_first())
    } else {
        x
    }
}

pub open spec fn trim_back(x: Seq<u8>) -> Seq<u8>
    decreases x.len(),
{
    if x.len() > 0 && is_ascii_ws(x.last()) {
        trim_back(x.drop_last())
    } else {
        x
    }
}

pub open spec fn trim(x: Seq<u8>) -> Seq<u8> {
    trim_back(trim_front(x))
}

pub open spec fn starts_with(x: Seq<u8>, p: Seq<u8>) -> bool {
    p.len() <= x.len() && x.take(p.len() as int) == p
}

/// The last `event: ` value and the last `data: ` value among `lines`.
pub open spec fn fields_of(
    lines: Seq<Seq<u8>>,
    event_prefix: Seq<u8>,
    data_prefix: Seq<u8>,
) -> (Option<Seq<u8>>, Option<Seq<u8>>)
    decreases lines.len(),
{
    if lines.len() == 0 {
        (None, None)
    } else {
        let prev = fields_of(lines.drop_last(), event_prefix, data_prefix);
        let l = lines.last();
        if starts_with(l, event_prefix) {
            (Some(trim(l.skip(event_prefix.len() as int))), prev.1)
        } else if starts_with(l, data_prefix) {
            (prev.0, Some(trim(l.skip(data_prefix.len() as int))))
        } else {
            prev
        }
    }
}

/// The recognised event types.
#[derive(Debug, Clone, Copy, PartialEq, Eq, Structural)]
pub enum EventKind {
    MessageStart,
    ContentBlockStart,
    ContentBlockDelta,
    MessageDelta,
    Other,
}

pub open spec fn classify(et: Option<Seq<u8>>) -> EventKind {
    match et {
        Some(t) => if t == "message_start".spec_bytes() {
            EventKind::MessageStart
        } else if t == "content_block_start".spec_bytes() {
            EventKind::ContentBlockStart
        } else if t == "content_block_delta".spec_bytes() {
            EventKind::ContentBlockDelta
        } else if t == "message_delta".spec_bytes() {
            EventKind::MessageDelta
        } else {
            EventKind::Other
        },
        None => EventKind::Other,
    }
}

/// One event with a JSON payload.
pub struct SseEvent {
    pub kind: EventKind,
    pub data: Json,
}

pub struct SseEventV {
    pub kind: EventKind,
    pub data: JsonV,
}

impl View for SseEvent {
    type V = SseEventV;

    open spec fn view(&self) -> SseEventV {
        SseEventV { kind: self.kind, data: self.data@ }
    }
}

/// The event a piece of the body stands for, if any.
pub open spec fn event_of(c: Seq<u8>) -> Option<SseEventV> {
    let f = fields_of(split_from(c, seq![0x0au8], 0), "event: ".spec_bytes(), "data: ".spec_bytes());
    match f.1 {
        Some(d) => match json_decoded(d) {
            Some(v) => Some(SseEventV { kind: classify(f.0), data: v }),
            None => None,
        },
        None => None,
    }
}

pub open spec fn events_of(chunks: Seq<Seq<u8>>) -> Seq<SseEventV>
    decreases chunks.len(),
{
    if chunks.len() == 0 {
        Seq::empty()
    } else {
        let prev = events_of(chunks.drop_last());
        match event_of(chunks.last()) {
            Some(e) => prev.push(e),
            None => prev,
        }
    }
}

/// The events of an SSE body, in order.
pub open spec fn sse_events_spec(b: Seq<u8>) -> Seq<SseEventV> {
    events_of(split_from(b, seq![0x0au8, 0x0au8], 0))
}

pub open spec fn events_view(v: Seq<SseEvent>) -> Seq<SseEventV> {
    v.map_values(|e: SseEvent| e@)
}

fn matches_at(s: &[u8], pat: &[u8], i: usize) -> (r: bool)
    ensures
        r == match_at(s@, pat@, i as int),
{
    if i > s.len() || pat.len() > s.len() - i {
        return false;
    }
    let mut k: usize = 0;
    while k < pat.len()
        invariant
            i + pat.len() <= s.len(),
            0 <= k <= pat.len(),
            forall|q: int| 0 <= q < k ==> s@[i + q] == pat@[q],
        decreases pat.len() - k,
    {
        if s[i + k] != pat[k] {
            assert(s@.subrange(i as int, i + pat.len())[k as int] != pat@[k as int]);
            return false;
        }
        k = k + 1;
    }
    assert(s@.subrange(i as int, i + pat.len()) =~= pat@);
    true
}

proof fn lemma_next_match_skip(s: Seq<u8>, pat: Seq<u8>, i: int, j: int)
    requires
        0 <= i <= j,
        i == j || j - 1 + pat.len() <= s.len(),
        forall|q: int| #![trigger match_at(s, pat, q)] (i <= q && q < j) ==> !match_at(s, pat, q),
    ensures
        next_match(s, pat, i) == next_match(s, pat, j),
    decreases j - i,
{
    if i < j {
        lemma_next_match_skip(s, pat, i + 1, j);
    }
}

proof fn lemma_next_match_bounds(s: Seq<u8>, pat: Seq<u8>, i: int)
    requires
        0 <= i,
    ensures
        next_match(s, pat, i) == s.len() || (i <= next_match(s, pat, i) && match_at(
            s,
            pat,
            next_match(s, pat, i),
        )),
    decreases s.len() + 1 - i,
{
    if i + pat.len() <= s.len() && !match_at(s, pat, i) {
        lemma_next_match_bounds(s, pat, i + 1);
    }
}

/// First occurrence of `pat` at or after `i`, or `s.len()`.
fn find_from(s: &[u8], pat: &[u8], i: usize) -> (r: usize)
    requires
        i <= s.len(),
    ensures
        r as int == next_match(s@, pat@, i as int),
{
    let mut j = i;
    while pat.len() <= s.len() - j
        invariant
            i <= j <= s.len(),
            j == i || j - 1 + pat@.len() <= s@.len(),
            forall|q: int|
                #![trigger match_at(s@, pat@, q)]
                (i <= q && q < j) ==> !match_at(s@, pat@, q),
        decreases s.len() - j,
    {
        if matches_at(s, pat, j) {
            proof {
                lemma_next_match_skip(s@, pat@, i as int, j as int);
            }
            return j;
        }
        if pat.len() == 0 {
            assert(s@.subrange(j as int, j as int) =~= pat@);
        }
        j = j + 1;
    }
    proof {
        lemma_next_match_skip(s@, pat@, i as int, j as int);
    }
    s.len()
}

/// The ranges of the pieces of `s` between occurrences of `pat`.
fn split_ranges(s: &[u8], pat: &[u8]) -> (r: Vec<(usize, usize)>)
    requires
        pat.len() > 0,
    ensures
        r@.len() == split_from(s@, pat@, 0).len(),
        forall|k: int|
            0 <= k < r@.len() ==> (#[trigger] r@[k]).0 <= r@[k].1 <= s@.len() && split_from(
                s@,
                pat@,
                0,
            )[k] == s@.subrange(r@[k].0 as int, r@[k].1 as int),
{
    let mut r: Vec<(usize, usize)> = Vec::new();
    let mut i: usize = 0;
    loop
        invariant_except_break
            split_from(s@, pat@, 0) == r@.map_values(
                |p: (usize, usize)| s@.subrange(p.0 as int, p.1 as int),
            ) + split_from(s@, pat@, i as int),
        invariant
            pat.len() > 0,
            i <= s.len(),
            forall|k: int| 0 <= k < r@.len() ==> (#[trigger] r@[k]).0 <= r@[k].1 <= s@.len(),
        ensures
            split_from(s@, pat@, 0) == r@.map_values(
                |p: (usize, usize)| s@.subrange(p.0 as int, p.1 as int),
            ),
            forall|k: int| 0 <= k < r@.len() ==> (#[trigger] r@[k]).0 <= r@[k].1 <= s@.len(),
        decreases s.len() - i,
    {
        let m = find_from(s, pat, i);
        proof {
            lemma_next_match_bounds(s@, pat@, i as int);
        }
        let ghost prev = r@;
        if m >= s.len() {
            r.push((i, s.len()));
            proof {
                assert(r@.map_values(|p: (usize, usize)| s@.subrange(p.0 as int, p.1 as int))
                    =~= prev.map_values(|p: (usize, usize)| s@.subrange(p.0 as int, p.1 as int))
                    + split_from(s@, pat@, i as int));
            }
            break;
        }
        r.push((i, m));
        proof {
            assert(r@.map_values(|p: (usize, usize)| s@.subrange(p.0 as int, p.1 as int))
                =~= prev.map_values(|p: (usize, usize)| s@.subrange(p.0 as int, p.1 as int))
                + seq![s@.subrange(i as int, m as int)]);
        }
        i = m + pat.len();
    }
    proof {
        let whole = split_from(s@, pat@, 0);
        assert(whole =~= r@.map_values(|p: (usize, usize)| s@.subrange(p.0 as int, p.1 as int)));
        assert forall|k: int| 0 <= k < r@.len() implies whole[k] == s@.subrange(
            (#[trigger] r@[k]).0 as int,
            r@[k].1 as int,
        ) by {}
    }
    r
}

pub(crate) fn is_ws(b: u8) -> (r: bool)
    ensures
        r == is_ascii_ws(b),
{
    b == 0x20 || b == 0x09 || b == 0x0a || b == 0x0b || b == 0x0c || b == 0x0d
}

pub(crate) proof fn lemma_trim_front(x: Seq<u8>, i: int)
    requires
        0 <= i <= x.len(),
        forall|q: int| 0 <= q < i ==> is_ascii_ws(x[q]),
    ensures
        trim_front(x) == trim_front(x.skip(i)),
    decreases i,
{
    if i > 0 {
        assert(x.skip(1) =~= x.drop_first());
        assert forall|q: int| 0 <= q < i - 1 implies is_ascii_ws(x.skip(1)[q]) by {
            assert(x.skip(1)[q] == x[q + 1]);
        }
        lemma_trim_front(x.skip(1), i - 1);
        assert(x.skip(1).skip(i - 1) =~= x.skip(i));
    } else {
        assert(x.skip(0) =~= x);
    }
}

proof fn lemma_trim_back(x: Seq<u8>, j: int)
    requires
        0 <= j <= x.len(),
        forall|q: int| j <= q < x.len() ==> is_ascii_ws(x[q]),
    ensures
        trim_back(x) == trim_back(x.take(j)),
    decreases x.len() - j,
{
    if j < x.len() {
        assert forall|q: int| j <= q < x.len() - 1 implies is_ascii_ws(x.drop_last()[q]) by {}
        lemma_trim_back(x.drop_last(), j);
        assert(x.drop_last().take(j) =~= x.take(j));
    } else {
        assert(x.take(j) =~= x);
    }
}

/// Range of `s[a..b]` with ASCII whitespace trimmed from both ends.
pub(crate) fn trim_range(s: &[u8], a: usize, b: usize) -> (r: (usize, usize))
    requires
        a <= b <= s.len(),
    ensures
        a <= r.0 <= r.1 <= b,
        s@.subrange(r.0 as int, r.1 as int) == trim(s@.subrange(a as int, b as int)),
{
    let ghost x = s@.subrange(a as int, b as int);
    let mut i = a;
    while i < b && is_ws(s[i])
        invariant
            a <= i <= b <= s.len(),
            forall|q: int| a <= q < i ==> is_ascii_ws(s@[q]),
        decreases b - i,
    {
        i = i + 1;
    }
    proof {
        lemma_trim_front(x, i - a);
        assert(x.skip(i - a) =~= s@.subrange(i as int, b as int));
        let y = s@.subrange(i as int, b as int);
        if y.len() > 0 {
            assert(!is_ascii_ws(y[0]));
        }
        assert(trim_front(y) == y);
    }
    let mut j = b;
    while j > i && is_ws(s[j - 1])
        invariant
            a <= i <= j <= b <= s.len(),
            forall|q: int| j <= q < b ==> is_ascii_ws(s@[q]),
        decreases j - i,
    {
        j = j - 1;
    }
    proof {
        let y = s@.subrange(i as int, b as int);
        lemma_trim_back(y, j - i);
        assert(y.take(j - i) =~= s@.subrange(i as int, j as int));
        let z = s@.subrange(i as int, j as int);
        if z.len() > 0 {
            assert(!is_ascii_ws(z.last()));
        }
        assert(trim_back(z) == z);
    }
    (i, j)
}

pub(crate) fn has_prefix(s: &[u8], a: usize, b: usize, p: &[u8]) -> (r: bool)
    requires
        a <= b <= s.len(),
    ensures
        r == starts_with(s@.subrange(a as int, b as int), p@),
{
    if p.len() > b - a {
        return false;
    }
    let r = matches_at(s, p, a);
    proof {
        assert(s@.subrange(a as int, b as int).take(p@.len() as int) =~= s@.subrange(
            a as int,
            a + p@.len(),
        ));
    }
    r
}

pub(crate) fn bytes_eq(s: &[u8], a: usize, b: usize, lit: &str) -> (r: bool)
    requires
        a <= b <= s.len(),
    ensures
        r == (s@.subrange(a as int, b as int) == lit.spec_bytes()),
{
    let p = lit.as_bytes();
    if p.len() != b - a {
        return false;
    }
    let r = matches_at(s, p, a);
    r
}

fn classify_range(s: &[u8], et: Option<(usize, usize)>) -> (r: EventKind)
    requires
        et matches Some(p) ==> p.0 <= p.1 <= s.len(),
    ensures
        r == classify(
            match et {
                Some(p) => Some(s@.subrange(p.0 as int, p.1 as int)),
                None => None,
            },
        ),
{
    match et {
        Some((a, b)) => {
            if bytes_eq(s, a, b, "message_start") {
                EventKind::MessageStart
            } else if bytes_eq(s, a, b, "content_block_start") {
                EventKind::ContentBlockStart
            } else if bytes_eq(s, a, b, "content_block_delta") {
                EventKind::ContentBlockDelta
            } else if bytes_eq(s, a, b, "message_delta") {
                EventKind::MessageDelta
            } else {
                EventKind::Other
            }
        },
        None => EventKind::Other,
    }
}

pub open spec fn range_view(s: Seq<u8>, o: Option<(usize, usize)>) -> Option<Seq<u8>> {
    match o {
        Some(p) => Some(s.subrange(p.0 as int, p.1 as int)),
        None => None,
    }
}

/// The event of one piece `c` of the body.
fn piece_event(c: &[u8]) -> (r: Option<SseEvent>)
    ensures
        match r {
            Some(e) => event_of(c@) == Some(e@),
            None => event_of(c@) is None,
        },
{
    let nl: [u8; 1] = [0x0a];
    let nl_s = nl.as_slice();
    assert(nl_s@ =~= seq![0x0au8]);
    let lines = split_ranges(c, nl_s);
    let ep = "event: ".as_bytes();
    let dp = "data: ".as_bytes();
    let ghost ls = split_from(c@, seq![0x0au8], 0);
    let mut et: Option<(usize, usize)> = None;
    let mut data: Option<(usize, usize)> = None;
    let mut k: usize = 0;
    while k < lines.len()
        invariant
            0 <= k <= lines@.len(),
            lines@.len() == ls.len(),
            ep@ == "event: ".spec_bytes(),
            dp@ == "data: ".spec_bytes(),
            forall|q: int|
                0 <= q < lines@.len() ==> (#[trigger] lines@[q]).0 <= lines@[q].1 <= c@.len()
                    && ls[q] == c@.subrange(lines@[q].0 as int, lines@[q].1 as int),
            et matches Some(p) ==> p.0 <= p.1 <= c@.len(),
            data matches Some(p) ==> p.0 <= p.1 <= c@.len(),
            fields_of(ls.take(k as int), ep@, dp@) == (range_view(c@, et), range_view(c@, data)),
        decreases lines.len() - k,
    {
        let (a, b) = lines[k];
        assert(ls.take(k + 1).drop_last() =~= ls.take(k as int));
        assert(ls.take(k + 1).last() == ls[k as int]);
        let ghost l = c@.subrange(a as int, b as int);
        if has_prefix(c, a, b, ep) {
            let t = trim_range(c, a + ep.len(), b);
            assert(l.skip(ep@.len() as int) =~= c@.subrange(a + ep@.len(), b as int));
            et = Some(t);
        } else if has_prefix(c, a, b, dp) {
            let t = trim_range(c, a + dp.len(), b);
            assert(l.skip(dp@.len() as int) =~= c@.subrange(a + dp@.len(), b as int));
            data = Some(t);
        }
        k = k + 1;
    }
    assert(ls.take(lines@.len() as int) =~= ls);
    match data {
        Some((a, b)) => {
            let d = slice_subrange(c, a, b);
            match decode_json(d) {
                Some(v) => {
                    let kind = classify_range(c, et);
                    Some(SseEvent { kind, data: v })
                },
                None => None,
            }
        },
        None => None,
    }
}

/// The events of an SSE body, in order.
pub fn sse_events(b: &[u8]) -> (r: Vec<SseEvent>)
    ensures
        events_view(r@) == sse_events_spec(b@),
{
    let sep: [u8; 2] = [0x0a, 0x0a];
    let sep_s = sep.as_slice();
    assert(sep_s@ =~= seq![0x0au8, 0x0au8]);
    let chunks = split_ranges(b, sep_s);
    let ghost cs = split_from(b@, seq![0x0au8, 0x0au8], 0);
    let mut r: Vec<SseEvent> = Vec::new();
    let mut k: usize = 0;
    while k < chunks.len()
        invariant
            0 <= k <= chunks@.len(),
            chunks@.len() == cs.len(),
            forall|q: int|
                0 <= q < chunks@.len() ==> (#[trigger] chunks@[q]).0 <= chunks@[q].1 <= b@.len()
                    && cs[q] == b@.subrange(chunks@[q].0 as int, chunks@[q].1 as int),
            events_view(r@) == events_of(cs.take(k as int)),
        decreases chunks.len() - k,
    {
        let (x, y) = chunks[k];
        assert(cs.take(k + 1).drop_last() =~= cs.take(k as int));
        assert(cs.take(k + 1).last() == cs[k as int]);
        let c = slice_subrange(b, x, y);
        let ghost prev = r@;
        match piece_event(c) {
            Some(e) => {
                r.push(e);
                assert(events_view(r@) =~= events_view(prev).push(e@));
            },
            None => {},
        }
        k = k + 1;
    }
    assert(cs.take(chunks@.len() as int) =~= cs);
    r
}

} // verus!
