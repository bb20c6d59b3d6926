//! Rewriting a request body in place: the members of the top-level object
//! are located on the bytes, and every member other than `model` and
//! `max_tokens` is copied exactly as it was written.
//!
//! Members are found with a scan that tracks string literals, escapes and
//! nesting depth: a member ends at a `,` or at the closing `}` that stands
//! at depth one outside any string.

use crate::json::quote;
use crate::sse::{
    bytes_eq, has_prefix, is_ascii_ws, is_ws, lemma_trim_front, starts_with, trim, trim_front,
    trim_range,
};
use vstd::prelude::*;
use vstd::string::StringSliceAdditionalSpecFns;

verus! {

broadcast use vstd::std_specs::vec::group_vec_axioms, vstd::seq::group_seq_axioms;

/// Where the scan stands before a byte.
pub struct ScanState {
    pub depth: nat,
    pub in_str: bool,
    pub esc: bool,
}

pub open spec fn scan_init() -> ScanState {
    ScanState { depth: 0, in_str: false, esc: false }
}

pub open spec fn scan_step(s: ScanState, c: u8) -> ScanState {
    if s.in_str {
        if s.esc {
            ScanState { esc: false, ..s }
        } else if c == 0x5c {
            ScanState { esc: true, ..s }
        } else if c == 0x22 {
            ScanState { in_str: false, ..s }
        } else {
            s
        }
    } else if c == 0x22 {
        ScanState { in_str: true, ..s }
    } else if c == 0x7b || c == 0x5b {
        ScanState { depth: s.depth + 1, ..s }
    } else if c == 0x7d || c == 0x5d {
        ScanState { depth: if s.depth > 0 { (s.depth - 1) as nat } else { 0 }, ..s }
    } else {
        s
    }
}

/// The scan state before byte `n`.
pub open spec fn scan_to(b: Seq<u8>, n: nat) -> ScanState
    decreases n,
{
    if n == 0 {
        scan_init()
    } else {
        scan_step(scan_to(b, (n - 1) as nat), b[n - 1])
    }
}

pub open spec fn is_open_at(b: Seq<u8>, p: nat) -> bool {
    scan_to(b, p).depth == 0 && !scan_to(b, p).in_str && b[p as int] == 0x7b
}

pub open spec fn top_at(b: Seq<u8>, p: nat) -> bool {
    scan_to(b, p).depth == 1 && !scan_to(b, p).in_str
}

pub open spec fn is_close_at(b: Seq<u8>, p: nat) -> bool {
    top_at(b, p) && b[p as int] == 0x7d
}

pub open spec fn is_sep_at(b: Seq<u8>, p: nat) -> bool {
    top_at(b, p) && b[p as int] == 0x2c
}

/// First position at or after `p` that opens the top-level object.
pub open spec fn find_open(b: Seq<u8>, p: nat) -> nat
    decreases b.len() - p,
{
    if p >= b.len() {
        b.len()
    } else if is_open_at(b, p) {
        p
    } else {
        find_open(b, p + 1)
    }
}

/// First position at or after `p` that closes the top-level object.
pub open spec fn find_close(b: Seq<u8>, p: nat) -> nat
    decreases b.len() - p,
{
    if p >= b.len() {
        b.len()
    } else if is_close_at(b, p) {
        p
    } else {
        find_close(b, p + 1)
    }
}

/// The member separators in `[p, c)`, in order.
pub open spec fn seps_in(b: Seq<u8>, p: nat, c: nat) -> Seq<nat>
    decreases c - p,
{
    if p >= c {
        Seq::empty()
    } else if is_sep_at(b, p) {
        seq![p] + seps_in(b, p + 1, c)
    } else {
        seps_in(b, p + 1, c)
    }
}

/// The texts of the members between `o` and `c`, cut at `seps`.
pub open spec fn member_texts(b: Seq<u8>, o: nat, seps: Seq<nat>, c: nat) -> Seq<Seq<u8>> {
    Seq::new(
        seps.len() + 1,
        |k: int|
            b.subrange(
                if k == 0 { (o + 1) as int } else { (seps[k - 1] + 1) as int },
                if k == seps.len() { c as int } else { seps[k] as int },
            ),
    )
}

pub open spec fn model_key() -> Seq<u8> {
    "\"model\"".spec_bytes()
}

pub open spec fn max_tokens_key() -> Seq<u8> {
    "\"max_tokens\"".spec_bytes()
}

/// The member's name, as written, is `key` (quotes included).
pub open spec fn member_is(m: Seq<u8>, key: Seq<u8>) -> bool {
    let t = trim_front(m);
    starts_with(t, key) && {
        let r = trim_front(t.skip(key.len() as int));
        r.len() > 0 && r[0] == 0x3a
    }
}

/// The value text of a member named `key`, trimmed.
pub open spec fn member_value(m: Seq<u8>, key: Seq<u8>) -> Seq<u8> {
    trim(trim_front(trim_front(m).skip(key.len() as int)).skip(1))
}

pub open spec fn model_member(x: Seq<char>) -> Seq<u8> {
    vstd::utf8::encode_utf8("\"model\":"@ + quote(x))
}

pub open spec fn max_tokens_member() -> Seq<u8> {
    "\"max_tokens\":65536".spec_bytes()
}

/// The text a member is rewritten to.
pub open spec fn rewrite_member(m: Seq<u8>, model: Option<Seq<char>>) -> Seq<u8> {
    if model is Some && member_is(m, model_key()) {
        model_member(model->0)
    } else if member_is(m, max_tokens_key()) && member_value(m, max_tokens_key())
        == "null".spec_bytes() {
        max_tokens_member()
    } else {
        m
    }
}

pub open spec fn any_member(ms: Seq<Seq<u8>>, key: Seq<u8>) -> bool
    decreases ms.len(),
{
    ms.len() > 0 && (any_member(ms.drop_last(), key) || member_is(ms.last(), key))
}

pub open spec fn join_commas(ps: Seq<Seq<u8>>) -> Seq<u8>
    decreases ps.len(),
{
    if ps.len() == 0 {
        Seq::empty()
    } else if ps.len() == 1 {
        ps[0]
    } else {
        join_commas(ps.drop_last()) + seq![0x2cu8] + ps.last()
    }
}

/// The members to add after the existing ones.
pub open spec fn added_members(ms: Seq<Seq<u8>>, model: Option<Seq<char>>) -> Seq<Seq<u8>> {
    let a: Seq<Seq<u8>> = if model is Some && !any_member(ms, model_key()) {
        seq![model_member(model->0)]
    } else {
        Seq::empty()
    };
    if !any_member(ms, max_tokens_key()) {
        a.push(max_tokens_member())
    } else {
        a
    }
}

/// Added members, each after a comma unless the object had no member.
pub open spec fn added_text(empty: bool, adds: Seq<Seq<u8>>) -> Seq<u8>
    decreases adds.len(),
{
    if adds.len() == 0 {
        Seq::empty()
    } else {
        added_text(empty, adds.drop_last()) + (if empty && adds.len() == 1 {
            Seq::<u8>::empty()
        } else {
            seq![0x2cu8]
        }) + adds.last()
    }
}

/// The rewritten body: the text up to and with the opening brace, the
/// members rewritten and joined by the original commas, the added members,
/// and the text from the closing brace on. `None` where no top-level object
/// is found.
pub open spec fn spliced(b: Seq<u8>, model: Option<Seq<char>>) -> Option<Seq<u8>> {
    let o = find_open(b, 0);
    if o >= b.len() {
        None
    } else {
        let c = find_close(b, o + 1);
        if c >= b.len() {
            None
        } else {
            let ms = member_texts(b, o, seps_in(b, o + 1, c), c);
            let empty = ms.len() == 1 && trim(ms[0]).len() == 0;
            Some(
                b.take((o + 1) as int) + join_commas(ms.map_values(|m: Seq<u8>| rewrite_member(m, model)))
                    + added_text(empty, added_members(ms, model)) + b.skip(c as int),
            )
        }
    }
}

proof fn lemma_find_close_ge(b: Seq<u8>, p: nat)
    requires
        p <= b.len(),
    ensures
        p <= find_close(b, p) <= b.len(),
    decreases b.len() - p,
{
    if p < b.len() && !is_close_at(b, p) {
        lemma_find_close_ge(b, p + 1);
    }
}

fn step_exec(depth: usize, in_str: bool, esc: bool, c: u8) -> (r: (usize, bool, bool))
    requires
        depth < usize::MAX,
    ensures
        ({
            let n = scan_step(ScanState { depth: depth as nat, in_str, esc }, c);
            n == ScanState { depth: r.0 as nat, in_str: r.1, esc: r.2 }
        }),
        r.0 <= depth + 1,
{
    if in_str {
        if esc {
            (depth, true, false)
        } else if c == 0x5c {
            (depth, true, true)
        } else if c == 0x22 {
            (depth, false, false)
        } else {
            (depth, true, esc)
        }
    } else if c == 0x22 {
        (depth, true, esc)
    } else if c == 0x7b || c == 0x5b {
        (depth + 1, false, esc)
    } else if c == 0x7d || c == 0x5d {
        (if depth > 0 { depth - 1 } else { 0 }, false, esc)
    } else {
        (depth, false, esc)
    }
}

/// The opening brace, the separators and the closing brace of the
/// top-level object.
fn object_frame(b: &[u8]) -> (r: Option<(usize, Vec<usize>, usize)>)
    ensures
        match r {
            None => find_open(b@, 0) >= b@.len() || find_close(b@, (find_open(b@, 0) + 1) as nat)
                >= b@.len(),
            Some((o, seps, c)) => {
                &&& o == find_open(b@, 0)
                &&& o < b@.len()
                &&& c == find_close(b@, (o + 1) as nat)
                &&& o < c < b@.len()
                &&& seps@.map_values(|x: usize| x as nat) == seps_in(b@, (o + 1) as nat, c as nat)
                &&& seps@.len() < c
                &&& forall|k: int| 0 <= k < seps@.len() ==> o < #[trigger] seps@[k] < c
                &&& forall|k: int| 0 < k < seps@.len() ==> seps@[k - 1] < #[trigger] seps@[k]
            },
        },
{
    let mut depth: usize = 0;
    let mut in_str = false;
    let mut esc = false;
    let mut p: usize = 0;
    while p < b.len() && !(depth == 0 && !in_str && b[p] == 0x7b)
        invariant
            p <= b@.len(),
            depth <= p,
            scan_to(b@, p as nat) == (ScanState { depth: depth as nat, in_str, esc }),
            find_open(b@, 0) == find_open(b@, p as nat),
        decreases b@.len() - p,
    {
        let (d, i, e) = step_exec(depth, in_str, esc, b[p]);
        depth = d;
        in_str = i;
        esc = e;
        p = p + 1;
    }
    if p >= b.len() {
        return None;
    }
    let o = p;
    let (d, i, e) = step_exec(depth, in_str, esc, b[p]);
    depth = d;
    in_str = i;
    esc = e;
    p = p + 1;
    let ghost c_spec = find_close(b@, (o + 1) as nat);
    proof {
        lemma_find_close_ge(b@, (o + 1) as nat);
        assert(seps_in(b@, (o + 1) as nat, c_spec) == Seq::<nat>::empty() + seps_in(
            b@,
            (o + 1) as nat,
            c_spec,
        ));
    }
    let mut seps: Vec<usize> = Vec::new();
    while p < b.len() && !(depth == 1 && !in_str && b[p] == 0x7d)
        invariant
            o < p <= b@.len(),
            o == find_open(b@, 0),
            depth <= p,
            scan_to(b@, p as nat) == (ScanState { depth: depth as nat, in_str, esc }),
            c_spec == find_close(b@, (o + 1) as nat),
            c_spec == find_close(b@, p as nat),
            c_spec < b@.len() ==> seps_in(b@, (o + 1) as nat, c_spec) == seps@.map_values(
                |x: usize| x as nat,
            ) + seps_in(b@, p as nat, c_spec),
            p <= c_spec,
            seps@.len() < p,
            forall|k: int| 0 <= k < seps@.len() ==> o < #[trigger] seps@[k] < p,
            forall|k: int| 0 < k < seps@.len() ==> seps@[k - 1] < #[trigger] seps@[k],
        decreases b@.len() - p,
    {
        let ghost before = seps@;
        proof {
            assert(!is_close_at(b@, p as nat));
            lemma_find_close_ge(b@, (p + 1) as nat);
            assert(c_spec == find_close(b@, (p + 1) as nat));
            assert(p < c_spec);
        }
        if depth == 1 && !in_str && b[p] == 0x2c {
            seps.push(p);
            proof {
                if c_spec < b@.len() {
                    assert(seps@.map_values(|x: usize| x as nat) =~= before.map_values(
                        |x: usize| x as nat,
                    ).push(p as nat));
                }
            }
        }
        proof {
            if c_spec < b@.len() {
                assert(seps_in(b@, p as nat, c_spec) == if is_sep_at(b@, p as nat) {
                    seq![p as nat] + seps_in(b@, (p + 1) as nat, c_spec)
                } else {
                    seps_in(b@, (p + 1) as nat, c_spec)
                });
            }
        }
        let (d, i, e) = step_exec(depth, in_str, esc, b[p]);
        depth = d;
        in_str = i;
        esc = e;
        p = p + 1;
    }
    if p >= b.len() {
        return None;
    }
    proof {
        lemma_find_close_ge(b@, (o + 1) as nat);
        assert(seps_in(b@, p as nat, p as nat) =~= Seq::<nat>::empty());
        assert(seps@.map_values(|x: usize| x as nat) + Seq::<nat>::empty() =~= seps@.map_values(
            |x: usize| x as nat,
        ));
    }
    Some((o, seps, p))
}

/// Position of the first byte of `b[a..e]` that is not ASCII whitespace.
fn trim_front_pos(b: &[u8], a: usize, e: usize) -> (r: usize)
    requires
        a <= e <= b@.len(),
    ensures
        a <= r <= e,
        b@.subrange(r as int, e as int) == trim_front(b@.subrange(a as int, e as int)),
{
    let ghost x = b@.subrange(a as int, e as int);
    let mut i = a;
    while i < e && is_ws(b[i])
        invariant
            a <= i <= e <= b@.len(),
            forall|q: int| a <= q < i ==> is_ascii_ws(b@[q]),
        decreases e - i,
    {
        i = i + 1;
    }
    proof {
        lemma_trim_front(x, i - a);
        assert(x.skip(i - a) =~= b@.subrange(i as int, e as int));
        let y = b@.subrange(i as int, e as int);
        if y.len() > 0 {
            assert(!is_ascii_ws(y[0]));
        }
        assert(trim_front(y) == y);
    }
    i
}

/// Whether `b[s..e]` is a member named `key`; if so, also where the text
/// after its colon starts.
fn member_is_exec(b: &[u8], s: usize, e: usize, key: &[u8]) -> (r: (bool, usize))
    requires
        s <= e <= b@.len(),
    ensures
        r.0 == member_is(b@.subrange(s as int, e as int), key@),
        r.0 ==> r.1 <= e && b@.subrange(r.1 as int, e as int) == trim_front(
            trim_front(b@.subrange(s as int, e as int)).skip(key@.len() as int),
        ).skip(1),
{
    let ghost m = b@.subrange(s as int, e as int);
    let t0 = trim_front_pos(b, s, e);
    if !has_prefix(b, t0, e, key) {
        return (false, e);
    }
    let k0 = t0 + key.len();
    assert(trim_front(m).skip(key@.len() as int) =~= b@.subrange(k0 as int, e as int));
    let r0 = trim_front_pos(b, k0, e);
    if r0 < e && b[r0] == 0x3a {
        assert(b@.subrange(r0 as int, e as int)[0] == b@[r0 as int]);
        assert(b@.subrange(r0 as int, e as int).skip(1) =~= b@.subrange(r0 + 1, e as int));
        (true, r0 + 1)
    } else {
        proof {
            if r0 < e {
                assert(b@.subrange(r0 as int, e as int)[0] == b@[r0 as int]);
            }
        }
        (false, e)
    }
}

fn push_slice(out: &mut Vec<u8>, b: &[u8], s: usize, e: usize)
    requires
        s <= e <= b@.len(),
    ensures
        final(out)@ == old(out)@ + b@.subrange(s as int, e as int),
{
    let ghost pre = out@;
    let mut i = s;
    while i < e
        invariant
            s <= i <= e <= b@.len(),
            out@ == pre + b@.subrange(s as int, i as int),
        decreases e - i,
    {
        out.push(b[i]);
        assert(b@.subrange(s as int, i + 1) =~= b@.subrange(s as int, i as int).push(b@[i as int]));
        i = i + 1;
    }
}

fn push_all(out: &mut Vec<u8>, b: &[u8])
    ensures
        final(out)@ == old(out)@ + b@,
{
    push_slice(out, b, 0, b.len());
    assert(b@.subrange(0, b@.len() as int) =~= b@);
}

fn model_member_bytes(x: &str) -> (r: Vec<u8>)
    ensures
        r@ == model_member(x@),
{
    let mut t = "\"model\":".to_string();
    crate::json::write_quoted(&mut t, x);
    let mut v: Vec<u8> = Vec::new();
    push_all(&mut v, t.as_str().as_bytes());
    assert(v@ =~= model_member(x@));
    v
}

/// The rewritten member text of `b[s..e]`.
fn rewrite_member_exec(
    out: &mut Vec<u8>,
    b: &[u8],
    s: usize,
    e: usize,
    model: Option<&str>,
) -> (r: (bool, bool))
    requires
        s <= e <= b@.len(),
    ensures
        final(out)@ == old(out)@ + rewrite_member(
            b@.subrange(s as int, e as int),
            crate::rewrite::opt_str_view(model),
        ),
        r.0 == member_is(b@.subrange(s as int, e as int), model_key()),
        r.1 == member_is(b@.subrange(s as int, e as int), max_tokens_key()),
{
    let mk = "\"model\"".as_bytes();
    let tk = "\"max_tokens\"".as_bytes();
    let (is_model, _) = member_is_exec(b, s, e, mk);
    let (is_max, vs) = member_is_exec(b, s, e, tk);
    if model.is_some() && is_model {
        let v = model_member_bytes(model.unwrap());
        push_all(out, v.as_slice());
    } else {
        let is_null = if is_max {
            let (a, z) = trim_range(b, vs, e);
            bytes_eq(b, a, z, "null")
        } else {
            false
        };
        if is_max && is_null {
            push_all(out, "\"max_tokens\":65536".as_bytes());
        } else {
            push_slice(out, b, s, e);
        }
    }
    (is_model, is_max)
}

/// Range of member `k` of the frame `(o, seps, c)`.
fn member_range(b: &[u8], o: usize, seps: &Vec<usize>, c: usize, k: usize) -> (r: (usize, usize))
    requires
        o < c < b@.len(),
        k <= seps@.len(),
        forall|q: int| 0 <= q < seps@.len() ==> o < #[trigger] seps@[q] < c,
        forall|q: int| 0 < q < seps@.len() ==> seps@[q - 1] < #[trigger] seps@[q],
    ensures
        r.0 <= r.1 <= b@.len(),
        member_texts(b@, o as nat, seps@.map_values(|x: usize| x as nat), c as nat)[k as int]
            == b@.subrange(r.0 as int, r.1 as int),
{
    let s = if k == 0 { o + 1 } else { seps[k - 1] + 1 };
    let e = if k == seps.len() { c } else { seps[k] };
    (s, e)
}

/// Appends the rewritten members of the frame, joined by commas; also
/// whether a `model` and a `max_tokens` member were met.
#[verifier::rlimit(50)]
fn emit_members(
    out: &mut Vec<u8>,
    b: &[u8],
    o: usize,
    seps: &Vec<usize>,
    c: usize,
    model: Option<&str>,
) -> (r: (bool, bool))
    requires
        o < c < b@.len(),
        seps@.len() < c,
        forall|q: int| 0 <= q < seps@.len() ==> o < #[trigger] seps@[q] < c,
        forall|q: int| 0 < q < seps@.len() ==> seps@[q - 1] < #[trigger] seps@[q],
    ensures
        ({
            let ms = member_texts(b@, o as nat, seps@.map_values(|x: usize| x as nat), c as nat);
            let mv = crate::rewrite::opt_str_view(model);
            &&& final(out)@ == old(out)@ + join_commas(
                ms.map_values(|m: Seq<u8>| rewrite_member(m, mv)),
            )
            &&& r.0 == any_member(ms, model_key())
            &&& r.1 == any_member(ms, max_tokens_key())
        }),
{
    let ghost mv = crate::rewrite::opt_str_view(model);
    let ghost ms = member_texts(b@, o as nat, seps@.map_values(|x: usize| x as nat), c as nat);
    let ghost ps = ms.map_values(|m: Seq<u8>| rewrite_member(m, mv));
    let ghost head = out@;
    let n = seps.len();
    let mut k: usize = 0;
    let mut any_model = false;
    let mut any_max = false;
    while k <= n
        invariant
            0 <= k <= n + 1,
            n == seps@.len(),
            o < c < b@.len(),
            n < c,
            ms.len() == n + 1,
            ps.len() == n + 1,
            forall|q: int| 0 <= q <= n ==> #[trigger] ps[q] == rewrite_member(ms[q], mv),
            ms == member_texts(b@, o as nat, seps@.map_values(|x: usize| x as nat), c as nat),
            mv == crate::rewrite::opt_str_view(model),
            forall|q: int| 0 <= q < seps@.len() ==> o < #[trigger] seps@[q] < c,
            forall|q: int| 0 < q < seps@.len() ==> seps@[q - 1] < #[trigger] seps@[q],
            out@ == head + join_commas(ps.take(k as int)),
            any_model == any_member(ms.take(k as int), model_key()),
            any_max == any_member(ms.take(k as int), max_tokens_key()),
        decreases n + 1 - k,
    {
        let (s, e) = member_range(b, o, seps, c, k);
        assert(ps.take(k + 1).drop_last() =~= ps.take(k as int));
        assert(ms.take(k + 1).drop_last() =~= ms.take(k as int));
        assert(ps.take(k + 1).last() == ps[k as int]);
        assert(ms.take(k + 1).last() == ms[k as int]);
        if k > 0 {
            out.push(0x2c);
        }
        let (im, ix) = rewrite_member_exec(out, b, s, e, model);
        any_model = any_model || im;
        any_max = any_max || ix;
        proof {
            if k == 0 {
                assert(ps.take(1) =~= seq![ps[0]]);
            }
            assert(out@ =~= head + join_commas(ps.take(k + 1)));
        }
        k = k + 1;
    }
    assert(ps.take((n + 1) as int) =~= ps);
    assert(ms.take((n + 1) as int) =~= ms);
    (any_model, any_max)
}

/// The body with `model` replaced (or added) and `max_tokens` defaulted,
/// every other member kept byte for byte; `None` where no top-level object
/// is found.
#[verifier::rlimit(50)]
pub fn splice_body(b: &[u8], model: Option<&str>) -> (r: Option<Vec<u8>>)
    ensures
        match r {
            Some(v) => spliced(b@, crate::rewrite::opt_str_view(model)) == Some(v@),
            None => spliced(b@, crate::rewrite::opt_str_view(model)) is None,
        },
{
    let ghost mv = crate::rewrite::opt_str_view(model);
    let (o, seps, c) = match object_frame(b) {
        Some(f) => f,
        None => {
            return None;
        },
    };
    let ghost sv = seps@.map_values(|x: usize| x as nat);
    let ghost ms = member_texts(b@, o as nat, sv, c as nat);
    let ghost ps = ms.map_values(|m: Seq<u8>| rewrite_member(m, mv));
    let mut out: Vec<u8> = Vec::new();
    push_slice(&mut out, b, 0, o + 1);
    let ghost head = out@;
    let n = seps.len();
    let (any_model, any_max) = emit_members(&mut out, b, o, &seps, c, model);
    let (ta, tz) = trim_range(b, o + 1, c);
    let empty = n == 0 && ta == tz;
    proof {
        if n == 0 {
            assert(ms[0] == b@.subrange(o + 1, c as int));
        }
    }
    let ghost adds = added_members(ms, mv);
    let ghost before_adds = out@;
    let mut wrote = false;
    if model.is_some() && !any_model {
        if !empty {
            out.push(0x2c);
        }
        let v = model_member_bytes(model.unwrap());
        push_all(&mut out, v.as_slice());
        wrote = true;
    }
    if !any_max {
        if !(empty && !wrote) {
            out.push(0x2c);
        }
        push_all(&mut out, "\"max_tokens\":65536".as_bytes());
    }
    proof {
        let a: Seq<Seq<u8>> = if mv is Some && !any_member(ms, model_key()) {
            seq![model_member(mv->0)]
        } else {
            Seq::empty()
        };
        assert(a.len() == 0 || a.len() == 1);
        if a.len() == 1 {
            assert(a.drop_last() =~= Seq::<Seq<u8>>::empty());
            assert(added_text(empty, Seq::<Seq<u8>>::empty()) == Seq::<u8>::empty());
            assert(added_text(empty, a) =~= (if empty { Seq::<u8>::empty() } else { seq![0x2cu8] }) + a[0]);
        } else {
            assert(added_text(empty, a) =~= Seq::<u8>::empty());
        }
        if !any_member(ms, max_tokens_key()) {
            assert(a.push(max_tokens_member()).drop_last() =~= a);
        }
        assert(out@ =~= before_adds + added_text(empty, adds));
    }
    push_slice(&mut out, b, c, b.len());
    proof {
        assert(b@.subrange(0, o + 1) =~= b@.take(o + 1));
        assert(b@.subrange(c as int, b@.len() as int) =~= b@.skip(c as int));
    }
    Some(out)
}

/// Rewriting a body keeps the bytes of every member other than `model` and
/// `max_tokens`: the result is the text up to the opening brace, then each
/// member as written (only those two names are rewritten), joined by the
/// original commas, then the added members and the text from the closing
/// brace on.
pub proof fn lemma_splice_keeps_other_members(b: Seq<u8>, model: Option<Seq<char>>)
    ensures
        spliced(b, model) matches Some(out) ==> {
            let o = find_open(b, 0);
            let c = find_close(b, o + 1);
            let ms = member_texts(b, o, seps_in(b, o + 1, c), c);
            let ps = ms.map_values(|m: Seq<u8>| rewrite_member(m, model));
            &&& ps.len() == ms.len()
            &&& forall|k: int|
                0 <= k < ms.len() && !member_is(ms[k], model_key()) && !member_is(
                    ms[k],
                    max_tokens_key(),
                ) ==> #[trigger] ps[k] == ms[k]
            &&& forall|k: int|
                0 <= k < ms.len() && model is None && !member_is(ms[k], max_tokens_key())
                    ==> #[trigger] ps[k] == ms[k]
            &&& out == b.take((o + 1) as int) + join_commas(ps) + added_text(
                ms.len() == 1 && trim(ms[0]).len() == 0,
                added_members(ms, model),
            ) + b.skip(c as int)
        },
{
}

} // verus!
