//! Request body rewriting: replace `model`, default `max_tokens`, and leave
//! every other member exactly as it was.

use crate::json::{
    decode_json, encode, entries_view, json_decoded, lemma_entries_view, lookup, opt_view, str_eq,
    to_text, Json, JsonV,
};
use vstd::prelude::*;

verus! {

broadcast use vstd::std_specs::vec::group_vec_axioms, vstd::seq::group_seq_axioms;

/// `max_tokens` given to a request that has none (or `null`).
pub const DEFAULT_MAX_TOKENS: u64 = 65536;

pub open spec fn default_max_tokens_text() -> Seq<char> {
    "65536"@
}

/// Index of the first member under `key`, or the length when there is none.
pub open spec fn find_key(es: Seq<(Seq<char>, JsonV)>, key: Seq<char>) -> nat
    decreases es.len(),
{
    if es.len() == 0 {
        0
    } else if es[0].0 == key {
        0
    } else {
        1 + find_key(es.drop_first(), key)
    }
}

/// Object member list with `key` set to `v`: the first member under `key`
/// takes the new value in place; without one, the member is appended.
pub open spec fn set_member(es: Seq<(Seq<char>, JsonV)>, key: Seq<char>, v: JsonV) -> Seq<
    (Seq<char>, JsonV),
> {
    let i = find_key(es, key);
    if i < es.len() {
        es.update(i as int, (key, v))
    } else {
        es.push((key, v))
    }
}

/// Members after the `model` override.
pub open spec fn with_model(es: Seq<(Seq<char>, JsonV)>, model: Option<Seq<char>>) -> Seq<
    (Seq<char>, JsonV),
> {
    match model {
        Some(m) => set_member(es, "model"@, JsonV::Str(m)),
        None => es,
    }
}

/// Members after defaulting `max_tokens`.
pub open spec fn with_max_tokens(es: Seq<(Seq<char>, JsonV)>) -> Seq<(Seq<char>, JsonV)> {
    match lookup(es, "max_tokens"@) {
        Some(JsonV::Null) | None => set_member(
            es,
            "max_tokens"@,
            JsonV::Number(default_max_tokens_text()),
        ),
        _ => es,
    }
}

/// The rewritten document. Values that are not objects pass unchanged.
pub open spec fn rewrite_spec(j: JsonV, model: Option<Seq<char>>) -> JsonV {
    match j {
        JsonV::Object(es) => JsonV::Object(with_max_tokens(with_model(es, model))),
        _ => j,
    }
}

pub open spec fn opt_str_view(o: Option<&str>) -> Option<Seq<char>> {
    match o {
        Some(s) => Some(s@),
        None => None,
    }
}

proof fn lemma_find_key(es: Seq<(Seq<char>, JsonV)>, key: Seq<char>)
    ensures
        find_key(es, key) <= es.len(),
        find_key(es, key) < es.len() ==> es[find_key(es, key) as int].0 == key,
        find_key(es, key) < es.len() ==> lookup(es, key) == Some(
            es[find_key(es, key) as int].1,
        ),
        find_key(es, key) == es.len() ==> lookup(es, key) is None,
        forall|k: int| 0 <= k < find_key(es, key) ==> es[k].0 != key,
    decreases es.len(),
{
    if es.len() > 0 && es[0].0 != key {
        lemma_find_key(es.drop_first(), key);
        assert forall|k: int| 0 <= k < find_key(es, key) implies es[k].0 != key by {
            if k > 0 {
                assert(es[k] == es.drop_first()[k - 1]);
            }
        }
    }
}

proof fn lemma_lookup_first(es: Seq<(Seq<char>, JsonV)>, key: Seq<char>, i: int)
    requires
        0 <= i < es.len(),
        es[i].0 == key,
        forall|k: int| 0 <= k < i ==> es[k].0 != key,
    ensures
        find_key(es, key) == i,
    decreases es.len(),
{
    if i > 0 {
        assert forall|k: int| 0 <= k < i - 1 implies es.drop_first()[k].0 != key by {
            assert(es.drop_first()[k] == es[k + 1]);
        }
        lemma_lookup_first(es.drop_first(), key, i - 1);
    }
}

proof fn lemma_no_key(es: Seq<(Seq<char>, JsonV)>, key: Seq<char>)
    requires
        forall|k: int| 0 <= k < es.len() ==> es[k].0 != key,
    ensures
        find_key(es, key) == es.len(),
    decreases es.len(),
{
    if es.len() > 0 {
        assert forall|k: int| 0 <= k < es.len() - 1 implies es.drop_first()[k].0 != key by {
            assert(es.drop_first()[k] == es[k + 1]);
        }
        lemma_no_key(es.drop_first(), key);
    }
}

/// Sets member `key` of an object member list to `v`.
pub(crate) fn set_member_exec(es: &mut Vec<(String, Json)>, key: &str, v: Json)
    ensures
        entries_view(final(es)@) == set_member(entries_view(old(es)@), key@, v@),
{
    proof {
        lemma_entries_view(es@);
    }
    let ghost ev = entries_view(es@);
    let mut i: usize = 0;
    while i < es.len()
        invariant
            0 <= i <= es.len(),
            ev == entries_view(es@),
            es@ == old(es)@,
            ev.len() == es@.len(),
            forall|k: int| 0 <= k < es@.len() ==> #[trigger] ev[k] == (es@[k].0@, es@[k].1@),
            forall|k: int| 0 <= k < i ==> ev[k].0 != key@,
        decreases es.len() - i,
    {
        if str_eq(es[i].0.as_str(), key) {
            proof {
                lemma_lookup_first(ev, key@, i as int);
                lemma_find_key(ev, key@);
            }
            let ghost old_es = es@;
            es.set(i, (key.to_string(), v));
            proof {
                lemma_entries_view(es@);
                lemma_entries_view(old_es);
                assert(entries_view(es@) =~= ev.update(i as int, (key@, v@)));
            }
            return ;
        }
        i = i + 1;
    }
    proof {
        lemma_no_key(ev, key@);
    }
    let ghost old_es = es@;
    es.push((key.to_string(), v));
    proof {
        lemma_entries_view(es@);
        assert(entries_view(es@) =~= ev.push((key@, v@)));
    }
}

/// Member `key` of an object member list.
fn member<'a>(es: &'a Vec<(String, Json)>, key: &str) -> (r: Option<&'a Json>)
    ensures
        opt_view(r) == lookup(entries_view(es@), key@),
{
    proof {
        lemma_entries_view(es@);
        lemma_find_key(entries_view(es@), key@);
    }
    let ghost ev = entries_view(es@);
    let mut i: usize = 0;
    while i < es.len()
        invariant
            0 <= i <= es.len(),
            ev == entries_view(es@),
            ev.len() == es@.len(),
            forall|k: int| 0 <= k < es@.len() ==> #[trigger] ev[k] == (es@[k].0@, es@[k].1@),
            forall|k: int| 0 <= k < i ==> ev[k].0 != key@,
        decreases es.len() - i,
    {
        if str_eq(es[i].0.as_str(), key) {
            proof {
                lemma_lookup_first(ev, key@, i as int);
                lemma_find_key(ev, key@);
            }
            return Some(&es[i].1);
        }
        i = i + 1;
    }
    proof {
        lemma_no_key(ev, key@);
    }
    None
}

/// Applies the `model` override and the `max_tokens` default to a parsed
/// document (the same rewrite, stated on values rather than bytes).
pub fn rewrite_json(j: Json, model: Option<&str>) -> (r: Json)
    ensures
        r@ == rewrite_spec(j@, opt_str_view(model)),
{
    match j {
        Json::Object(es) => {
            let mut es = es;
            if let Some(m) = model {
                set_member_exec(&mut es, "model", Json::Str(m.to_string()));
            }
            let missing = match member(&es, "max_tokens") {
                None => true,
                Some(v) => v.is_null(),
            };
            if missing {
                proof {
                    reveal_strlit("65536");
                }
                set_member_exec(&mut es, "max_tokens", Json::Number("65536".to_string()));
            }
            Json::Object(es)
        },
        _ => j,
    }
}

/// Rewrites a request body on its bytes: `model` replaced or added where an
/// override is given, `max_tokens` added where absent and replaced where
/// `null`, and every other member of the object kept byte for byte. A JSON
/// text that is not an object is kept as it is. `None` where the body is not
/// one JSON text; the caller then forwards the original bytes.
pub fn rewrite_request_body(body: &[u8], model: Option<&str>) -> (r: Option<Vec<u8>>)
    ensures
        match json_decoded(body@) {
            None => r is None,
            Some(JsonV::Object(_)) => r matches Some(v) && v@ == match crate::splice::spliced(
                body@,
                opt_str_view(model),
            ) {
                Some(x) => x,
                None => body@,
            },
            Some(_) => r matches Some(v) && v@ == body@,
        },
{
    match decode_json(body) {
        Some(Json::Object(_)) => match crate::splice::splice_body(body, model) {
            Some(v) => Some(v),
            None => Some(vstd::slice::slice_to_vec(body)),
        },
        Some(_) => Some(vstd::slice::slice_to_vec(body)),
        None => None,
    }
}

proof fn lemma_set_member(es: Seq<(Seq<char>, JsonV)>, key: Seq<char>, v: JsonV)
    ensures
        ({
            let out = set_member(es, key, v);
            &&& out.len() >= es.len()
            &&& forall|i: int| 0 <= i < es.len() && es[i].0 != key ==> out[i] == es[i]
            &&& forall|i: int| es.len() <= i < out.len() ==> out[i].0 == key
            &&& forall|k: Seq<char>| k != key ==> lookup(out, k) == lookup(es, k)
            &&& lookup(out, key) == Some(v)
        }),
{
    let out = set_member(es, key, v);
    let i = find_key(es, key);
    lemma_find_key(es, key);
    if i < es.len() {
        assert forall|j: int| 0 <= j < out.len() implies out[j].0 == es[j].0 by {}
        lemma_lookup_first(out, key, i as int);
        lemma_find_key(out, key);
        assert forall|k: Seq<char>| k != key implies lookup(out, k) == lookup(es, k) by {
            lemma_find_key(es, k);
            let f = find_key(es, k);
            if f < es.len() {
                lemma_lookup_first(out, k, f as int);
            } else {
                lemma_no_key(out, k);
            }
            lemma_find_key(out, k);
        }
    } else {
        assert forall|k: Seq<char>| k != key implies lookup(out, k) == lookup(es, k) by {
            lemma_find_key(es, k);
            let f = find_key(es, k);
            if f < es.len() {
                lemma_lookup_first(out, k, f as int);
            } else {
                lemma_no_key(out, k);
            }
            lemma_find_key(out, k);
        }
        assert forall|j: int| 0 <= j < es.len() implies out[j].0 != key by {}
        lemma_lookup_first(out, key, es.len() as int);
        lemma_find_key(out, key);
    }
}

/// On parsed documents, rewriting keeps every member other than `model` and
/// `max_tokens` at its place with its value; members that are added are only
/// those two.
pub proof fn lemma_rewrite_preserves_members(es: Seq<(Seq<char>, JsonV)>, model: Option<Seq<char>>)
    ensures
        ({
            let out = with_max_tokens(with_model(es, model));
            &&& out.len() >= es.len()
            &&& forall|i: int|
                0 <= i < es.len() && es[i].0 != "model"@ && es[i].0 != "max_tokens"@ ==> out[i]
                    == es[i]
            &&& forall|i: int|
                es.len() <= i < out.len() ==> out[i].0 == "model"@ || out[i].0 == "max_tokens"@
            &&& forall|k: Seq<char>|
                k != "model"@ && k != "max_tokens"@ ==> lookup(out, k) == lookup(es, k)
        }),
{
    let es1 = with_model(es, model);
    if let Some(m) = model {
        lemma_set_member(es, "model"@, JsonV::Str(m));
    }
    let out = with_max_tokens(es1);
    lemma_set_member(es1, "max_tokens"@, JsonV::Number(default_max_tokens_text()));
}

/// Rewriting a rewritten document again without a model override changes
/// nothing (stated on parsed documents).
pub proof fn lemma_rewrite_idempotent(j: JsonV, model: Option<Seq<char>>)
    ensures
        rewrite_spec(rewrite_spec(j, model), None) == rewrite_spec(j, model),
{
    if let JsonV::Object(es) = j {
        let es1 = with_model(es, model);
        lemma_set_member(es1, "max_tokens"@, JsonV::Number(default_max_tokens_text()));
    }
}

} // verus!
