//! Conversion of an Anthropic Messages request into an OpenAI-format chat
//! completions request, for compare endpoints that speak that format.
//! Works on the generic document, so unknown content blocks are skipped
//! rather than refused.

use crate::json::{array_in, entries_view, items_view, lemma_entries_view, lemma_items_view, opt_str, str_eq, str_in, to_text, encode, Json, JsonV};
use crate::request_attrs::{system_join, Joined};
use vstd::prelude::*;

verus! {

broadcast use vstd::std_specs::vec::group_vec_axioms, vstd::seq::group_seq_axioms;

pub open spec fn jstr(s: Seq<char>) -> JsonV {
    JsonV::Str(s)
}

pub open spec fn obj2(k1: Seq<char>, v1: JsonV, k2: Seq<char>, v2: JsonV) -> JsonV {
    JsonV::Object(seq![(k1, v1), (k2, v2)])
}

pub open spec fn str_or(o: Option<Seq<char>>, d: Seq<char>) -> Seq<char> {
    match o {
        Some(s) => s,
        None => d,
    }
}

/// Text of the `system` member: a string, or the `text` of its blocks
/// joined with newlines.
pub open spec fn system_content(sys: JsonV) -> Seq<char> {
    match sys {
        JsonV::Str(s) => s,
        JsonV::Array(bs) => system_join(bs).text,
        _ => Seq::empty(),
    }
}

/// Concatenated `text` of the text blocks of a tool result.
pub open spec fn result_text(bs: Seq<JsonV>) -> Seq<char>
    decreases bs.len(),
{
    if bs.len() == 0 {
        Seq::empty()
    } else {
        let prev = result_text(bs.drop_last());
        let b = bs.last();
        if opt_str(b.get("type"@)) == Some("text"@) {
            match opt_str(b.get("text"@)) {
                Some(t) => prev + t,
                None => prev,
            }
        } else {
            prev
        }
    }
}

pub open spec fn tool_result_text(c: Option<JsonV>) -> Seq<char> {
    match c {
        Some(JsonV::Str(s)) => s,
        Some(JsonV::Array(bs)) => result_text(bs),
        _ => Seq::empty(),
    }
}

/// State while converting the blocks of a user message.
pub struct UserAcc {
    pub out: Seq<JsonV>,
    pub text: Seq<char>,
    pub pending: bool,
}

pub open spec fn user_message(text: Seq<char>) -> JsonV {
    obj2("role"@, jstr("user"@), "content"@, jstr(text))
}

pub open spec fn flush(acc: UserAcc) -> Seq<JsonV> {
    if acc.pending {
        acc.out.push(user_message(acc.text))
    } else {
        acc.out
    }
}

pub open spec fn user_step(acc: UserAcc, b: JsonV) -> UserAcc {
    let ty = str_or(opt_str(b.get("type"@)), ""@);
    if ty == "text"@ {
        match opt_str(b.get("text"@)) {
            Some(t) => UserAcc { text: acc.text + t, pending: true, ..acc },
            None => acc,
        }
    } else if ty == "tool_result"@ {
        let tool = JsonV::Object(
            seq![
                ("role"@, jstr("tool"@)),
                ("content"@, jstr(tool_result_text(b.get("content"@)))),
                ("tool_call_id"@, jstr(str_or(opt_str(b.get("tool_use_id"@)), ""@))),
            ],
        );
        UserAcc { out: flush(acc).push(tool), text: Seq::empty(), pending: false }
    } else if ty == "image"@ {
        UserAcc { text: acc.text + "[image]"@, pending: true, ..acc }
    } else {
        acc
    }
}

pub open spec fn user_fold(bs: Seq<JsonV>, out: Seq<JsonV>) -> UserAcc
    decreases bs.len(),
{
    if bs.len() == 0 {
        UserAcc { out, text: Seq::empty(), pending: false }
    } else {
        user_step(user_fold(bs.drop_last(), out), bs.last())
    }
}

/// Chat messages for the blocks of a user message, appended to `out`.
pub open spec fn user_blocks(bs: Seq<JsonV>, out: Seq<JsonV>) -> Seq<JsonV> {
    flush(user_fold(bs, out))
}

/// State while converting the blocks of an assistant message.
pub struct AssistantAcc {
    pub text: Seq<char>,
    pub calls: Seq<JsonV>,
}

pub open spec fn tool_call(b: JsonV) -> JsonV {
    let input = match b.get("input"@) {
        Some(v) => v,
        None => JsonV::Object(Seq::empty()),
    };
    JsonV::Object(
        seq![
            ("id"@, jstr(str_or(opt_str(b.get("id"@)), ""@))),
            ("type"@, jstr("function"@)),
            (
                "function"@,
                obj2(
                    "name"@,
                    jstr(str_or(opt_str(b.get("name"@)), ""@)),
                    "arguments"@,
                    jstr(encode(input)),
                ),
            ),
        ],
    )
}

pub open spec fn assistant_fold(bs: Seq<JsonV>) -> AssistantAcc
    decreases bs.len(),
{
    if bs.len() == 0 {
        AssistantAcc { text: Seq::empty(), calls: Seq::empty() }
    } else {
        let acc = assistant_fold(bs.drop_last());
        let b = bs.last();
        let ty = str_or(opt_str(b.get("type"@)), ""@);
        if ty == "text"@ {
            match opt_str(b.get("text"@)) {
                Some(t) => AssistantAcc { text: acc.text + t, ..acc },
                None => acc,
            }
        } else if ty == "tool_use"@ {
            AssistantAcc { calls: acc.calls.push(tool_call(b)), ..acc }
        } else {
            acc
        }
    }
}

/// The one chat message of an assistant message's blocks.
pub open spec fn assistant_message(bs: Seq<JsonV>) -> JsonV {
    let acc = assistant_fold(bs);
    let a = seq![("role"@, jstr("assistant"@))];
    let b = if acc.text.len() > 0 {
        a.push(("content"@, jstr(acc.text)))
    } else {
        a
    };
    let c = if acc.calls.len() > 0 {
        b.push(("tool_calls"@, JsonV::Array(acc.calls)))
    } else {
        b
    };
    JsonV::Object(c)
}

/// Chat messages for one Anthropic message, appended to `out`.
pub open spec fn message_step(out: Seq<JsonV>, m: JsonV) -> Seq<JsonV> {
    let role = str_or(opt_str(m.get("role"@)), "user"@);
    match m.get("content"@) {
        Some(JsonV::Str(t)) => out.push(obj2("role"@, jstr(role), "content"@, jstr(t))),
        Some(JsonV::Array(bs)) => if role == "user"@ {
            user_blocks(bs, out)
        } else {
            out.push(assistant_message(bs))
        },
        _ => out,
    }
}

pub open spec fn messages_fold(ms: Seq<JsonV>, out: Seq<JsonV>) -> Seq<JsonV>
    decreases ms.len(),
{
    if ms.len() == 0 {
        out
    } else {
        message_step(messages_fold(ms.drop_last(), out), ms.last())
    }
}

pub open spec fn convert_tool(t: JsonV) -> JsonV {
    let desc = match t.get("description"@) {
        Some(d) => d,
        None => JsonV::Null,
    };
    let params = match t.get("input_schema"@) {
        Some(p) => p,
        None => JsonV::Object(Seq::empty()),
    };
    obj2(
        "type"@,
        jstr("function"@),
        "function"@,
        JsonV::Object(
            seq![
                ("name"@, jstr(str_or(opt_str(t.get("name"@)), ""@))),
                ("description"@, desc),
                ("parameters"@, params),
            ],
        ),
    )
}

pub open spec fn convert_tool_choice(tc: JsonV) -> JsonV {
    let ty = str_or(opt_str(tc.get("type"@)), "auto"@);
    if ty == "any"@ {
        jstr("required"@)
    } else if ty == "none"@ {
        jstr("none"@)
    } else if ty == "tool"@ {
        match opt_str(tc.get("name"@)) {
            Some(n) => obj2(
                "type"@,
                jstr("function"@),
                "function"@,
                JsonV::Object(seq![("name"@, jstr(n))]),
            ),
            None => jstr("auto"@),
        }
    } else {
        jstr("auto"@)
    }
}

pub open spec fn with_opt(es: Seq<(Seq<char>, JsonV)>, k: Seq<char>, o: Option<JsonV>) -> Seq<
    (Seq<char>, JsonV),
> {
    match o {
        Some(v) => es.push((k, v)),
        None => es,
    }
}

/// The OpenAI-format request for an Anthropic request document.
pub open spec fn openai_request(req: JsonV) -> JsonV {
    let sys = match req.get("system"@) {
        Some(s) => system_content(s),
        None => Seq::empty(),
    };
    let start: Seq<JsonV> = if sys.len() > 0 {
        seq![obj2("role"@, jstr("system"@), "content"@, jstr(sys))]
    } else {
        Seq::empty()
    };
    let msgs = match req.get("messages"@) {
        Some(JsonV::Array(ms)) => messages_fold(ms, start),
        _ => start,
    };
    let max = match req.get("max_tokens"@) {
        Some(v) => match v.as_u64() {
            Some(n) => n,
            None => 4096,
        },
        None => 4096,
    };
    let base = seq![
        ("model"@, jstr(str_or(opt_str(req.get("model"@)), "unknown"@))),
        ("messages"@, JsonV::Array(msgs)),
        ("max_completion_tokens"@, JsonV::Number(crate::attributes::decimal(max as nat))),
        ("stream"@, JsonV::Bool(false)),
    ];
    let a = with_opt(base, "temperature"@, req.get("temperature"@));
    let b = with_opt(a, "top_p"@, req.get("top_p"@));
    let c = with_opt(b, "stop"@, req.get("stop_sequences"@));
    let d = match req.get("tools"@) {
        Some(JsonV::Array(ts)) => c.push(("tools"@, JsonV::Array(ts.map_values(|t: JsonV| convert_tool(t))))),
        _ => c,
    };
    let e = match req.get("tool_choice"@) {
        Some(tc) => d.push(("tool_choice"@, convert_tool_choice(tc))),
        None => d,
    };
    JsonV::Object(e)
}

fn jstr_exec(s: &str) -> (r: Json)
    ensures
        r@ == jstr(s@),
{
    Json::Str(s.to_string())
}

fn obj2_exec(k1: &str, v1: Json, k2: &str, v2: Json) -> (r: Json)
    ensures
        r@ == obj2(k1@, v1@, k2@, v2@),
{
    let mut es: Vec<(String, Json)> = Vec::new();
    es.push((k1.to_string(), v1));
    es.push((k2.to_string(), v2));
    proof {
        lemma_entries_view(es@);
        assert(entries_view(es@) =~= seq![(k1@, v1@), (k2@, v2@)]);
    }
    Json::Object(es)
}

fn obj3_exec(k1: &str, v1: Json, k2: &str, v2: Json, k3: &str, v3: Json) -> (r: Json)
    ensures
        r@ == JsonV::Object(seq![(k1@, v1@), (k2@, v2@), (k3@, v3@)]),
{
    let mut es: Vec<(String, Json)> = Vec::new();
    es.push((k1.to_string(), v1));
    es.push((k2.to_string(), v2));
    es.push((k3.to_string(), v3));
    proof {
        lemma_entries_view(es@);
        assert(entries_view(es@) =~= seq![(k1@, v1@), (k2@, v2@), (k3@, v3@)]);
    }
    Json::Object(es)
}

fn str_or_exec(o: Option<&String>, d: &str) -> (r: String)
    ensures
        r@ == str_or(
            match o {
                Some(s) => Some(s@),
                None => None,
            },
            d@,
        ),
{
    match o {
        Some(s) => s.clone(),
        None => d.to_string(),
    }
}

pub open spec fn json_vec_view(v: Seq<Json>) -> Seq<JsonV> {
    items_view(v)
}

proof fn lemma_items_push(v: Seq<Json>, x: Json)
    ensures
        items_view(v.push(x)) == items_view(v).push(x@),
{
    assert(v.push(x).drop_last() =~= v);
}

fn push_json(v: &mut Vec<Json>, x: Json)
    ensures
        items_view(final(v)@) == items_view(old(v)@).push(x@),
{
    let ghost xv = x@;
    let ghost pre = v@;
    v.push(x);
    proof {
        lemma_items_push(pre, x);
    }
}

fn system_content_exec(sys: &Json) -> (r: String)
    ensures
        r@ == system_content(sys@),
{
    match sys {
        Json::Str(s) => s.clone(),
        Json::Array(bs) => {
            proof {
                lemma_items_view(bs@);
            }
            let ghost bv = items_view(bs@);
            let mut text = String::new();
            let mut any = false;
            let mut i: usize = 0;
            while i < bs.len()
                invariant
                    0 <= i <= bs.len(),
                    bv == items_view(bs@),
                    bv.len() == bs@.len(),
                    forall|k: int| 0 <= k < bs@.len() ==> #[trigger] bv[k] == bs@[k]@,
                    system_join(bv.take(i as int)) == (Joined { text: text@, any }),
                decreases bs.len() - i,
            {
                assert(bv.take(i + 1).drop_last() =~= bv.take(i as int));
                assert(bv.take(i + 1).last() == bs@[i as int]@);
                if let Some(t) = str_in(bs[i].get("text")) {
                    if any {
                        text.append("\n");
                        text.append(t.as_str());
                    } else {
                        text = t.clone();
                        any = true;
                    }
                }
                i = i + 1;
            }
            assert(bv.take(bs@.len() as int) =~= bv);
            text
        },
        _ => String::new(),
    }
}

fn result_text_exec(c: Option<&Json>) -> (r: String)
    ensures
        r@ == tool_result_text(crate::json::opt_view(c)),
{
    match c {
        Some(Json::Str(s)) => s.clone(),
        Some(Json::Array(bs)) => {
            proof {
                lemma_items_view(bs@);
            }
            let ghost bv = items_view(bs@);
            assert(crate::json::opt_view(c) == Some(JsonV::Array(bv)));
            let mut text = String::new();
            let mut i: usize = 0;
            while i < bs.len()
                invariant
                    0 <= i <= bs.len(),
                    bv == items_view(bs@),
                    bv.len() == bs@.len(),
                    forall|k: int| 0 <= k < bs@.len() ==> #[trigger] bv[k] == bs@[k]@,
                    text@ == result_text(bv.take(i as int)),
                decreases bs.len() - i,
            {
                assert(bv.take(i + 1).drop_last() =~= bv.take(i as int));
                assert(bv.take(i + 1).last() == bs@[i as int]@);
                let is_text = match str_in(bs[i].get("type")) {
                    Some(t) => str_eq(t.as_str(), "text"),
                    None => false,
                };
                if is_text {
                    if let Some(t) = str_in(bs[i].get("text")) {
                        text.append(t.as_str());
                    }
                }
                i = i + 1;
            }
            assert(bv.take(bs@.len() as int) =~= bv);
            text
        },
        _ => String::new(),
    }
}

fn user_blocks_exec(bs: &Vec<Json>, out: &mut Vec<Json>)
    ensures
        items_view(final(out)@) == user_blocks(items_view(bs@), items_view(old(out)@)),
{
    proof {
        lemma_items_view(bs@);
    }
    let ghost bv = items_view(bs@);
    let ghost out0 = items_view(out@);
    let mut text = String::new();
    let mut pending = false;
    let mut i: usize = 0;
    while i < bs.len()
        invariant
            0 <= i <= bs.len(),
            bv == items_view(bs@),
            bv.len() == bs@.len(),
            forall|k: int| 0 <= k < bs@.len() ==> #[trigger] bv[k] == bs@[k]@,
            user_fold(bv.take(i as int), out0) == (UserAcc {
                out: items_view(out@),
                text: text@,
                pending,
            }),
        decreases bs.len() - i,
    {
        assert(bv.take(i + 1).drop_last() =~= bv.take(i as int));
        assert(bv.take(i + 1).last() == bs@[i as int]@);
        let b = &bs[i];
        let ghost next = user_step(
            UserAcc { out: items_view(out@), text: text@, pending },
            b@,
        );
        let ty = str_or_exec(str_in(b.get("type")), "");
        if str_eq(ty.as_str(), "text") {
            if let Some(t) = str_in(b.get("text")) {
                text.append(t.as_str());
                pending = true;
            }
        } else if str_eq(ty.as_str(), "tool_result") {
            if pending {
                let m = obj2_exec("role", jstr_exec("user"), "content", Json::Str(text));
                push_json(out, m);
            }
            let content = result_text_exec(b.get("content"));
            let id = str_or_exec(str_in(b.get("tool_use_id")), "");
            let t = obj3_exec(
                "role",
                jstr_exec("tool"),
                "content",
                Json::Str(content),
                "tool_call_id",
                Json::Str(id),
            );
            push_json(out, t);
            text = String::new();
            pending = false;
        } else if str_eq(ty.as_str(), "image") {
            text.append("[image]");
            pending = true;
        }
        assert(next == (UserAcc { out: items_view(out@), text: text@, pending }));
        i = i + 1;
    }
    assert(bv.take(bs@.len() as int) =~= bv);
    if pending {
        let m = obj2_exec("role", jstr_exec("user"), "content", Json::Str(text));
        push_json(out, m);
    }
}

fn tool_call_exec(b: &Json) -> (r: Json)
    ensures
        r@ == tool_call(b@),
{
    let input = match b.get("input") {
        Some(v) => v.deep_clone(),
        None => {
            let e: Vec<(String, Json)> = Vec::new();
            assert(entries_view(e@) =~= Seq::<(Seq<char>, JsonV)>::empty());
            Json::Object(e)
        },
    };
    assert(input@ == match b@.get("input"@) {
        Some(v) => v,
        None => JsonV::Object(Seq::empty()),
    });
    let args = to_text(&input);
    let f = obj2_exec(
        "name",
        Json::Str(str_or_exec(str_in(b.get("name")), "")),
        "arguments",
        Json::Str(args),
    );
    obj3_exec("id", Json::Str(str_or_exec(str_in(b.get("id")), "")), "type", jstr_exec("function"), "function", f)
}

fn assistant_message_exec(bs: &Vec<Json>) -> (r: Json)
    ensures
        r@ == assistant_message(items_view(bs@)),
{
    proof {
        lemma_items_view(bs@);
    }
    let ghost bv = items_view(bs@);
    let mut text = String::new();
    let mut calls: Vec<Json> = Vec::new();
    let mut i: usize = 0;
    while i < bs.len()
        invariant
            0 <= i <= bs.len(),
            bv == items_view(bs@),
            bv.len() == bs@.len(),
            forall|k: int| 0 <= k < bs@.len() ==> #[trigger] bv[k] == bs@[k]@,
            assistant_fold(bv.take(i as int)) == (AssistantAcc {
                text: text@,
                calls: items_view(calls@),
            }),
        decreases bs.len() - i,
    {
        assert(bv.take(i + 1).drop_last() =~= bv.take(i as int));
        assert(bv.take(i + 1).last() == bs@[i as int]@);
        let b = &bs[i];
        let ty = str_or_exec(str_in(b.get("type")), "");
        if str_eq(ty.as_str(), "text") {
            if let Some(t) = str_in(b.get("text")) {
                text.append(t.as_str());
            }
        } else if str_eq(ty.as_str(), "tool_use") {
            push_json(&mut calls, tool_call_exec(b));
        }
        i = i + 1;
    }
    assert(bv.take(bs@.len() as int) =~= bv);
    let mut es: Vec<(String, Json)> = Vec::new();
    es.push(("role".to_string(), jstr_exec("assistant")));
    proof {
        lemma_entries_view(es@);
    }
    let ghost a = entries_view(es@);
    if !text.as_str().is_empty() {
        es.push(("content".to_string(), Json::Str(text)));
    }
    proof {
        lemma_entries_view(es@);
    }
    let ghost b2 = entries_view(es@);
    let has_calls = calls.len() > 0;
    proof {
        lemma_items_view(calls@);
    }
    if has_calls {
        es.push(("tool_calls".to_string(), Json::Array(calls)));
    }
    proof {
        lemma_entries_view(es@);
        let acc = assistant_fold(bv);
        let sa = seq![("role"@, jstr("assistant"@))];
        assert(a =~= sa);
        let sb = if acc.text.len() > 0 {
            sa.push(("content"@, jstr(acc.text)))
        } else {
            sa
        };
        assert(b2 =~= sb);
        let sc = if acc.calls.len() > 0 {
            sb.push(("tool_calls"@, JsonV::Array(acc.calls)))
        } else {
            sb
        };
        assert(entries_view(es@) =~= sc);
    }
    Json::Object(es)
}

fn message_step_exec(out: &mut Vec<Json>, m: &Json)
    ensures
        items_view(final(out)@) == message_step(items_view(old(out)@), m@),
{
    let role = str_or_exec(str_in(m.get("role")), "user");
    match m.get("content") {
        Some(Json::Str(t)) => {
            let x = obj2_exec("role", Json::Str(role), "content", Json::Str(t.clone()));
            push_json(out, x);
        },
        Some(Json::Array(bs)) => {
            if str_eq(role.as_str(), "user") {
                user_blocks_exec(bs, out);
            } else {
                let x = assistant_message_exec(bs);
                push_json(out, x);
            }
        },
        _ => {},
    }
}

fn convert_tool_exec(t: &Json) -> (r: Json)
    ensures
        r@ == convert_tool(t@),
{
    let desc = match t.get("description") {
        Some(d) => d.deep_clone(),
        None => Json::Null,
    };
    let params = match t.get("input_schema") {
        Some(p) => p.deep_clone(),
        None => {
            let e: Vec<(String, Json)> = Vec::new();
            assert(entries_view(e@) =~= Seq::<(Seq<char>, JsonV)>::empty());
            Json::Object(e)
        },
    };
    let f = obj3_exec(
        "name",
        Json::Str(str_or_exec(str_in(t.get("name")), "")),
        "description",
        desc,
        "parameters",
        params,
    );
    obj2_exec("type", jstr_exec("function"), "function", f)
}

fn convert_tool_choice_exec(tc: &Json) -> (r: Json)
    ensures
        r@ == convert_tool_choice(tc@),
{
    let ty = str_or_exec(str_in(tc.get("type")), "auto");
    if str_eq(ty.as_str(), "any") {
        jstr_exec("required")
    } else if str_eq(ty.as_str(), "none") {
        jstr_exec("none")
    } else if str_eq(ty.as_str(), "tool") {
        match str_in(tc.get("name")) {
            Some(n) => {
                let mut es: Vec<(String, Json)> = Vec::new();
                es.push(("name".to_string(), Json::Str(n.clone())));
                proof {
                    lemma_entries_view(es@);
                    assert(entries_view(es@) =~= seq![("name"@, jstr(n@))]);
                }
                obj2_exec("type", jstr_exec("function"), "function", Json::Object(es))
            },
            None => jstr_exec("auto"),
        }
    } else {
        jstr_exec("auto")
    }
}

fn push_member(es: &mut Vec<(String, Json)>, k: &str, v: Json)
    ensures
        entries_view(final(es)@) == entries_view(old(es)@).push((k@, v@)),
{
    let ghost pre = es@;
    es.push((k.to_string(), v));
    proof {
        assert(es@.drop_last() =~= pre);
    }
}

fn push_opt_member(es: &mut Vec<(String, Json)>, k: &str, o: Option<&Json>)
    ensures
        entries_view(final(es)@) == with_opt(entries_view(old(es)@), k@, crate::json::opt_view(o)),
{
    if let Some(v) = o {
        push_member(es, k, v.deep_clone());
    }
}

/// The OpenAI-format chat completions request for an Anthropic Messages
/// request document.
pub fn anthropic_to_openai(req: &Json) -> (r: Json)
    ensures
        r@ == openai_request(req@),
{
    let sys = match req.get("system") {
        Some(s) => system_content_exec(s),
        None => String::new(),
    };
    let mut msgs: Vec<Json> = Vec::new();
    if !sys.as_str().is_empty() {
        let m = obj2_exec("role", jstr_exec("system"), "content", Json::Str(sys));
        push_json(&mut msgs, m);
    }
    let ghost start = items_view(msgs@);
    proof {
        assert(items_view(Seq::<Json>::empty()) =~= Seq::<JsonV>::empty());
        let sysv = match req@.get("system"@) {
            Some(sv) => system_content(sv),
            None => Seq::empty(),
        };
        assert(sys@ == sysv);
        assert(start == if sysv.len() > 0 {
            seq![obj2("role"@, jstr("system"@), "content"@, jstr(sysv))]
        } else {
            Seq::<JsonV>::empty()
        });
    }
    match req.get("messages") {
        Some(Json::Array(ms)) => {
            proof {
                lemma_items_view(ms@);
            }
            let ghost mv = items_view(ms@);
            let mut i: usize = 0;
            while i < ms.len()
                invariant
                    0 <= i <= ms.len(),
                    mv == items_view(ms@),
                    mv.len() == ms@.len(),
                    forall|k: int| 0 <= k < ms@.len() ==> #[trigger] mv[k] == ms@[k]@,
                    items_view(msgs@) == messages_fold(mv.take(i as int), start),
                decreases ms.len() - i,
            {
                assert(mv.take(i + 1).drop_last() =~= mv.take(i as int));
                assert(mv.take(i + 1).last() == ms@[i as int]@);
                message_step_exec(&mut msgs, &ms[i]);
                i = i + 1;
            }
            assert(mv.take(ms@.len() as int) =~= mv);
            assert(req@.get("messages"@) == Some(JsonV::Array(mv)));
        },
        _ => {},
    }
    assert(items_view(msgs@) == match req@.get("messages"@) {
        Some(JsonV::Array(ms)) => messages_fold(ms, start),
        _ => start,
    });
    let max = match req.get("max_tokens") {
        Some(v) => match v.as_u64() {
            Some(n) => n,
            None => 4096,
        },
        None => 4096,
    };
    let mut max_text = String::new();
    crate::attributes::push_decimal_u64(&mut max_text, max);
    assert(max_text@ =~= crate::attributes::decimal(max as nat));
    let mut es: Vec<(String, Json)> = Vec::new();
    proof {
        lemma_entries_view(es@);
    }
    let ghost msgsv = items_view(msgs@);
    push_member(&mut es, "model", Json::Str(str_or_exec(str_in(req.get("model")), "unknown")));
    push_member(&mut es, "messages", Json::Array(msgs));
    push_member(&mut es, "max_completion_tokens", Json::Number(max_text));
    push_member(&mut es, "stream", Json::Bool(false));
    let ghost base = seq![
        ("model"@, jstr(str_or(opt_str(req@.get("model"@)), "unknown"@))),
        ("messages"@, JsonV::Array(msgsv)),
        ("max_completion_tokens"@, JsonV::Number(crate::attributes::decimal(max as nat))),
        ("stream"@, JsonV::Bool(false)),
    ];
    assert(entries_view(es@) =~= base);
    push_opt_member(&mut es, "temperature", req.get("temperature"));
    push_opt_member(&mut es, "top_p", req.get("top_p"));
    push_opt_member(&mut es, "stop", req.get("stop_sequences"));
    let ghost before_tools = entries_view(es@);
    assert(before_tools == with_opt(
        with_opt(with_opt(base, "temperature"@, req@.get("temperature"@)), "top_p"@, req@.get("top_p"@)),
        "stop"@,
        req@.get("stop_sequences"@),
    ));
    match req.get("tools") {
        Some(Json::Array(ts)) => {
            proof {
                lemma_items_view(ts@);
            }
            let ghost tv = items_view(ts@);
            let mut out: Vec<Json> = Vec::new();
            let mut i: usize = 0;
            while i < ts.len()
                invariant
                    0 <= i <= ts.len(),
                    tv == items_view(ts@),
                    tv.len() == ts@.len(),
                    forall|k: int| 0 <= k < ts@.len() ==> #[trigger] tv[k] == ts@[k]@,
                    out@.len() == i,
                    forall|k: int| 0 <= k < i ==> #[trigger] out@[k]@ == convert_tool(tv[k]),
                decreases ts.len() - i,
            {
                out.push(convert_tool_exec(&ts[i]));
                i = i + 1;
            }
            proof {
                lemma_items_view(out@);
                assert(items_view(out@) =~= tv.map_values(|t: JsonV| convert_tool(t)));
            }
            push_member(&mut es, "tools", Json::Array(out));
        },
        _ => {},
    }
    let ghost after_tools = entries_view(es@);
    assert(after_tools == match req@.get("tools"@) {
        Some(JsonV::Array(ts)) => before_tools.push(
            ("tools"@, JsonV::Array(ts.map_values(|t: JsonV| convert_tool(t)))),
        ),
        _ => before_tools,
    });
    match req.get("tool_choice") {
        Some(tc) => push_member(&mut es, "tool_choice", convert_tool_choice_exec(tc)),
        None => {},
    }
    Json::Object(es)
}

/// A request that only probes quota: one user message, no tools, and a
/// `max_tokens` of at most 32.
pub open spec fn quota_check(req: JsonV) -> bool {
    match crate::json::opt_array(req.get("messages"@)) {
        None => false,
        Some(ms) => {
            let max = match crate::json::opt_u64(req.get("max_tokens"@)) {
                Some(n) => n,
                None => u64::MAX,
            };
            let has_tools = crate::json::opt_array(req.get("tools"@)) matches Some(t) && t.len() > 0;
            ms.len() == 1 && opt_str(ms[0].get("role"@)) == Some("user"@) && !has_tools && max <= 32
        },
    }
}

/// Whether a request only probes quota; such requests are not mirrored.
pub fn is_quota_check(req: &Json) -> (r: bool)
    ensures
        r == quota_check(req@),
{
    let ms = match array_in(req.get("messages")) {
        Some(m) => m,
        None => {
            return false;
        },
    };
    proof {
        lemma_items_view(ms@);
    }
    let max = match crate::json::u64_in(req.get("max_tokens")) {
        Some(n) => n,
        None => u64::MAX,
    };
    let has_tools = match array_in(req.get("tools")) {
        Some(t) => t.len() > 0,
        None => false,
    };
    proof {
        lemma_items_view(Seq::<Json>::empty());
    }
    let single_user = ms.len() == 1 && match str_in(ms[0].get("role")) {
        Some(r) => str_eq(r.as_str(), "user"),
        None => false,
    };
    single_user && !has_tools && max <= 32
}

/// `j` with its `model` member set to `m` (objects only).
pub open spec fn with_model_member(j: JsonV, m: Seq<char>) -> JsonV {
    match j {
        JsonV::Object(es) => JsonV::Object(crate::rewrite::set_member(es, "model"@, jstr(m))),
        _ => j,
    }
}

fn with_model_exec(j: Json, m: &str) -> (r: Json)
    ensures
        r@ == with_model_member(j@, m@),
{
    match j {
        Json::Object(es) => {
            let mut es = es;
            crate::rewrite::set_member_exec(&mut es, "model", Json::Str(m.to_string()));
            Json::Object(es)
        },
        _ => j,
    }
}

/// The OpenAI-format bodies to mirror a request to, one per model; `None`
/// where the request is not JSON or only probes quota.
pub fn shadow_request_bodies(request_bytes: &[u8], models: &Vec<String>) -> (r: Option<Vec<Json>>)
    ensures
        match crate::json::json_decoded(request_bytes@) {
            Some(d) => if quota_check(d) {
                r is None
            } else {
                r matches Some(v) && items_view(v@) == models@.map_values(
                    |m: String| with_model_member(openai_request(d), m@),
                )
            },
            None => r is None,
        },
{
    let req = match crate::json::decode_json(request_bytes) {
        Some(d) => d,
        None => {
            return None;
        },
    };
    if is_quota_check(&req) {
        return None;
    }
    let body = anthropic_to_openai(&req);
    let mut out: Vec<Json> = Vec::new();
    let mut i: usize = 0;
    while i < models.len()
        invariant
            0 <= i <= models.len(),
            body@ == openai_request(req@),
            out@.len() == i,
            forall|k: int|
                0 <= k < i ==> #[trigger] out@[k]@ == with_model_member(
                    openai_request(req@),
                    models@[k]@,
                ),
        decreases models.len() - i,
    {
        out.push(with_model_exec(body.deep_clone(), models[i].as_str()));
        i = i + 1;
    }
    proof {
        lemma_items_view(out@);
        assert(items_view(out@) =~= models@.map_values(
            |m: String| with_model_member(openai_request(req@), m@),
        ));
    }
    Some(out)
}

/// Why a request cannot be answered by the OpenAI-format endpoint alone.
#[derive(Debug, Clone, Copy, PartialEq, Eq, Structural)]
pub enum ShadowOnlyError {
    /// 400: the body is not JSON.
    InvalidJson,
    /// 502: no model is configured.
    NoModels,
}

/// The body sent when the OpenAI-format endpoint answers alone: the
/// converted request for the first configured model.
pub fn shadow_only_body(request_bytes: &[u8], models: &Vec<String>) -> (r: Result<Json, ShadowOnlyError>)
    ensures
        match crate::json::json_decoded(request_bytes@) {
            None => r == Err::<Json, ShadowOnlyError>(ShadowOnlyError::InvalidJson),
            Some(d) => if models@.len() == 0 {
                r == Err::<Json, ShadowOnlyError>(ShadowOnlyError::NoModels)
            } else {
                r matches Ok(j) && j@ == with_model_member(openai_request(d), models@[0]@)
            },
        },
{
    let req = match crate::json::decode_json(request_bytes) {
        Some(d) => d,
        None => {
            return Err(ShadowOnlyError::InvalidJson);
        },
    };
    let body = anthropic_to_openai(&req);
    if models.len() == 0 {
        return Err(ShadowOnlyError::NoModels);
    }
    Ok(with_model_exec(body, models[0].as_str()))
}

/// The `authorization` header value for an API key, if one is set.
pub fn bearer_header(api_key: &str) -> (r: Option<String>)
    ensures
        api_key@.len() == 0 ==> r is None,
        api_key@.len() > 0 ==> (r matches Some(h) && h@ == "Bearer "@ + api_key@),
{
    if api_key.is_empty() {
        None
    } else {
        let mut h = "Bearer ".to_string();
        h.append(api_key);
        Some(h)
    }
}

} // verus!
