//! OpenInference attributes of OpenAI-format chat payloads, as sent to and
//! received from a compare endpoint that speaks that format.

use crate::attributes::{attrs_view, lit_attr, out_tool_attr, out_tool_key, push_tokens, str_attr, token_attrs, AttrV, SpanAttribute};
use crate::json::{array_in, at_in, decode_json, encode, entries_view, get_in, i64_in, items_view, json_decoded, lemma_entries_view, lemma_items_view, opt_array, opt_at, opt_get, opt_i64, opt_str, str_in, to_text, Json, JsonV};
use crate::request_attrs::{in_msg_attr, in_msg_key, in_tool_attr, in_tool_key, param_members, push_tools, tools_attrs};
use crate::telemetry::set_attributes;
use vstd::prelude::*;
use vstd::string::StringSliceAdditionalSpecFns;

verus! {

broadcast use vstd::std_specs::vec::group_vec_axioms, vstd::seq::group_seq_axioms;

pub open spec fn tc_key(msg: Option<nat>, j: nat, field: Seq<char>) -> Seq<char> {
    match msg {
        Some(i) => in_tool_key(i, j, field),
        None => out_tool_key(j, field),
    }
}

/// Attributes of the `tool_calls` list `tcs`.
pub open spec fn tool_calls_attrs(msg: Option<nat>, tcs: Seq<JsonV>) -> Seq<AttrV>
    decreases tcs.len(),
{
    if tcs.len() == 0 {
        Seq::empty()
    } else {
        let j = (tcs.len() - 1) as nat;
        let prev = tool_calls_attrs(msg, tcs.drop_last());
        match tcs.last().get("function"@) {
            Some(f) => {
                let a = match opt_str(f.get("name"@)) {
                    Some(n) => prev.push(str_attr(tc_key(msg, j, "name"@), n)),
                    None => prev,
                };
                match opt_str(f.get("arguments"@)) {
                    Some(x) => a.push(str_attr(tc_key(msg, j, "arguments"@), x)),
                    None => a,
                }
            },
            None => prev,
        }
    }
}

pub open spec fn opt_tool_calls_attrs(msg: Option<nat>, m: JsonV) -> Seq<AttrV> {
    match opt_array(m.get("tool_calls"@)) {
        Some(tcs) => tool_calls_attrs(msg, tcs),
        None => Seq::empty(),
    }
}

/// Attributes of the chat message `m` shown at index `i`.
pub open spec fn chat_message_attrs(i: nat, m: JsonV) -> Seq<AttrV> {
    let role = match opt_str(m.get("role"@)) {
        Some(r) => seq![str_attr(in_msg_key(i, "role"@), r)],
        None => Seq::empty(),
    };
    let content = match opt_str(m.get("content"@)) {
        Some(c) => seq![str_attr(in_msg_key(i, "content"@), c)],
        None => Seq::empty(),
    };
    role + content + opt_tool_calls_attrs(Some(i), m)
}

pub open spec fn chat_messages_attrs(ms: Seq<JsonV>) -> Seq<AttrV>
    decreases ms.len(),
{
    if ms.len() == 0 {
        Seq::empty()
    } else {
        chat_messages_attrs(ms.drop_last()) + chat_message_attrs((ms.len() - 1) as nat, ms.last())
    }
}

pub open spec fn chat_param_names() -> Seq<Seq<char>> {
    seq!["max_completion_tokens"@, "temperature"@, "top_p"@, "stop"@]
}

/// Attributes of an OpenAI-format chat request.
pub open spec fn chat_request_attrs(req: JsonV) -> Seq<AttrV> {
    let head = seq![str_attr("openinference.span.kind"@, "LLM"@)];
    let model = match opt_str(req.get("model"@)) {
        Some(m) => seq![str_attr("llm.model_name"@, m)],
        None => Seq::empty(),
    };
    let input = match req.get("messages"@) {
        Some(m) => seq![str_attr("input.value"@, encode(m))],
        None => Seq::empty(),
    };
    let params = seq![
        str_attr(
            "llm.invocation_parameters"@,
            encode(JsonV::Object(param_members(req, chat_param_names()))),
        ),
    ];
    let msgs = match opt_array(req.get("messages"@)) {
        Some(ms) => chat_messages_attrs(ms),
        None => Seq::empty(),
    };
    let tools = match opt_array(req.get("tools"@)) {
        Some(ts) => tools_attrs(ts),
        None => Seq::empty(),
    };
    head + model + input + params + msgs + tools
}

/// Attributes of an OpenAI-format chat response `d` whose text is `body`.
pub open spec fn chat_response_attrs(body: Seq<char>, d: JsonV) -> Seq<AttrV> {
    let head = seq![str_attr("output.value"@, body)];
    match opt_at(d.get("choices"@), 0) {
        None => head,
        Some(choice) => {
            let msg = match choice.get("message"@) {
                Some(m) => {
                    let role = match opt_str(m.get("role"@)) {
                        Some(r) => seq![str_attr("llm.output_messages.0.message.role"@, r)],
                        None => Seq::empty(),
                    };
                    let content = match opt_str(m.get("content"@)) {
                        Some(c) => seq![str_attr("llm.output_messages.0.message.content"@, c)],
                        None => Seq::empty(),
                    };
                    role + content + opt_tool_calls_attrs(None, m)
                },
                None => Seq::empty(),
            };
            let usage = d.get("usage"@);
            head + msg + token_attrs(
                opt_i64(opt_get(usage, "prompt_tokens"@)),
                opt_i64(opt_get(usage, "completion_tokens"@)),
            )
        },
    }
}

fn tc_attr(msg: Option<usize>, j: usize, field: &str, v: String) -> (r: SpanAttribute)
    ensures
        r@ == str_attr(
            tc_key(
                match msg {
                    Some(i) => Some(i as nat),
                    None => None,
                },
                j as nat,
                field@,
            ),
            v@,
        ),
{
    match msg {
        Some(i) => in_tool_attr(i, j, field, v),
        None => out_tool_attr(j, field, v),
    }
}

fn push_tool_calls(out: &mut Vec<SpanAttribute>, msg: Option<usize>, m: &Json)
    ensures
        attrs_view(final(out)@) == attrs_view(old(out)@) + opt_tool_calls_attrs(
            match msg {
                Some(i) => Some(i as nat),
                None => None,
            },
            m@,
        ),
{
    let ghost mv = match msg {
        Some(i) => Some(i as nat),
        None => None,
    };
    let ghost pre = attrs_view(out@);
    match array_in(m.get("tool_calls")) {
        Some(tcs) => {
            proof {
                lemma_items_view(tcs@);
            }
            let ghost tv = items_view(tcs@);
            let mut j: usize = 0;
            while j < tcs.len()
                invariant
                    0 <= j <= tcs.len(),
                    tv == items_view(tcs@),
                    tv.len() == tcs@.len(),
                    forall|q: int| 0 <= q < tcs@.len() ==> #[trigger] tv[q] == tcs@[q]@,
                    mv == match msg {
                        Some(i) => Some(i as nat),
                        None => None::<nat>,
                    },
                    attrs_view(out@) == pre + tool_calls_attrs(mv, tv.take(j as int)),
                decreases tcs.len() - j,
            {
                assert(tv.take(j + 1).drop_last() =~= tv.take(j as int));
                assert(tv.take(j + 1).last() == tcs@[j as int]@);
                let ghost before = attrs_view(out@);
                if let Some(f) = tcs[j].get("function") {
                    if let Some(n) = str_in(f.get("name")) {
                        let a = tc_attr(msg, j, "name", n.clone());
                        let ghost av = a@;
                        out.push(a);
                        assert(attrs_view(out@) =~= before.push(av));
                    }
                    let ghost mid = attrs_view(out@);
                    if let Some(x) = str_in(f.get("arguments")) {
                        let a = tc_attr(msg, j, "arguments", x.clone());
                        let ghost av = a@;
                        out.push(a);
                        assert(attrs_view(out@) =~= mid.push(av));
                    }
                }
                assert(attrs_view(out@) =~= pre + tool_calls_attrs(mv, tv.take(j + 1)));
                j = j + 1;
            }
            assert(tv.take(tcs@.len() as int) =~= tv);
        },
        None => {
            assert(attrs_view(out@) =~= pre + Seq::<AttrV>::empty());
        },
    }
}

fn push_chat_message(out: &mut Vec<SpanAttribute>, i: usize, m: &Json)
    ensures
        attrs_view(final(out)@) == attrs_view(old(out)@) + chat_message_attrs(i as nat, m@),
{
    let ghost pre = attrs_view(out@);
    if let Some(r) = str_in(m.get("role")) {
        let a = in_msg_attr(i, "role", r.clone());
        let ghost av = a@;
        out.push(a);
        assert(attrs_view(out@) =~= pre.push(av));
    }
    let ghost a1 = attrs_view(out@);
    if let Some(c) = str_in(m.get("content")) {
        let a = in_msg_attr(i, "content", c.clone());
        let ghost av = a@;
        out.push(a);
        assert(attrs_view(out@) =~= a1.push(av));
    }
    let ghost a2 = attrs_view(out@);
    push_tool_calls(out, Some(i), m);
    proof {
        let role = match opt_str(m@.get("role"@)) {
            Some(r) => seq![str_attr(in_msg_key(i as nat, "role"@), r)],
            None => Seq::<AttrV>::empty(),
        };
        let content = match opt_str(m@.get("content"@)) {
            Some(c) => seq![str_attr(in_msg_key(i as nat, "content"@), c)],
            None => Seq::<AttrV>::empty(),
        };
        assert(a1 =~= pre + role);
        assert(a2 =~= pre + role + content);
        assert(attrs_view(out@) =~= pre + chat_message_attrs(i as nat, m@));
    }
}

fn push_chat_params(out: &mut Vec<SpanAttribute>, req: &Json)
    ensures
        attrs_view(final(out)@) == attrs_view(old(out)@).push(
            str_attr(
                "llm.invocation_parameters"@,
                encode(JsonV::Object(param_members(req@, chat_param_names()))),
            ),
        ),
{
    let ghost pre = attrs_view(out@);
    let mut params: Vec<(String, Json)> = Vec::new();
    let names: [&str; 4] = ["max_completion_tokens", "temperature", "top_p", "stop"];
    proof {
        reveal_strlit("max_completion_tokens");
        reveal_strlit("temperature");
        reveal_strlit("top_p");
        reveal_strlit("stop");
    }
    let ghost nv = seq![names[0]@, names[1]@, names[2]@, names[3]@];
    assert(nv =~= chat_param_names());
    let mut k: usize = 0;
    while k < 4
        invariant
            0 <= k <= 4,
            nv == chat_param_names(),
            forall|q: int| 0 <= q < 4 ==> #[trigger] names@[q]@ == nv[q],
            entries_view(params@) == param_members(req@, nv.take(k as int)),
        decreases 4 - k,
    {
        assert(nv.take(k + 1).drop_last() =~= nv.take(k as int));
        assert(nv.take(k + 1).last() == names@[k as int]@);
        let ghost prev = params@;
        match req.get(names[k]) {
            Some(v) => {
                let c = v.deep_clone();
                params.push((names[k].to_string(), c));
                proof {
                    lemma_entries_view(params@);
                    lemma_entries_view(prev);
                    assert(entries_view(params@) =~= entries_view(prev).push(
                        (names@[k as int]@, v@),
                    ));
                }
            },
            None => {},
        }
        k = k + 1;
    }
    assert(nv.take(4) =~= nv);
    let obj = Json::Object(params);
    let text = to_text(&obj);
    out.push(lit_attr("llm.invocation_parameters", text));
    assert(attrs_view(out@) =~= pre.push(
        str_attr(
            "llm.invocation_parameters"@,
            encode(JsonV::Object(param_members(req@, chat_param_names()))),
        ),
    ));
}

fn push_chat_messages(out: &mut Vec<SpanAttribute>, req: &Json)
    ensures
        attrs_view(final(out)@) == attrs_view(old(out)@) + match opt_array(req@.get("messages"@)) {
            Some(ms) => chat_messages_attrs(ms),
            None => Seq::<AttrV>::empty(),
        },
{
    let ghost a3 = attrs_view(out@);
    if let Some(ms) = array_in(req.get("messages")) {
        proof {
            lemma_items_view(ms@);
        }
        let ghost mv = items_view(ms@);
        let mut i: usize = 0;
        while i < ms.len()
            invariant
                0 <= i <= ms.len(),
                mv == items_view(ms@),
                mv.len() == ms@.len(),
                forall|q: int| 0 <= q < ms@.len() ==> #[trigger] mv[q] == ms@[q]@,
                attrs_view(out@) == a3 + chat_messages_attrs(mv.take(i as int)),
            decreases ms.len() - i,
        {
            assert(mv.take(i + 1).drop_last() =~= mv.take(i as int));
            assert(mv.take(i + 1).last() == ms@[i as int]@);
            push_chat_message(out, i, &ms[i]);
            assert(attrs_view(out@) =~= a3 + chat_messages_attrs(mv.take(i + 1)));
            i = i + 1;
        }
        assert(mv.take(ms@.len() as int) =~= mv);
    }
    assert(attrs_view(out@) =~= a3 + match opt_array(req@.get("messages"@)) {
        Some(ms) => chat_messages_attrs(ms),
        None => Seq::<AttrV>::empty(),
    });
}

/// OpenInference attributes of an OpenAI-format chat request.
pub fn chat_request_attributes(req: &Json) -> (r: Vec<SpanAttribute>)
    ensures
        attrs_view(r@) == chat_request_attrs(req@),
{
    proof {
        reveal_strlit("LLM");
    }
    let mut out: Vec<SpanAttribute> = Vec::new();
    let x = lit_attr("openinference.span.kind", "LLM".to_string());
    let ghost xv = x@;
    out.push(x);
    assert(attrs_view(out@) =~= seq![xv]);
    let ghost a0 = attrs_view(out@);
    if let Some(m) = str_in(req.get("model")) {
        let a = lit_attr("llm.model_name", m.clone());
        let ghost av = a@;
        out.push(a);
        assert(attrs_view(out@) =~= a0.push(av));
    }
    let ghost a0m = attrs_view(out@);
    assert(a0m =~= a0 + match opt_str(req@.get("model"@)) {
        Some(m) => seq![str_attr("llm.model_name"@, m)],
        None => Seq::<AttrV>::empty(),
    });
    if let Some(m) = req.get("messages") {
        let a = lit_attr("input.value", to_text(m));
        let ghost av = a@;
        out.push(a);
        assert(attrs_view(out@) =~= a0m.push(av));
    }
    let ghost a1 = attrs_view(out@);
    assert(a1 =~= a0m + match req@.get("messages"@) {
        Some(m) => seq![str_attr("input.value"@, encode(m))],
        None => Seq::<AttrV>::empty(),
    });
    push_chat_params(&mut out, req);
    push_chat_messages(&mut out, req);
    push_tools(&mut out, req);
    assert(attrs_view(out@) =~= chat_request_attrs(req@));
    out
}

/// OpenInference attributes of an OpenAI-format chat response; none where
/// the text is not one JSON document.
pub fn chat_response_attributes(response_body: &str) -> (r: Vec<SpanAttribute>)
    ensures
        attrs_view(r@) == match json_decoded(response_body.spec_bytes()) {
            Some(d) => chat_response_attrs(response_body@, d),
            None => Seq::empty(),
        },
{
    let mut out: Vec<SpanAttribute> = Vec::new();
    let d = match decode_json(response_body.as_bytes()) {
        Some(d) => d,
        None => {
            assert(attrs_view(out@) =~= Seq::<AttrV>::empty());
            return out;
        },
    };
    let x = lit_attr("output.value", response_body.to_string());
    let ghost xv = x@;
    out.push(x);
    assert(attrs_view(out@) =~= seq![xv]);
    let ghost head = attrs_view(out@);
    let choice = match at_in(d.get("choices"), 0) {
        Some(c) => c,
        None => {
            return out;
        },
    };
    if let Some(m) = choice.get("message") {
        let ghost h0 = attrs_view(out@);
        if let Some(r) = str_in(m.get("role")) {
            let a = lit_attr("llm.output_messages.0.message.role", r.clone());
            let ghost av = a@;
            out.push(a);
            assert(attrs_view(out@) =~= h0.push(av));
        }
        let ghost h1 = attrs_view(out@);
        if let Some(c) = str_in(m.get("content")) {
            let a = lit_attr("llm.output_messages.0.message.content", c.clone());
            let ghost av = a@;
            out.push(a);
            assert(attrs_view(out@) =~= h1.push(av));
        }
        let ghost h2 = attrs_view(out@);
        push_tool_calls(&mut out, None, m);
        proof {
            let role = match opt_str(m@.get("role"@)) {
                Some(r) => seq![str_attr("llm.output_messages.0.message.role"@, r)],
                None => Seq::<AttrV>::empty(),
            };
            let content = match opt_str(m@.get("content"@)) {
                Some(c) => seq![str_attr("llm.output_messages.0.message.content"@, c)],
                None => Seq::<AttrV>::empty(),
            };
            assert(h1 =~= head + role);
            assert(h2 =~= head + role + content);
            assert(attrs_view(out@) =~= head + (role + content + opt_tool_calls_attrs(None, m@)));
        }
    }
    let ghost before_usage = attrs_view(out@);
    let usage = d.get("usage");
    push_tokens(
        &mut out,
        i64_in(get_in(usage, "prompt_tokens")),
        i64_in(get_in(usage, "completion_tokens")),
    );
    assert(attrs_view(out@) =~= chat_response_attrs(response_body@, d@));
    out
}

/// Sets the OpenInference attributes of an OpenAI-format chat request on
/// `span`.
pub fn set_shadow_request_attributes(span: &tracing::Span, req: &Json) {
    let attrs = chat_request_attributes(req);
    set_attributes(span, &attrs);
}

/// Sets the OpenInference attributes of an OpenAI-format chat response on
/// `span`; nothing where the body is not JSON.
pub fn set_shadow_response_attributes(span: &tracing::Span, response_body: &str) {
    let attrs = chat_response_attributes(response_body);
    set_attributes(span, &attrs);
}

} // verus!
