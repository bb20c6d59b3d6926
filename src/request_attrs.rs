//! OpenInference span attributes of an Anthropic Messages request.

use crate::attributes::{
    attrs_view, decimal, indexed_key, lit_attr, push_decimal, str_attr, AttrV, AttrValue,
    SpanAttribute,
};
use crate::json::{
    array_in, encode, entries_view, items_view, lemma_items_view, opt_array, opt_str, str_eq,
    str_in, to_text, Json, JsonV,
};
use vstd::prelude::*;

verus! {

broadcast use vstd::std_specs::vec::group_vec_axioms, vstd::seq::group_seq_axioms;

/// Texts joined with a separator, as they are collected.
pub struct Joined {
    pub text: Seq<char>,
    pub any: bool,
}

pub open spec fn join_push(j: Joined, sep: Seq<char>, t: Seq<char>) -> Joined {
    if j.any {
        Joined { text: j.text + sep + t, any: true }
    } else {
        Joined { text: t, any: true }
    }
}

pub open spec fn no_text() -> Joined {
    Joined { text: Seq::empty(), any: false }
}

/// The `text` strings of the system blocks, joined with newlines.
pub open spec fn system_join(bs: Seq<JsonV>) -> Joined
    decreases bs.len(),
{
    if bs.len() == 0 {
        no_text()
    } else {
        let j = system_join(bs.drop_last());
        match opt_str(bs.last().get("text"@)) {
            Some(t) => join_push(j, "\n"@, t),
            None => j,
        }
    }
}

/// The system prompt text, if there is one to show.
pub open spec fn system_text(sys: JsonV) -> Option<Seq<char>> {
    match sys {
        JsonV::Str(s) => Some(s),
        JsonV::Array(bs) => {
            let j = system_join(bs);
            if j.any {
                Some(j.text)
            } else {
                None
            }
        },
        _ => None,
    }
}

pub open spec fn in_msg_key(i: nat, field: Seq<char>) -> Seq<char> {
    "llm.input_messages."@ + decimal(i) + ".message."@ + field
}

pub open spec fn in_tool_key(i: nat, j: nat, field: Seq<char>) -> Seq<char> {
    "llm.input_messages."@ + decimal(i) + ".message.tool_calls."@ + decimal(j)
        + ".tool_call.function."@ + field
}

/// What the blocks of one input message contribute.
pub struct MsgAcc {
    pub attrs: Seq<AttrV>,
    pub text: Joined,
    pub tools: nat,
}

pub open spec fn msg_block_step(i: nat, acc: MsgAcc, block: JsonV) -> MsgAcc {
    let ty = opt_str(block.get("type"@));
    if ty == Some("text"@) {
        match opt_str(block.get("text"@)) {
            Some(t) => MsgAcc { text: join_push(acc.text, "\n"@, t), ..acc },
            None => acc,
        }
    } else if ty == Some("tool_use"@) {
        let a1 = match opt_str(block.get("name"@)) {
            Some(n) => acc.attrs.push(str_attr(in_tool_key(i, acc.tools, "name"@), n)),
            None => acc.attrs,
        };
        let a2 = match block.get("input"@) {
            Some(v) => a1.push(str_attr(in_tool_key(i, acc.tools, "arguments"@), encode(v))),
            None => a1,
        };
        MsgAcc { attrs: a2, tools: acc.tools + 1, ..acc }
    } else if ty == Some("tool_result"@) {
        match opt_str(block.get("content"@)) {
            Some(c) => MsgAcc { text: join_push(acc.text, "\n"@, c), ..acc },
            None => acc,
        }
    } else {
        acc
    }
}

pub open spec fn msg_blocks_fold(i: nat, bs: Seq<JsonV>) -> MsgAcc
    decreases bs.len(),
{
    if bs.len() == 0 {
        MsgAcc { attrs: Seq::empty(), text: no_text(), tools: 0 }
    } else {
        msg_block_step(i, msg_blocks_fold(i, bs.drop_last()), bs.last())
    }
}

/// Attributes of the input message `msg` shown at index `i`.
pub open spec fn message_attrs(i: nat, msg: JsonV) -> Seq<AttrV> {
    let role = match opt_str(msg.get("role"@)) {
        Some(r) => seq![str_attr(in_msg_key(i, "role"@), r)],
        None => Seq::empty(),
    };
    let content = match msg.get("content"@) {
        Some(JsonV::Str(t)) => seq![str_attr(in_msg_key(i, "content"@), t)],
        Some(JsonV::Array(bs)) => {
            let acc = msg_blocks_fold(i, bs);
            acc.attrs + if acc.text.any {
                seq![str_attr(in_msg_key(i, "content"@), acc.text.text)]
            } else {
                Seq::empty()
            }
        },
        _ => Seq::empty(),
    };
    role + content
}

/// Attributes of the messages `ms`, the first shown at index `base`.
pub open spec fn messages_attrs(base: nat, ms: Seq<JsonV>) -> Seq<AttrV>
    decreases ms.len(),
{
    if ms.len() == 0 {
        Seq::empty()
    } else {
        messages_attrs(base, ms.drop_last()) + message_attrs(
            (base + ms.len() - 1) as nat,
            ms.last(),
        )
    }
}

pub open spec fn tools_attrs(ts: Seq<JsonV>) -> Seq<AttrV>
    decreases ts.len(),
{
    if ts.len() == 0 {
        Seq::empty()
    } else {
        tools_attrs(ts.drop_last()).push(
            str_attr(
                "llm.tools."@ + decimal((ts.len() - 1) as nat) + ".tool.json_schema"@,
                encode(ts.last()),
            ),
        )
    }
}

/// The members of `req` that are invocation parameters, in a fixed order.
pub open spec fn param_members(req: JsonV, names: Seq<Seq<char>>) -> Seq<(Seq<char>, JsonV)>
    decreases names.len(),
{
    if names.len() == 0 {
        Seq::empty()
    } else {
        let prev = param_members(req, names.drop_last());
        match req.get(names.last()) {
            Some(v) => prev.push((names.last(), v)),
            None => prev,
        }
    }
}

pub open spec fn param_names() -> Seq<Seq<char>> {
    seq!["max_tokens"@, "temperature"@, "top_p"@, "top_k"@, "stop_sequences"@]
}

/// Attributes of a request document.
pub open spec fn request_attrs(req: JsonV) -> Seq<AttrV> {
    let head = seq![
        str_attr("openinference.span.kind"@, "LLM"@),
        str_attr("llm.system"@, "anthropic"@),
    ];
    let model = match opt_str(req.get("model"@)) {
        Some(m) => seq![str_attr("llm.model_name"@, m)],
        None => Seq::empty(),
    };
    let input = match req.get("messages"@) {
        Some(m) => seq![str_attr("input.value"@, encode(m))],
        None => Seq::empty(),
    };
    let params = seq![
        str_attr(
            "llm.invocation_parameters"@,
            encode(JsonV::Object(param_members(req, param_names()))),
        ),
    ];
    let sys = match req.get("system"@) {
        Some(s) => system_text(s),
        None => None,
    };
    let sys_attrs = match sys {
        Some(t) => seq![
            str_attr(in_msg_key(0, "role"@), "system"@),
            str_attr(in_msg_key(0, "content"@), t),
        ],
        None => Seq::empty(),
    };
    let base: nat = if sys is Some {
        1
    } else {
        0
    };
    let msgs = match opt_array(req.get("messages"@)) {
        Some(ms) => messages_attrs(base, ms),
        None => Seq::empty(),
    };
    let tools = match opt_array(req.get("tools"@)) {
        Some(ts) => tools_attrs(ts),
        None => Seq::empty(),
    };
    head + model + input + params + sys_attrs + msgs + tools
}

fn join_push_exec(text: &mut String, any: &mut bool, t: &str)
    ensures
        join_push(Joined { text: old(text)@, any: *old(any) }, "\n"@, t@) == (Joined {
            text: final(text)@,
            any: *final(any),
        }),
{
    if *any {
        text.append("\n");
        text.append(t);
    } else {
        *text = t.to_string();
        *any = true;
    }
}

fn system_text_exec(sys: &Json) -> (r: Option<String>)
    ensures
        match r {
            Some(s) => system_text(sys@) == Some(s@),
            None => system_text(sys@) is None,
        },
{
    match sys {
        Json::Str(s) => Some(s.clone()),
        Json::Array(bs) => {
            proof {
                lemma_items_view(bs@);
            }
            let ghost bv = items_view(bs@);
            let mut text = String::new();
            let mut any = false;
            let mut i: usize = 0;
            while i < bs.len()
                invariant
                    0 <= i <= bs.len(),
                    bv == items_view(bs@),
                    bv.len() == bs@.len(),
                    forall|k: int| 0 <= k < bs@.len() ==> #[trigger] bv[k] == bs@[k]@,
                    system_join(bv.take(i as int)) == (Joined { text: text@, any }),
                decreases bs.len() - i,
            {
                assert(bv.take(i + 1).drop_last() =~= bv.take(i as int));
                assert(bv.take(i + 1).last() == bs@[i as int]@);
                if let Some(t) = str_in(bs[i].get("text")) {
                    join_push_exec(&mut text, &mut any, t.as_str());
                }
                i = i + 1;
            }
            assert(bv.take(bs@.len() as int) =~= bv);
            if any {
                Some(text)
            } else {
                None
            }
        },
        _ => None,
    }
}

pub(crate) fn in_msg_attr(i: usize, field: &str, v: String) -> (r: SpanAttribute)
    ensures
        r@ == str_attr(in_msg_key(i as nat, field@), v@),
{
    let mut k = indexed_key("llm.input_messages.", i, ".message.");
    k.append(field);
    SpanAttribute { key: k, value: AttrValue::Str(v) }
}

pub(crate) fn in_tool_attr(i: usize, j: usize, field: &str, v: String) -> (r: SpanAttribute)
    ensures
        r@ == str_attr(in_tool_key(i as nat, j as nat, field@), v@),
{
    let mut k = indexed_key("llm.input_messages.", i, ".message.tool_calls.");
    push_decimal(&mut k, j);
    k.append(".tool_call.function.");
    k.append(field);
    SpanAttribute { key: k, value: AttrValue::Str(v) }
}

fn push_message(out: &mut Vec<SpanAttribute>, i: usize, msg: &Json)
    ensures
        attrs_view(final(out)@) == attrs_view(old(out)@) + message_attrs(i as nat, msg@),
{
    let ghost pre = attrs_view(out@);
    if let Some(r) = str_in(msg.get("role")) {
        out.push(in_msg_attr(i, "role", r.clone()));
    }
    let ghost after_role = attrs_view(out@);
    assert(after_role =~= pre + match opt_str(msg@.get("role"@)) {
        Some(r) => seq![str_attr(in_msg_key(i as nat, "role"@), r)],
        None => Seq::<AttrV>::empty(),
    });
    match msg.get("content") {
        Some(Json::Str(t)) => {
            out.push(in_msg_attr(i, "content", t.clone()));
            assert(attrs_view(out@) =~= pre + message_attrs(i as nat, msg@));
        },
        Some(Json::Array(bs)) => {
            proof {
                lemma_items_view(bs@);
            }
            let ghost bv = items_view(bs@);
            let mut text = String::new();
            let mut any = false;
            let mut tools: usize = 0;
            let mut k: usize = 0;
            while k < bs.len()
                invariant
                    0 <= k <= bs.len(),
                    bv == items_view(bs@),
                    bv.len() == bs@.len(),
                    forall|q: int| 0 <= q < bs@.len() ==> #[trigger] bv[q] == bs@[q]@,
                    ({
                        let acc = msg_blocks_fold(i as nat, bv.take(k as int));
                        &&& attrs_view(out@) == after_role + acc.attrs
                        &&& acc.text == (Joined { text: text@, any })
                        &&& acc.tools == tools as nat
                    }),
                    tools <= k,
                decreases bs.len() - k,
            {
                assert(bv.take(k + 1).drop_last() =~= bv.take(k as int));
                assert(bv.take(k + 1).last() == bs@[k as int]@);
                let ghost before = out@;
                let block = &bs[k];
                let ty = str_in(block.get("type"));
                let (is_text, is_tool, is_result) = match ty {
                    Some(t) => (
                        str_eq(t.as_str(), "text"),
                        str_eq(t.as_str(), "tool_use"),
                        str_eq(t.as_str(), "tool_result"),
                    ),
                    None => (false, false, false),
                };
                proof {
                    reveal_strlit("text");
                    reveal_strlit("tool_use");
                    reveal_strlit("tool_result");
                }
                if is_text {
                    if let Some(t) = str_in(block.get("text")) {
                        join_push_exec(&mut text, &mut any, t.as_str());
                    }
                } else if is_tool {
                    if let Some(n) = str_in(block.get("name")) {
                        let a = in_tool_attr(i, tools, "name", n.clone());
                        let ghost av = a@;
                        out.push(a);
                        assert(attrs_view(out@) =~= attrs_view(before).push(av));
                    }
                    let ghost mid = out@;
                    if let Some(v) = block.get("input") {
                        let a = in_tool_attr(i, tools, "arguments", to_text(v));
                        let ghost av = a@;
                        out.push(a);
                        assert(attrs_view(out@) =~= attrs_view(mid).push(av));
                    }
                    tools = tools + 1;
                } else if is_result {
                    if let Some(c) = str_in(block.get("content")) {
                        join_push_exec(&mut text, &mut any, c.as_str());
                    }
                }
                assert(attrs_view(out@) =~= after_role + msg_blocks_fold(
                    i as nat,
                    bv.take(k + 1),
                ).attrs);
                k = k + 1;
            }
            assert(bv.take(bs@.len() as int) =~= bv);
            let ghost before_content = attrs_view(out@);
            let ghost acc = msg_blocks_fold(i as nat, bv);
            assert(msg@.get("content"@) == Some(JsonV::Array(bv)));
            if any {
                let a = in_msg_attr(i, "content", text);
                let ghost av = a@;
                out.push(a);
                assert(attrs_view(out@) =~= before_content.push(av));
            } else {
                assert(attrs_view(out@) =~= before_content);
            }
            assert(attrs_view(out@) =~= after_role + (acc.attrs + if acc.text.any {
                seq![str_attr(in_msg_key(i as nat, "content"@), acc.text.text)]
            } else {
                Seq::empty()
            }));
        },
        _ => {
            assert(attrs_view(out@) =~= pre + message_attrs(i as nat, msg@));
        },
    }
}

fn push_params(out: &mut Vec<SpanAttribute>, req: &Json)
    ensures
        attrs_view(final(out)@) == attrs_view(old(out)@).push(
            str_attr(
                "llm.invocation_parameters"@,
                encode(JsonV::Object(param_members(req@, param_names()))),
            ),
        ),
{
    let ghost pre = attrs_view(out@);
    let mut params: Vec<(String, Json)> = Vec::new();
    let names: [&str; 5] = ["max_tokens", "temperature", "top_p", "top_k", "stop_sequences"];
    proof {
        reveal_strlit("max_tokens");
        reveal_strlit("temperature");
        reveal_strlit("top_p");
        reveal_strlit("top_k");
        reveal_strlit("stop_sequences");
    }
    let ghost nv = seq![names[0]@, names[1]@, names[2]@, names[3]@, names[4]@];
    assert(nv =~= param_names());
    let mut k: usize = 0;
    while k < 5
        invariant
            0 <= k <= 5,
            nv == param_names(),
            forall|q: int| 0 <= q < 5 ==> #[trigger] names@[q]@ == nv[q],
            entries_view(params@) == param_members(req@, nv.take(k as int)),
        decreases 5 - k,
    {
        assert(nv.take(k + 1).drop_last() =~= nv.take(k as int));
        assert(nv.take(k + 1).last() == names@[k as int]@);
        let ghost prev = params@;
        match req.get(names[k]) {
            Some(v) => {
                let c = v.deep_clone();
                params.push((names[k].to_string(), c));
                proof {
                    crate::json::lemma_entries_view(params@);
                    crate::json::lemma_entries_view(prev);
                    assert(entries_view(params@) =~= entries_view(prev).push((names@[k as int]@, v@)));
                }
            },
            None => {},
        }
        k = k + 1;
    }
    assert(nv.take(5) =~= nv);
    let obj = Json::Object(params);
    let text = to_text(&obj);
    out.push(lit_attr("llm.invocation_parameters", text));
    assert(attrs_view(out@) =~= pre.push(
        str_attr(
            "llm.invocation_parameters"@,
            encode(JsonV::Object(param_members(req@, param_names()))),
        ),
    ));
}

fn push_messages(out: &mut Vec<SpanAttribute>, base: usize, req: &Json)
    requires
        base <= 1,
    ensures
        attrs_view(final(out)@) == attrs_view(old(out)@) + match opt_array(req@.get("messages"@)) {
            Some(ms) => messages_attrs(base as nat, ms),
            None => Seq::<AttrV>::empty(),
        },
{
    let ghost a3 = attrs_view(out@);
    if let Some(ms) = array_in(req.get("messages")) {
        proof {
            lemma_items_view(ms@);
        }
        let ghost mv = items_view(ms@);
        let mut i: usize = 0;
        while i < ms.len()
            invariant
                0 <= i <= ms.len(),
                base <= 1,
                mv == items_view(ms@),
                mv.len() == ms@.len(),
                forall|q: int| 0 <= q < ms@.len() ==> #[trigger] mv[q] == ms@[q]@,
                attrs_view(out@) == a3 + messages_attrs(base as nat, mv.take(i as int)),
            decreases ms.len() - i,
        {
            assert(mv.take(i + 1).drop_last() =~= mv.take(i as int));
            assert(mv.take(i + 1).last() == ms@[i as int]@);
            push_message(out, base + i, &ms[i]);
            assert(attrs_view(out@) =~= a3 + messages_attrs(base as nat, mv.take(i + 1)));
            i = i + 1;
        }
        assert(mv.take(ms@.len() as int) =~= mv);
    }
    assert(attrs_view(out@) =~= a3 + match opt_array(req@.get("messages"@)) {
        Some(ms) => messages_attrs(base as nat, ms),
        None => Seq::<AttrV>::empty(),
    });
}

pub(crate) fn push_tools(out: &mut Vec<SpanAttribute>, req: &Json)
    ensures
        attrs_view(final(out)@) == attrs_view(old(out)@) + match opt_array(req@.get("tools"@)) {
            Some(ts) => tools_attrs(ts),
            None => Seq::<AttrV>::empty(),
        },
{
    let ghost a4 = attrs_view(out@);
    if let Some(ts) = array_in(req.get("tools")) {
        proof {
            lemma_items_view(ts@);
        }
        let ghost tv = items_view(ts@);
        let mut i: usize = 0;
        while i < ts.len()
            invariant
                0 <= i <= ts.len(),
                tv == items_view(ts@),
                tv.len() == ts@.len(),
                forall|q: int| 0 <= q < ts@.len() ==> #[trigger] tv[q] == ts@[q]@,
                attrs_view(out@) == a4 + tools_attrs(tv.take(i as int)),
            decreases ts.len() - i,
        {
            assert(tv.take(i + 1).drop_last() =~= tv.take(i as int));
            assert(tv.take(i + 1).last() == ts@[i as int]@);
            let key = indexed_key("llm.tools.", i, ".tool.json_schema");
            let ghost before = attrs_view(out@);
            let a = SpanAttribute { key, value: AttrValue::Str(to_text(&ts[i])) };
            let ghost av = a@;
            out.push(a);
            assert(attrs_view(out@) =~= before.push(av));
            assert(av == str_attr(
                "llm.tools."@ + decimal(i as nat) + ".tool.json_schema"@,
                encode(tv[i as int]),
            ));
            assert(tools_attrs(tv.take(i + 1)) == tools_attrs(tv.take(i as int)).push(av));
            assert(attrs_view(out@) =~= a4 + tools_attrs(tv.take(i + 1)));
            i = i + 1;
        }
        assert(tv.take(ts@.len() as int) =~= tv);
    }
    assert(attrs_view(out@) =~= a4 + match opt_array(req@.get("tools"@)) {
        Some(ts) => tools_attrs(ts),
        None => Seq::<AttrV>::empty(),
    });
}

/// OpenInference attributes of a request document.
pub fn request_attributes(req: &Json) -> (r: Vec<SpanAttribute>)
    ensures
        attrs_view(r@) == request_attrs(req@),
{
    proof {
        reveal_strlit("LLM");
        reveal_strlit("anthropic");
        reveal_strlit("system");
    }
    let mut out: Vec<SpanAttribute> = Vec::new();
    let x = lit_attr("openinference.span.kind", "LLM".to_string());
    let ghost xv = x@;
    out.push(x);
    let y = lit_attr("llm.system", "anthropic".to_string());
    let ghost yv = y@;
    out.push(y);
    assert(attrs_view(out@) =~= seq![xv, yv]);
    let ghost a0 = attrs_view(out@);
    if let Some(m) = str_in(req.get("model")) {
        let a = lit_attr("llm.model_name", m.clone());
        let ghost av = a@;
        out.push(a);
        assert(attrs_view(out@) =~= a0.push(av));
    }
    let ghost a0m = attrs_view(out@);
    assert(a0m =~= a0 + match opt_str(req@.get("model"@)) {
        Some(m) => seq![str_attr("llm.model_name"@, m)],
        None => Seq::<AttrV>::empty(),
    });
    if let Some(m) = req.get("messages") {
        let a = lit_attr("input.value", to_text(m));
        let ghost av = a@;
        out.push(a);
        assert(attrs_view(out@) =~= a0m.push(av));
    }
    let ghost a1 = attrs_view(out@);
    assert(a1 =~= a0m + match req@.get("messages"@) {
        Some(m) => seq![str_attr("input.value"@, encode(m))],
        None => Seq::<AttrV>::empty(),
    });
    push_params(&mut out, req);
    let ghost a2 = attrs_view(out@);
    let sys = match req.get("system") {
        Some(s) => system_text_exec(s),
        None => None,
    };
    let ghost sysv = match req@.get("system"@) {
        Some(sv) => system_text(sv),
        None => None,
    };
    let base: usize = match sys {
        Some(t) => {
            let a = in_msg_attr(0, "role", "system".to_string());
            let ghost av = a@;
            out.push(a);
            let b = in_msg_attr(0, "content", t);
            let ghost bv = b@;
            out.push(b);
            assert(attrs_view(out@) =~= a2 + seq![av, bv]);
            1
        },
        None => 0,
    };
    let ghost a3 = attrs_view(out@);
    assert(a3 =~= a2 + match sysv {
        Some(t) => seq![
            str_attr(in_msg_key(0, "role"@), "system"@),
            str_attr(in_msg_key(0, "content"@), t),
        ],
        None => Seq::<AttrV>::empty(),
    });
    assert(base as nat == if sysv is Some {
        1nat
    } else {
        0nat
    });
    push_messages(&mut out, base, req);
    let ghost a4 = attrs_view(out@);
    push_tools(&mut out, req);
    assert(attrs_view(out@) =~= a4 + match opt_array(req@.get("tools"@)) {
        Some(ts) => tools_attrs(ts),
        None => Seq::<AttrV>::empty(),
    });
    assert(attrs_view(out@) =~= request_attrs(req@));
    out
}

} // verus!
