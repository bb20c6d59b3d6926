//! OpenInference span attributes of an LLM response, from a buffered JSON
//! body or from the events of an SSE stream. Extraction never fails: what
//! cannot be read is skipped.

use crate::json::{array_in, decode_json, encode, get_in, i64_in, items_view, json_decoded, lemma_items_view, opt_array, opt_get, opt_i64, opt_str, opt_u64, push_char, str_eq, str_in, to_text, u64_in, Json, JsonV};
use crate::sse::{events_view, sse_events, sse_events_spec, utf8_text, EventKind, SseEvent, SseEventV};
use vstd::prelude::*;

verus! {

broadcast use vstd::std_specs::vec::group_vec_axioms, vstd::seq::group_seq_axioms;

/// Value of a span attribute.
#[derive(Debug)]
pub enum AttrValue {
    Str(String),
    Int(i64),
    Bool(bool),
}

pub enum AttrValueV {
    Str(Seq<char>),
    Int(i64),
    Bool(bool),
}

/// A key and value to set on a span.
#[derive(Debug)]
pub struct SpanAttribute {
    pub key: String,
    pub value: AttrValue,
}

pub struct AttrV {
    pub key: Seq<char>,
    pub value: AttrValueV,
}

impl View for SpanAttribute {
    type V = AttrV;

    open spec fn view(&self) -> AttrV {
        AttrV {
            key: self.key@,
            value: match self.value {
                AttrValue::Str(s) => AttrValueV::Str(s@),
                AttrValue::Int(i) => AttrValueV::Int(i),
                AttrValue::Bool(b) => AttrValueV::Bool(b),
            },
        }
    }
}

pub open spec fn attrs_view(v: Seq<SpanAttribute>) -> Seq<AttrV> {
    v.map_values(|a: SpanAttribute| a@)
}

pub open spec fn str_attr(key: Seq<char>, v: Seq<char>) -> AttrV {
    AttrV { key, value: AttrValueV::Str(v) }
}

pub open spec fn int_attr(key: Seq<char>, v: i64) -> AttrV {
    AttrV { key, value: AttrValueV::Int(v) }
}

/// Decimal digits of `n`.
pub open spec fn decimal(n: nat) -> Seq<char>
    decreases n,
{
    if n < 10 {
        seq![('0' as nat + n) as char]
    } else {
        decimal(n / 10).push(('0' as nat + n % 10) as char)
    }
}

/// Appends the decimal digits of `n`.
pub fn push_decimal(out: &mut String, n: usize)
    ensures
        final(out)@ == old(out)@ + decimal(n as nat),
    decreases n,
{
    if n >= 10 {
        push_decimal(out, n / 10);
    }
    let d = (n % 10) as u32;
    push_char(out, (('0' as u32) + d) as u8 as char);
    proof {
        if n < 10 {
            assert(old(out)@ + decimal(n as nat) =~= old(out)@.push(('0' as nat + n) as char));
        }
    }
}

/// Appends the decimal digits of `n`.
pub fn push_decimal_u64(out: &mut String, n: u64)
    ensures
        final(out)@ == old(out)@ + decimal(n as nat),
    decreases n,
{
    if n >= 10 {
        push_decimal_u64(out, n / 10);
    }
    let d = (n % 10) as u32;
    push_char(out, (('0' as u32) + d) as u8 as char);
    proof {
        if n < 10 {
            assert(old(out)@ + decimal(n as nat) =~= old(out)@.push(('0' as nat + n) as char));
        }
    }
}

/// `pre` + decimal(n) + `post`.
pub fn indexed_key(pre: &str, n: usize, post: &str) -> (r: String)
    ensures
        r@ == pre@ + decimal(n as nat) + post@,
{
    let mut s = pre.to_string();
    push_decimal(&mut s, n);
    s.append(post);
    s
}

pub fn string_attr(key: String, v: String) -> (r: SpanAttribute)
    ensures
        r@ == str_attr(key@, v@),
{
    SpanAttribute { key, value: AttrValue::Str(v) }
}

pub fn lit_attr(key: &str, v: String) -> (r: SpanAttribute)
    ensures
        r@ == str_attr(key@, v@),
{
    SpanAttribute { key: key.to_string(), value: AttrValue::Str(v) }
}

pub fn i64_attr(key: &str, v: i64) -> (r: SpanAttribute)
    ensures
        r@ == int_attr(key@, v),
{
    SpanAttribute { key: key.to_string(), value: AttrValue::Int(v) }
}

// ---------------------------------------------------------------------------
// Output tool calls
// ---------------------------------------------------------------------------

pub open spec fn out_tool_key(j: nat, field: Seq<char>) -> Seq<char> {
    "llm.output_messages.0.message.tool_calls."@ + decimal(j) + ".tool_call.function."@ + field
}

pub(crate) fn out_tool_attr(j: usize, field: &str, v: String) -> (r: SpanAttribute)
    ensures
        r@ == str_attr(out_tool_key(j as nat, field@), v@),
{
    let mut k = indexed_key("llm.output_messages.0.message.tool_calls.", j, ".tool_call.function.");
    k.append(field);
    SpanAttribute { key: k, value: AttrValue::Str(v) }
}

// ---------------------------------------------------------------------------
// Non-streaming responses
// ---------------------------------------------------------------------------

/// What the content blocks of a response contribute.
pub struct ContentAcc {
    pub attrs: Seq<AttrV>,
    pub text: Seq<char>,
    pub any_text: bool,
    pub tools: nat,
}

pub open spec fn content_step(acc: ContentAcc, block: JsonV) -> ContentAcc {
    let ty = opt_str(block.get("type"@));
    if ty == Some("text"@) {
        match opt_str(block.get("text"@)) {
            Some(t) => ContentAcc { text: acc.text + t, any_text: true, ..acc },
            None => acc,
        }
    } else if ty == Some("tool_use"@) {
        let a1 = match opt_str(block.get("name"@)) {
            Some(n) => acc.attrs.push(str_attr(out_tool_key(acc.tools, "name"@), n)),
            None => acc.attrs,
        };
        let a2 = match block.get("input"@) {
            Some(v) => a1.push(str_attr(out_tool_key(acc.tools, "arguments"@), encode(v))),
            None => a1,
        };
        ContentAcc { attrs: a2, tools: acc.tools + 1, ..acc }
    } else {
        acc
    }
}

pub open spec fn content_fold(blocks: Seq<JsonV>) -> ContentAcc
    decreases blocks.len(),
{
    if blocks.len() == 0 {
        ContentAcc { attrs: Seq::empty(), text: Seq::empty(), any_text: false, tools: 0 }
    } else {
        content_step(content_fold(blocks.drop_last()), blocks.last())
    }
}

pub open spec fn token_attrs(input: Option<i64>, output: Option<i64>) -> Seq<AttrV> {
    let a = match input {
        Some(i) => seq![int_attr("llm.token_count.prompt"@, i)],
        None => Seq::empty(),
    };
    match output {
        Some(o) => a.push(int_attr("llm.token_count.completion"@, o)),
        None => a,
    }
}

pub open spec fn output_value_attrs(b: Seq<u8>) -> Seq<AttrV> {
    if vstd::utf8::valid_utf8(b) {
        seq![str_attr("output.value"@, vstd::utf8::decode_utf8(b))]
    } else {
        Seq::empty()
    }
}

pub open spec fn role_attrs(role: Option<Seq<char>>) -> Seq<AttrV> {
    match role {
        Some(r) => seq![str_attr("llm.output_messages.0.message.role"@, r)],
        None => Seq::empty(),
    }
}

pub open spec fn content_attrs(any: bool, text: Seq<char>) -> Seq<AttrV> {
    if any {
        seq![str_attr("llm.output_messages.0.message.content"@, text)]
    } else {
        Seq::empty()
    }
}

/// Attributes of a JSON response document `d` whose bytes are `b`.
pub open spec fn json_response_attrs(b: Seq<u8>, d: JsonV) -> Seq<AttrV> {
    let usage = d.get("usage"@);
    let blocks = match opt_array(d.get("content"@)) {
        Some(bl) => {
            let acc = content_fold(bl);
            acc.attrs + content_attrs(acc.any_text, acc.text)
        },
        None => Seq::empty(),
    };
    output_value_attrs(b) + role_attrs(opt_str(d.get("role"@))) + blocks + token_attrs(
        opt_i64(opt_get(usage, "input_tokens"@)),
        opt_i64(opt_get(usage, "output_tokens"@)),
    )
}

pub(crate) fn push_output_value(out: &mut Vec<SpanAttribute>, b: &[u8])
    ensures
        attrs_view(final(out)@) == attrs_view(old(out)@) + output_value_attrs(b@),
{
    let ghost pre = out@;
    match utf8_text(b) {
        Some(s) => {
            out.push(lit_attr("output.value", s));
            assert(attrs_view(out@) =~= attrs_view(pre) + output_value_attrs(b@));
        },
        None => {
            assert(attrs_view(out@) =~= attrs_view(pre) + output_value_attrs(b@));
        },
    }
}

pub(crate) fn push_role(out: &mut Vec<SpanAttribute>, role: Option<&String>)
    ensures
        attrs_view(final(out)@) == attrs_view(old(out)@) + role_attrs(
            match role {
                Some(r) => Some(r@),
                None => None,
            },
        ),
{
    let ghost pre = out@;
    if let Some(r) = role {
        out.push(lit_attr("llm.output_messages.0.message.role", r.clone()));
    }
    assert(attrs_view(out@) =~= attrs_view(pre) + role_attrs(
        match role {
            Some(r) => Some(r@),
            None => None,
        },
    ));
}

pub(crate) fn push_tokens(out: &mut Vec<SpanAttribute>, input: Option<i64>, output: Option<i64>)
    ensures
        attrs_view(final(out)@) == attrs_view(old(out)@) + token_attrs(input, output),
{
    let ghost pre = out@;
    if let Some(i) = input {
        out.push(i64_attr("llm.token_count.prompt", i));
    }
    if let Some(o) = output {
        out.push(i64_attr("llm.token_count.completion", o));
    }
    assert(attrs_view(out@) =~= attrs_view(pre) + token_attrs(input, output));
}

fn push_content(out: &mut Vec<SpanAttribute>, any: bool, text: String)
    ensures
        attrs_view(final(out)@) == attrs_view(old(out)@) + content_attrs(any, text@),
{
    let ghost pre = out@;
    if any {
        out.push(lit_attr("llm.output_messages.0.message.content", text));
    }
    assert(attrs_view(out@) =~= attrs_view(pre) + content_attrs(any, text@));
}

fn push_content_blocks(out: &mut Vec<SpanAttribute>, blocks: &Vec<Json>)
    ensures
        ({
            let acc = content_fold(items_view(blocks@));
            attrs_view(final(out)@) == attrs_view(old(out)@) + acc.attrs + content_attrs(
                acc.any_text,
                acc.text,
            )
        }),
{
    proof {
        lemma_items_view(blocks@);
    }
    let ghost bv = items_view(blocks@);
    let ghost pre = attrs_view(out@);
    let mut text = String::new();
    let mut any = false;
    let mut tools: usize = 0;
    let mut i: usize = 0;
    while i < blocks.len()
        invariant
            0 <= i <= blocks.len(),
            bv == items_view(blocks@),
            bv.len() == blocks@.len(),
            forall|k: int| 0 <= k < blocks@.len() ==> #[trigger] bv[k] == blocks@[k]@,
            ({
                let acc = content_fold(bv.take(i as int));
                &&& attrs_view(out@) == pre + acc.attrs
                &&& text@ == acc.text
                &&& any == acc.any_text
                &&& tools as nat == acc.tools
            }),
            tools <= i,
        decreases blocks.len() - i,
    {
        assert(bv.take(i + 1).drop_last() =~= bv.take(i as int));
        assert(bv.take(i + 1).last() == blocks@[i as int]@);
        let ghost before = out@;
        let block = &blocks[i];
        let ty = str_in(block.get("type"));
        let is_text = match ty {
            Some(t) => str_eq(t.as_str(), "text"),
            None => false,
        };
        let is_tool = match ty {
            Some(t) => str_eq(t.as_str(), "tool_use"),
            None => false,
        };
        proof {
            reveal_strlit("text");
            reveal_strlit("tool_use");
        }
        if is_text {
            if let Some(t) = str_in(block.get("text")) {
                text.append(t.as_str());
                any = true;
            }
        } else if is_tool {
            if let Some(n) = str_in(block.get("name")) {
                let a = out_tool_attr(tools, "name", n.clone());
                let ghost av = a@;
                out.push(a);
                assert(attrs_view(out@) =~= attrs_view(before).push(av));
            }
            let ghost mid = out@;
            if let Some(v) = block.get("input") {
                let a = out_tool_attr(tools, "arguments", to_text(v));
                let ghost av = a@;
                out.push(a);
                assert(attrs_view(out@) =~= attrs_view(mid).push(av));
            }
            tools = tools + 1;
        }
        assert(attrs_view(out@) =~= pre + content_fold(bv.take(i + 1)).attrs);
        i = i + 1;
    }
    assert(bv.take(blocks@.len() as int) =~= bv);
    push_content(out, any, text);
}

/// Attributes of a non-streaming response body; none where it is not one
/// JSON text.
pub fn json_response_attributes(b: &[u8]) -> (r: Vec<SpanAttribute>)
    ensures
        attrs_view(r@) == match json_decoded(b@) {
            Some(d) => json_response_attrs(b@, d),
            None => Seq::empty(),
        },
{
    let mut out: Vec<SpanAttribute> = Vec::new();
    assert(attrs_view(out@) =~= Seq::<AttrV>::empty());
    match decode_json(b) {
        Some(d) => {
            push_output_value(&mut out, b);
            let ghost a0 = attrs_view(out@);
            push_role(&mut out, str_in(d.get("role")));
            let ghost before = attrs_view(out@);
            match array_in(d.get("content")) {
                Some(blocks) => push_content_blocks(&mut out, blocks),
                None => {
                    assert(attrs_view(out@) =~= before + Seq::<AttrV>::empty());
                },
            }
            let usage = d.get("usage");
            let ghost after_blocks = attrs_view(out@);
            push_tokens(
                &mut out,
                i64_in(get_in(usage, "input_tokens")),
                i64_in(get_in(usage, "output_tokens")),
            );
            proof {
                let dv = d@;
                let blocks_part = match opt_array(dv.get("content"@)) {
                    Some(bl) => {
                        let acc = content_fold(bl);
                        acc.attrs + content_attrs(acc.any_text, acc.text)
                    },
                    None => Seq::empty(),
                };
                assert(after_blocks =~= before + blocks_part);
                assert(attrs_view(out@) =~= json_response_attrs(b@, dv));
            }
            out
        },
        None => out,
    }
}

// ---------------------------------------------------------------------------
// Streaming responses
// ---------------------------------------------------------------------------

/// A content block being reassembled from stream events.
pub struct StreamBlock {
    pub block_type: String,
    pub text: String,
    pub tool_name: Option<String>,
    pub tool_args_json: String,
    /// The `index` of the `content_block_start` that opened the block.
    pub index: u64,
}

pub struct BlockV {
    pub index: u64,
    pub block_type: Seq<char>,
    pub text: Seq<char>,
    pub tool_name: Option<Seq<char>>,
    pub tool_args_json: Seq<char>,
}

pub open spec fn opt_string_view(o: Option<String>) -> Option<Seq<char>> {
    match o {
        Some(s) => Some(s@),
        None => None,
    }
}

impl View for StreamBlock {
    type V = BlockV;

    open spec fn view(&self) -> BlockV {
        BlockV {
            index: self.index,
            block_type: self.block_type@,
            text: self.text@,
            tool_name: opt_string_view(self.tool_name),
            tool_args_json: self.tool_args_json@,
        }
    }
}

/// Position of the first block whose index is at least `i`: where the
/// block with index `i` stands or belongs. Blocks are kept in index order,
/// so the list reads as the blocks by index with unused indices left out.
pub open spec fn key_pos(bs: Seq<BlockV>, i: u64) -> nat
    decreases bs.len(),
{
    if bs.len() == 0 || bs[0].index >= i {
        0
    } else {
        1 + key_pos(bs.drop_first(), i)
    }
}

/// Whether a block with index `i` is open.
pub open spec fn has_block(bs: Seq<BlockV>, i: u64) -> bool {
    key_pos(bs, i) < bs.len() && bs[key_pos(bs, i) as int].index == i
}

/// The blocks after `content_block_start` opens `b` at its index: it
/// replaces a block of the same index, else it goes in index order.
pub open spec fn place_block(bs: Seq<BlockV>, b: BlockV) -> Seq<BlockV> {
    if has_block(bs, b.index) {
        bs.update(key_pos(bs, b.index) as int, b)
    } else {
        bs.insert(key_pos(bs, b.index) as int, b)
    }
}

/// What the events seen so far say about the response.
pub struct StreamV {
    pub input_tokens: Option<i64>,
    pub output_tokens: Option<i64>,
    pub role: Option<Seq<char>>,
    pub blocks: Seq<BlockV>,
}

pub open spec fn or_keep<T>(new: Option<T>, old: Option<T>) -> Option<T> {
    match new {
        Some(x) => Some(x),
        None => old,
    }
}

pub open spec fn stream_step(st: StreamV, e: SseEventV) -> StreamV {
    let data = Some(e.data);
    match e.kind {
        EventKind::MessageStart => match opt_get(data, "message"@) {
            Some(msg) => StreamV {
                role: or_keep(opt_str(msg.get("role"@)), st.role),
                input_tokens: match st.input_tokens {
                    Some(i) => Some(i),
                    None => opt_i64(opt_get(msg.get("usage"@), "input_tokens"@)),
                },
                ..st
            },
            None => st,
        },
        EventKind::ContentBlockStart => match (
            opt_get(data, "content_block"@),
            opt_u64(opt_get(data, "index"@)),
        ) {
            (Some(cb), Some(idx)) => {
                let bt = match opt_str(cb.get("type"@)) {
                    Some(t) => t,
                    None => "text"@,
                };
                let name = if bt == "tool_use"@ {
                    opt_str(cb.get("name"@))
                } else {
                    None
                };
                StreamV {
                    blocks: place_block(
                        st.blocks,
                        BlockV {
                            index: idx,
                            block_type: bt,
                            text: Seq::empty(),
                            tool_name: name,
                            tool_args_json: Seq::empty(),
                        },
                    ),
                    ..st
                }
            },
            _ => st,
        },
        EventKind::ContentBlockDelta => match opt_u64(opt_get(data, "index"@)) {
            Some(idx) => if has_block(st.blocks, idx) {
                let p = key_pos(st.blocks, idx) as int;
                match opt_get(data, "delta"@) {
                    Some(delta) => {
                        let b = st.blocks[p];
                        let dt = opt_str(delta.get("type"@));
                        if dt == Some("text_delta"@) {
                            match opt_str(delta.get("text"@)) {
                                Some(t) => StreamV {
                                    blocks: st.blocks.update(p, BlockV { text: b.text + t, ..b }),
                                    ..st
                                },
                                None => st,
                            }
                        } else if dt == Some("input_json_delta"@) {
                            match opt_str(delta.get("partial_json"@)) {
                                Some(t) => StreamV {
                                    blocks: st.blocks.update(
                                        p,
                                        BlockV { tool_args_json: b.tool_args_json + t, ..b },
                                    ),
                                    ..st
                                },
                                None => st,
                            }
                        } else {
                            st
                        }
                    },
                    None => st,
                }
            } else {
                st
            },
            None => st,
        },
        EventKind::MessageDelta => match opt_get(data, "usage"@) {
            Some(usage) => StreamV {
                output_tokens: or_keep(opt_i64(usage.get("output_tokens"@)), st.output_tokens),
                input_tokens: match st.input_tokens {
                    Some(i) => Some(i),
                    None => opt_i64(usage.get("input_tokens"@)),
                },
                ..st
            },
            None => st,
        },
        EventKind::Other => st,
    }
}

pub open spec fn stream_fold(evs: Seq<SseEventV>) -> StreamV
    decreases evs.len(),
{
    if evs.len() == 0 {
        StreamV { input_tokens: None, output_tokens: None, role: None, blocks: Seq::empty() }
    } else {
        stream_step(stream_fold(evs.drop_last()), evs.last())
    }
}

/// What the reassembled blocks contribute: tool-call attributes, and the
/// text of the non-empty text blocks.
pub open spec fn blocks_fold(bs: Seq<BlockV>) -> ContentAcc
    decreases bs.len(),
{
    if bs.len() == 0 {
        ContentAcc { attrs: Seq::empty(), text: Seq::empty(), any_text: false, tools: 0 }
    } else {
        let acc = blocks_fold(bs.drop_last());
        let b = bs.last();
        if b.block_type == "text"@ {
            if b.text.len() > 0 {
                ContentAcc { text: acc.text + b.text, any_text: true, ..acc }
            } else {
                acc
            }
        } else if b.block_type == "tool_use"@ {
            let a1 = match b.tool_name {
                Some(n) => acc.attrs.push(str_attr(out_tool_key(acc.tools, "name"@), n)),
                None => acc.attrs,
            };
            let a2 = if b.tool_args_json.len() > 0 {
                a1.push(str_attr(out_tool_key(acc.tools, "arguments"@), b.tool_args_json))
            } else {
                a1
            };
            ContentAcc { attrs: a2, tools: acc.tools + 1, ..acc }
        } else {
            acc
        }
    }
}

/// Attributes of a streamed response: `b` is the whole body.
pub open spec fn stream_response_attrs(b: Seq<u8>) -> Seq<AttrV> {
    if vstd::utf8::valid_utf8(b) {
        let st = stream_fold(sse_events_spec(b));
        let acc = blocks_fold(st.blocks);
        output_value_attrs(b) + role_attrs(st.role) + acc.attrs + content_attrs(
            acc.any_text,
            acc.text,
        ) + token_attrs(st.input_tokens, st.output_tokens)
    } else {
        Seq::empty()
    }
}

/// Attributes of a buffered response.
pub open spec fn response_attrs(b: Seq<u8>, is_streaming: bool) -> Seq<AttrV> {
    if is_streaming {
        stream_response_attrs(b)
    } else {
        match json_decoded(b) {
            Some(d) => json_response_attrs(b, d),
            None => Seq::empty(),
        }
    }
}

fn opt_clone(o: Option<&String>) -> (r: Option<String>)
    ensures
        opt_string_view(r) == match o {
            Some(s) => Some(s@),
            None => None,
        },
{
    match o {
        Some(s) => Some(s.clone()),
        None => None,
    }
}

proof fn lemma_key_pos(bs: Seq<BlockV>, i: u64, j: int)
    requires
        0 <= j <= bs.len(),
        forall|k: int| 0 <= k < j ==> (#[trigger] bs[k]).index < i,
        j == bs.len() || bs[j].index >= i,
    ensures
        key_pos(bs, i) == j,
    decreases bs.len(),
{
    if j > 0 {
        assert forall|k: int| 0 <= k < j - 1 implies (#[trigger] bs.drop_first()[k]).index < i by {
            assert(bs.drop_first()[k] == bs[k + 1]);
        }
        lemma_key_pos(bs.drop_first(), i, j - 1);
    }
}

/// Position of the first block whose index is at least `i`.
fn find_block(blocks: &Vec<StreamBlock>, i: u64) -> (r: usize)
    ensures
        r as nat == key_pos(blocks@.map_values(|b: StreamBlock| b@), i),
        r <= blocks@.len(),
{
    let ghost bv = blocks@.map_values(|b: StreamBlock| b@);
    let mut j: usize = 0;
    while j < blocks.len() && blocks[j].index < i
        invariant
            0 <= j <= blocks@.len(),
            bv == blocks@.map_values(|b: StreamBlock| b@),
            forall|k: int| 0 <= k < j ==> (#[trigger] bv[k]).index < i,
        decreases blocks.len() - j,
    {
        j = j + 1;
    }
    proof {
        lemma_key_pos(bv, i, j as int);
    }
    j
}

fn stream_step_exec(
    role: &mut Option<String>,
    input: &mut Option<i64>,
    output: &mut Option<i64>,
    blocks: &mut Vec<StreamBlock>,
    e: &SseEvent,
)
    ensures
        ({
            let st = stream_step(
                StreamV {
                    input_tokens: *old(input),
                    output_tokens: *old(output),
                    role: opt_string_view(*old(role)),
                    blocks: old(blocks)@.map_values(|b: StreamBlock| b@),
                },
                e@,
            );
            &&& st.input_tokens == *final(input)
            &&& st.output_tokens == *final(output)
            &&& st.role == opt_string_view(*final(role))
            &&& st.blocks == final(blocks)@.map_values(|b: StreamBlock| b@)
        }),
{
    let ghost bv0 = blocks@.map_values(|b: StreamBlock| b@);
    let data = Some(&e.data);
    match e.kind {
        EventKind::MessageStart => {
            if let Some(msg) = get_in(data, "message") {
                if let Some(r) = str_in(msg.get("role")) {
                    *role = Some(r.clone());
                }
                if input.is_none() {
                    *input = i64_in(get_in(msg.get("usage"), "input_tokens"));
                }
            }
        },
        EventKind::ContentBlockStart => {
            let start_index = u64_in(get_in(data, "index"));
            if let (Some(cb), Some(idx)) = (get_in(data, "content_block"), start_index) {
                let bt = match str_in(cb.get("type")) {
                    Some(t) => t.clone(),
                    None => "text".to_string(),
                };
                let name = if str_eq(bt.as_str(), "tool_use") {
                    opt_clone(str_in(cb.get("name")))
                } else {
                    None
                };
                let nb = StreamBlock {
                    block_type: bt,
                    text: String::new(),
                    tool_name: name,
                    tool_args_json: String::new(),
                    index: idx,
                };
                let ghost nbv = nb@;
                let p = find_block(blocks, idx);
                if p < blocks.len() && blocks[p].index == idx {
                    blocks.set(p, nb);
                    assert(blocks@.map_values(|b: StreamBlock| b@) =~= bv0.update(p as int, nbv));
                } else {
                    blocks.insert(p, nb);
                    assert(blocks@.map_values(|b: StreamBlock| b@) =~= bv0.insert(p as int, nbv));
                }
            }
        },
        EventKind::ContentBlockDelta => {
            if let Some(idx) = u64_in(get_in(data, "index")) {
                let i = find_block(blocks, idx);
                if i < blocks.len() && blocks[i].index == idx {
                    if let Some(delta) = get_in(data, "delta") {
                        let dt = str_in(delta.get("type"));
                        let is_text = match dt {
                            Some(t) => str_eq(t.as_str(), "text_delta"),
                            None => false,
                        };
                        let is_json = match dt {
                            Some(t) => str_eq(t.as_str(), "input_json_delta"),
                            None => false,
                        };
                        proof {
                            reveal_strlit("text_delta");
                            reveal_strlit("input_json_delta");
                        }
                        if is_text {
                            if let Some(t) = str_in(delta.get("text")) {
                                let old_b = &blocks[i];
                                let mut text = old_b.text.clone();
                                text.append(t.as_str());
                                let nb = StreamBlock {
                                    block_type: old_b.block_type.clone(),
                                    text,
                                    tool_name: opt_clone(
                                        match &old_b.tool_name {
                                            Some(n) => Some(n),
                                            None => None,
                                        },
                                    ),
                                    tool_args_json: old_b.tool_args_json.clone(),
                                    index: old_b.index,
                                };
                                let ghost nbv = nb@;
                                blocks.set(i, nb);
                                assert(blocks@.map_values(|b: StreamBlock| b@) =~= bv0.update(
                                    i as int,
                                    nbv,
                                ));
                            }
                        } else if is_json {
                            if let Some(t) = str_in(delta.get("partial_json")) {
                                let old_b = &blocks[i];
                                let mut args = old_b.tool_args_json.clone();
                                args.append(t.as_str());
                                let nb = StreamBlock {
                                    block_type: old_b.block_type.clone(),
                                    text: old_b.text.clone(),
                                    tool_name: opt_clone(
                                        match &old_b.tool_name {
                                            Some(n) => Some(n),
                                            None => None,
                                        },
                                    ),
                                    tool_args_json: args,
                                    index: old_b.index,
                                };
                                let ghost nbv = nb@;
                                blocks.set(i, nb);
                                assert(blocks@.map_values(|b: StreamBlock| b@) =~= bv0.update(
                                    i as int,
                                    nbv,
                                ));
                            }
                        }
                    }
                }
            }
        },
        EventKind::MessageDelta => {
            if let Some(usage) = get_in(data, "usage") {
                if let Some(o) = i64_in(usage.get("output_tokens")) {
                    *output = Some(o);
                }
                if input.is_none() {
                    *input = i64_in(usage.get("input_tokens"));
                }
            }
        },
        EventKind::Other => {},
    }
}

fn push_stream_blocks(out: &mut Vec<SpanAttribute>, blocks: &Vec<StreamBlock>)
    ensures
        ({
            let acc = blocks_fold(blocks@.map_values(|b: StreamBlock| b@));
            attrs_view(final(out)@) == attrs_view(old(out)@) + acc.attrs + content_attrs(
                acc.any_text,
                acc.text,
            )
        }),
{
    let ghost bv = blocks@.map_values(|b: StreamBlock| b@);
    let ghost pre = attrs_view(out@);
    let mut text = String::new();
    let mut any = false;
    let mut tools: usize = 0;
    let mut i: usize = 0;
    while i < blocks.len()
        invariant
            0 <= i <= blocks.len(),
            bv == blocks@.map_values(|b: StreamBlock| b@),
            ({
                let acc = blocks_fold(bv.take(i as int));
                &&& attrs_view(out@) == pre + acc.attrs
                &&& text@ == acc.text
                &&& any == acc.any_text
                &&& tools as nat == acc.tools
            }),
            tools <= i,
        decreases blocks.len() - i,
    {
        assert(bv.take(i + 1).drop_last() =~= bv.take(i as int));
        assert(bv.take(i + 1).last() == blocks@[i as int]@);
        let ghost before = out@;
        let b = &blocks[i];
        proof {
            reveal_strlit("text");
            reveal_strlit("tool_use");
        }
        if str_eq(b.block_type.as_str(), "text") {
            if !b.text.as_str().is_empty() {
                text.append(b.text.as_str());
                any = true;
            }
        } else if str_eq(b.block_type.as_str(), "tool_use") {
            if let Some(n) = &b.tool_name {
                let a = out_tool_attr(tools, "name", n.clone());
                let ghost av = a@;
                out.push(a);
                assert(attrs_view(out@) =~= attrs_view(before).push(av));
            }
            let ghost mid = out@;
            if !b.tool_args_json.as_str().is_empty() {
                let a = out_tool_attr(tools, "arguments", b.tool_args_json.clone());
                let ghost av = a@;
                out.push(a);
                assert(attrs_view(out@) =~= attrs_view(mid).push(av));
            }
            tools = tools + 1;
        }
        assert(attrs_view(out@) =~= pre + blocks_fold(bv.take(i + 1)).attrs);
        i = i + 1;
    }
    assert(bv.take(blocks@.len() as int) =~= bv);
    push_content(out, any, text);
}

/// Attributes of a streamed response body; none where it is not UTF-8.
pub fn stream_response_attributes(b: &[u8]) -> (r: Vec<SpanAttribute>)
    ensures
        attrs_view(r@) == stream_response_attrs(b@),
{
    let mut out: Vec<SpanAttribute> = Vec::new();
    assert(attrs_view(out@) =~= Seq::<AttrV>::empty());
    if utf8_text(b).is_none() {
        return out;
    }
    let evs = sse_events(b);
    let ghost ev = events_view(evs@);
    let mut role: Option<String> = None;
    let mut input: Option<i64> = None;
    let mut output: Option<i64> = None;
    let mut blocks: Vec<StreamBlock> = Vec::new();
    let mut k: usize = 0;
    assert(blocks@.map_values(|b: StreamBlock| b@) =~= Seq::<BlockV>::empty());
    while k < evs.len()
        invariant
            0 <= k <= evs.len(),
            ev == events_view(evs@),
            ({
                let st = stream_fold(ev.take(k as int));
                &&& st.input_tokens == input
                &&& st.output_tokens == output
                &&& st.role == opt_string_view(role)
                &&& st.blocks == blocks@.map_values(|b: StreamBlock| b@)
            }),
        decreases evs.len() - k,
    {
        assert(ev.take(k + 1).drop_last() =~= ev.take(k as int));
        assert(ev.take(k + 1).last() == evs@[k as int]@);
        stream_step_exec(&mut role, &mut input, &mut output, &mut blocks, &evs[k]);
        k = k + 1;
    }
    assert(ev.take(evs@.len() as int) =~= ev);
    push_output_value(&mut out, b);
    push_role(
        &mut out,
        match &role {
            Some(r) => Some(r),
            None => None,
        },
    );
    push_stream_blocks(&mut out, &blocks);
    push_tokens(&mut out, input, output);
    out
}

/// OpenInference attributes of a buffered response, by the request's
/// streaming flag.
pub fn response_attributes(response_bytes: &[u8], is_streaming: bool) -> (r: Vec<SpanAttribute>)
    ensures
        attrs_view(r@) == response_attrs(response_bytes@, is_streaming),
{
    if is_streaming {
        stream_response_attributes(response_bytes)
    } else {
        json_response_attributes(response_bytes)
    }
}

} // verus!
