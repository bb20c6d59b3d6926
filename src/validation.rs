//! Typed validation sidecar: a strict, closed-world reading of a Messages
//! request that flags drift in the protocol's content-block vocabulary.
//!
//! Layer one (high severity): the request does not have the typed shape.
//! Layer two (medium severity): it has, but some content blocks carry a type
//! outside the known set; each gets a finding, and their type names are
//! collected without repeats.

use crate::attributes::{decimal, push_decimal};
use crate::json::{
    at_in, decode_json, get_in, items_view, json_decoded, lemma_items_view, lookup, number_u64,
    opt_at, opt_get, opt_str, str_eq, str_in, Json, JsonV,
};
use crate::types::{
    check_image_source, check_role, check_tool_choice, role_name, role_name_spec, role_of,
    valid_image_source, valid_role, valid_tool_choice,
};
use vstd::prelude::*;

verus! {

broadcast use vstd::std_specs::vec::group_vec_axioms, vstd::seq::group_seq_axioms;

/// Nesting budget for content blocks inside `tool_result` blocks. Parsed
/// documents are never nested deeper than 128 levels.
pub const BLOCK_DEPTH: u32 = 200;

pub open spec fn is_str(o: Option<JsonV>) -> bool {
    o matches Some(JsonV::Str(_))
}

pub open spec fn absent_or_null(o: Option<JsonV>) -> bool {
    o is None || o == Some(JsonV::Null)
}

pub open spec fn opt_str_ok(o: Option<JsonV>) -> bool {
    absent_or_null(o) || is_str(o)
}

pub open spec fn u32_ok(o: Option<JsonV>) -> bool {
    match o {
        Some(JsonV::Number(t)) => number_u64(t) matches Some(n) && n <= u32::MAX,
        _ => false,
    }
}

pub open spec fn opt_number_ok(o: Option<JsonV>) -> bool {
    absent_or_null(o) || o matches Some(JsonV::Number(_))
}

/// The known content-block types.
pub open spec fn known_block_type(t: Seq<char>) -> bool {
    t == "text"@ || t == "image"@ || t == "tool_use"@ || t == "tool_result"@
}

pub open spec fn block_ok(b: JsonV, depth: nat) -> bool
    decreases depth, 1nat,
{
    match b {
        JsonV::Object(es) => match lookup(es, "type"@) {
            Some(JsonV::Str(t)) => if t == "text"@ {
                is_str(lookup(es, "text"@))
            } else if t == "image"@ {
                valid_image_source(lookup(es, "source"@))
            } else if t == "tool_use"@ {
                is_str(lookup(es, "id"@)) && is_str(lookup(es, "name"@)) && lookup(es, "input"@) is Some
            } else if t == "tool_result"@ {
                is_str(lookup(es, "tool_use_id"@)) && tool_result_content_ok(
                    lookup(es, "content"@),
                    depth,
                ) && (absent_or_null(lookup(es, "is_error"@)) || lookup(es, "is_error"@) matches Some(
                    JsonV::Bool(_),
                ))
            } else {
                true
            },
            _ => false,
        },
        _ => false,
    }
}

pub open spec fn tool_result_content_ok(o: Option<JsonV>, depth: nat) -> bool
    decreases depth, 0nat,
{
    match o {
        None => true,
        Some(JsonV::Null) => true,
        Some(JsonV::Str(_)) => true,
        Some(JsonV::Array(bs)) => depth == 0 || blocks_ok(bs, (depth - 1) as nat),
        _ => false,
    }
}

/// Every block of `bs` is well formed.
pub open spec fn blocks_ok(bs: Seq<JsonV>, depth: nat) -> bool
    decreases depth, bs.len() + 1,
{
    if bs.len() == 0 {
        true
    } else {
        blocks_ok(bs.drop_last(), depth) && block_ok(bs.last(), depth)
    }
}

pub open spec fn message_ok(m: JsonV) -> bool {
    match m {
        JsonV::Object(es) => valid_role(lookup(es, "role"@)) && match lookup(es, "content"@) {
            Some(JsonV::Str(_)) => true,
            Some(JsonV::Array(bs)) => blocks_ok(bs, BLOCK_DEPTH as nat),
            _ => false,
        },
        _ => false,
    }
}

pub open spec fn system_ok(o: Option<JsonV>) -> bool {
    match o {
        None => true,
        Some(JsonV::Null) => true,
        Some(JsonV::Str(_)) => true,
        Some(JsonV::Array(bs)) => all_system_blocks_ok(bs),
        _ => false,
    }
}

pub open spec fn system_block_ok(b: JsonV) -> bool {
    b matches JsonV::Object(es) && is_str(lookup(es, "text"@))
}

pub open spec fn all_system_blocks_ok(bs: Seq<JsonV>) -> bool
    decreases bs.len(),
{
    bs.len() == 0 || (all_system_blocks_ok(bs.drop_last()) && system_block_ok(bs.last()))
}

pub open spec fn all_tools_ok(ts: Seq<JsonV>) -> bool
    decreases ts.len(),
{
    ts.len() == 0 || (all_tools_ok(ts.drop_last()) && tool_ok(ts.last()))
}

pub open spec fn all_strs(ss: Seq<JsonV>) -> bool
    decreases ss.len(),
{
    ss.len() == 0 || (all_strs(ss.drop_last()) && ss.last() matches JsonV::Str(_))
}

pub open spec fn all_messages_ok(ms: Seq<JsonV>) -> bool
    decreases ms.len(),
{
    ms.len() == 0 || (all_messages_ok(ms.drop_last()) && message_ok(ms.last()))
}

pub open spec fn tool_ok(t: JsonV) -> bool {
    match t {
        JsonV::Object(es) => is_str(lookup(es, "name"@)) && opt_str_ok(lookup(es, "description"@))
            && lookup(es, "input_schema"@) is Some,
        _ => false,
    }
}

pub open spec fn tools_ok(o: Option<JsonV>) -> bool {
    match o {
        None => true,
        Some(JsonV::Null) => true,
        Some(JsonV::Array(ts)) => all_tools_ok(ts),
        _ => false,
    }
}

pub open spec fn stop_ok(o: Option<JsonV>) -> bool {
    match o {
        None => true,
        Some(JsonV::Null) => true,
        Some(JsonV::Array(ss)) => all_strs(ss),
        _ => false,
    }
}

/// The request has the typed shape of a Messages request.
pub open spec fn request_ok(j: JsonV) -> bool {
    match j {
        JsonV::Object(es) => {
            &&& is_str(lookup(es, "model"@))
            &&& u32_ok(lookup(es, "max_tokens"@))
            &&& match lookup(es, "messages"@) {
                Some(JsonV::Array(ms)) => all_messages_ok(ms),
                _ => false,
            }
            &&& system_ok(lookup(es, "system"@))
            &&& opt_number_ok(lookup(es, "temperature"@))
            &&& opt_number_ok(lookup(es, "top_p"@))
            &&& (absent_or_null(lookup(es, "top_k"@)) || u32_ok(lookup(es, "top_k"@)))
            &&& stop_ok(lookup(es, "stop_sequences"@))
            &&& (lookup(es, "stream"@) is None || lookup(es, "stream"@) matches Some(JsonV::Bool(_)))
            &&& tools_ok(lookup(es, "tools"@))
            &&& valid_tool_choice(lookup(es, "tool_choice"@))
        },
        _ => false,
    }
}

/// The predicate `which` of the list (0 system blocks, 1 tools, 2 strings,
/// 3 messages) on `s`.
pub open spec fn all_of(s: Seq<JsonV>, which: int) -> bool {
    if which == 0 {
        all_system_blocks_ok(s)
    } else if which == 1 {
        all_tools_ok(s)
    } else if which == 2 {
        all_strs(s)
    } else {
        all_messages_ok(s)
    }
}

/// A list is well formed only where each of its prefixes is.
proof fn lemma_prefix_all(s: Seq<JsonV>, n: int, which: int)
    requires
        0 <= n <= s.len(),
    ensures
        all_of(s, which) ==> all_of(s.take(n), which),
    decreases s.len(),
{
    if n < s.len() {
        assert(s.drop_last().take(n) =~= s.take(n));
        lemma_prefix_all(s.drop_last(), n, which);
    } else {
        assert(s.take(n) =~= s);
    }
}

proof fn lemma_blocks_ok_prefix(s: Seq<JsonV>, n: int, depth: nat)
    requires
        0 <= n <= s.len(),
    ensures
        blocks_ok(s, depth) ==> blocks_ok(s.take(n), depth),
    decreases s.len(),
{
    if n < s.len() {
        assert(s.drop_last().take(n) =~= s.take(n));
        lemma_blocks_ok_prefix(s.drop_last(), n, depth);
    } else {
        assert(s.take(n) =~= s);
    }
}

fn is_str_exec(o: Option<&Json>) -> (r: bool)
    ensures
        r == is_str(crate::json::opt_view(o)),
{
    str_in(o).is_some()
}

fn absent_or_null_exec(o: Option<&Json>) -> (r: bool)
    ensures
        r == absent_or_null(crate::json::opt_view(o)),
{
    match o {
        None => true,
        Some(j) => j.is_null(),
    }
}

fn u32_ok_exec(o: Option<&Json>) -> (r: bool)
    ensures
        r == u32_ok(crate::json::opt_view(o)),
{
    match o {
        Some(Json::Number(_)) => match o.unwrap().as_u64() {
            Some(n) => n <= 0xffff_ffff,
            None => false,
        },
        _ => false,
    }
}

fn is_number_exec(o: Option<&Json>) -> (r: bool)
    ensures
        r == (crate::json::opt_view(o) matches Some(JsonV::Number(_))),
{
    match o {
        Some(Json::Number(_)) => true,
        _ => false,
    }
}

fn check_block(b: &Json, depth: u32) -> (r: bool)
    ensures
        r == block_ok(b@, depth as nat),
    decreases depth, 1int,
{
    match b {
        Json::Object(_) => {
            proof {
                reveal_strlit("text");
                reveal_strlit("image");
                reveal_strlit("tool_use");
                reveal_strlit("tool_result");
            }
            match str_in(b.get("type")) {
                Some(t) => {
                    if str_eq(t.as_str(), "text") {
                        is_str_exec(b.get("text"))
                    } else if str_eq(t.as_str(), "image") {
                        check_image_source(b.get("source")).is_some()
                    } else if str_eq(t.as_str(), "tool_use") {
                        is_str_exec(b.get("id")) && is_str_exec(b.get("name")) && b.get(
                            "input",
                        ).is_some()
                    } else if str_eq(t.as_str(), "tool_result") {
                        let e = b.get("is_error");
                        let e_ok = absent_or_null_exec(e) || match e {
                            Some(Json::Bool(_)) => true,
                            _ => false,
                        };
                        is_str_exec(b.get("tool_use_id")) && check_tool_result_content(
                            b.get("content"),
                            depth,
                        ) && e_ok
                    } else {
                        true
                    }
                },
                None => false,
            }
        },
        _ => false,
    }
}

fn check_tool_result_content(o: Option<&Json>, depth: u32) -> (r: bool)
    ensures
        r == tool_result_content_ok(crate::json::opt_view(o), depth as nat),
    decreases depth, 0int,
{
    match o {
        None => true,
        Some(Json::Null) => true,
        Some(Json::Str(_)) => true,
        Some(Json::Array(bs)) => {
            assert(crate::json::opt_view(o) == Some(JsonV::Array(items_view(bs@))));
            depth == 0 || check_blocks(bs, depth - 1)
        },
        _ => false,
    }
}

fn check_blocks(bs: &Vec<Json>, depth: u32) -> (r: bool)
    ensures
        r == blocks_ok(items_view(bs@), depth as nat),
    decreases depth, 2int,
{
    proof {
        lemma_items_view(bs@);
    }
    let ghost bv = items_view(bs@);
    let mut i: usize = 0;
    while i < bs.len()
        invariant
            0 <= i <= bs.len(),
            bv == items_view(bs@),
            bv.len() == bs@.len(),
            forall|k: int| 0 <= k < bs@.len() ==> #[trigger] bv[k] == bs@[k]@,
            blocks_ok(bv.take(i as int), depth as nat),
        decreases bs.len() - i,
    {
        assert(bv.take(i + 1).drop_last() =~= bv.take(i as int));
        proof {
            lemma_blocks_ok_prefix(bv, i + 1, depth as nat);
        }
        if !check_block(&bs[i], depth) {
            return false;
        }
        i = i + 1;
    }
    assert(bv.take(bs@.len() as int) =~= bv);
    true
}

fn check_message(m: &Json) -> (r: bool)
    ensures
        r == message_ok(m@),
{
    match m {
        Json::Object(_) => {
            check_role(m.get("role")).is_some() && match m.get("content") {
                Some(Json::Str(_)) => true,
                Some(Json::Array(bs)) => check_blocks(bs, BLOCK_DEPTH),
                _ => false,
            }
        },
        _ => false,
    }
}

fn check_system(o: Option<&Json>) -> (r: bool)
    ensures
        r == system_ok(crate::json::opt_view(o)),
{
    match o {
        None => true,
        Some(Json::Null) => true,
        Some(Json::Str(_)) => true,
        Some(Json::Array(bs)) => {
            proof {
                lemma_items_view(bs@);
            }
            let ghost bv = items_view(bs@);
            assert(crate::json::opt_view(o) == Some(JsonV::Array(bv)));
            let mut i: usize = 0;
            while i < bs.len()
                invariant
                    0 <= i <= bs.len(),
                    bv == items_view(bs@),
                    crate::json::opt_view(o) == Some(JsonV::Array(bv)),
                    bv.len() == bs@.len(),
                    forall|k: int| 0 <= k < bs@.len() ==> #[trigger] bv[k] == bs@[k]@,
                    all_system_blocks_ok(bv.take(i as int)),
                decreases bs.len() - i,
            {
                assert(bv.take(i + 1).drop_last() =~= bv.take(i as int));
                proof {
                    lemma_prefix_all(bv, i + 1, 0);
                }
                let ok = match &bs[i] {
                    Json::Object(_) => is_str_exec(bs[i].get("text")),
                    _ => false,
                };
                if !ok {
                    return false;
                }
                i = i + 1;
            }
            assert(bv.take(bs@.len() as int) =~= bv);
            true
        },
        _ => false,
    }
}

fn check_tools(o: Option<&Json>) -> (r: bool)
    ensures
        r == tools_ok(crate::json::opt_view(o)),
{
    match o {
        None => true,
        Some(Json::Null) => true,
        Some(Json::Array(ts)) => {
            proof {
                lemma_items_view(ts@);
            }
            let ghost tv = items_view(ts@);
            assert(crate::json::opt_view(o) == Some(JsonV::Array(tv)));
            let mut i: usize = 0;
            while i < ts.len()
                invariant
                    0 <= i <= ts.len(),
                    tv == items_view(ts@),
                    crate::json::opt_view(o) == Some(JsonV::Array(tv)),
                    tv.len() == ts@.len(),
                    forall|k: int| 0 <= k < ts@.len() ==> #[trigger] tv[k] == ts@[k]@,
                    all_tools_ok(tv.take(i as int)),
                decreases ts.len() - i,
            {
                assert(tv.take(i + 1).drop_last() =~= tv.take(i as int));
                proof {
                    lemma_prefix_all(tv, i + 1, 1);
                }
                let t = &ts[i];
                let ok = match t {
                    Json::Object(_) => {
                        let d = t.get("description");
                        is_str_exec(t.get("name")) && (absent_or_null_exec(d) || is_str_exec(d))
                            && t.get("input_schema").is_some()
                    },
                    _ => false,
                };
                if !ok {
                    return false;
                }
                i = i + 1;
            }
            assert(tv.take(ts@.len() as int) =~= tv);
            true
        },
        _ => false,
    }
}

fn check_stop(o: Option<&Json>) -> (r: bool)
    ensures
        r == stop_ok(crate::json::opt_view(o)),
{
    match o {
        None => true,
        Some(Json::Null) => true,
        Some(Json::Array(ss)) => {
            proof {
                lemma_items_view(ss@);
            }
            let ghost sv = items_view(ss@);
            assert(crate::json::opt_view(o) == Some(JsonV::Array(sv)));
            let mut i: usize = 0;
            while i < ss.len()
                invariant
                    0 <= i <= ss.len(),
                    sv == items_view(ss@),
                    crate::json::opt_view(o) == Some(JsonV::Array(sv)),
                    sv.len() == ss@.len(),
                    forall|k: int| 0 <= k < ss@.len() ==> #[trigger] sv[k] == ss@[k]@,
                    all_strs(sv.take(i as int)),
                decreases ss.len() - i,
            {
                assert(sv.take(i + 1).drop_last() =~= sv.take(i as int));
                proof {
                    lemma_prefix_all(sv, i + 1, 2);
                }
                let ok = match &ss[i] {
                    Json::Str(_) => true,
                    _ => false,
                };
                if !ok {
                    return false;
                }
                i = i + 1;
            }
            assert(sv.take(ss@.len() as int) =~= sv);
            true
        },
        _ => false,
    }
}

pub open spec fn field_text(prefix: Seq<char>, name: Seq<char>) -> Seq<char> {
    prefix + name + "`"@
}

/// The text of a typed-reading failure: it names the first field found out
/// of shape, in the order `model`, `max_tokens`, `messages`, `system`,
/// `temperature`, `top_p`, `top_k`, `stop_sequences`, `stream`, `tools`,
/// `tool_choice`.
pub open spec fn typed_error(j: JsonV) -> Seq<char> {
    match j {
        JsonV::Object(es) => {
            let missing = "missing or invalid field `"@;
            let invalid = "invalid field `"@;
            if !is_str(lookup(es, "model"@)) {
                field_text(missing, "model"@)
            } else if !u32_ok(lookup(es, "max_tokens"@)) {
                field_text(missing, "max_tokens"@)
            } else if !(lookup(es, "messages"@) matches Some(JsonV::Array(_))) {
                field_text(missing, "messages"@)
            } else if !(lookup(es, "messages"@) matches Some(JsonV::Array(ms)) && all_messages_ok(ms)) {
                field_text("invalid message in field `"@, "messages"@)
            } else if !system_ok(lookup(es, "system"@)) {
                field_text(invalid, "system"@)
            } else if !opt_number_ok(lookup(es, "temperature"@)) {
                field_text(invalid, "temperature"@)
            } else if !opt_number_ok(lookup(es, "top_p"@)) {
                field_text(invalid, "top_p"@)
            } else if !(absent_or_null(lookup(es, "top_k"@)) || u32_ok(lookup(es, "top_k"@))) {
                field_text(invalid, "top_k"@)
            } else if !stop_ok(lookup(es, "stop_sequences"@)) {
                field_text(invalid, "stop_sequences"@)
            } else if !(lookup(es, "stream"@) is None || lookup(es, "stream"@) matches Some(
                JsonV::Bool(_),
            )) {
                field_text(invalid, "stream"@)
            } else if !tools_ok(lookup(es, "tools"@)) {
                field_text(invalid, "tools"@)
            } else {
                field_text(invalid, "tool_choice"@)
            }
        },
        _ => "invalid type: expected a request object"@,
    }
}

fn field_error(prefix: &str, name: &str) -> (r: String)
    ensures
        r@ == field_text(prefix@, name@),
{
    let mut s = prefix.to_string();
    s.append(name);
    s.append("`");
    s
}

/// Reads a request in the typed shape; the error names the first field
/// found out of shape.
pub fn check_request(j: &Json) -> (r: Result<(), String>)
    ensures
        r is Ok <==> request_ok(j@),
        r matches Err(e) ==> e@ == typed_error(j@),
{
    match j {
        Json::Object(_) => {},
        _ => {
            return Err("invalid type: expected a request object".to_string());
        },
    }
    if !is_str_exec(j.get("model")) {
        return Err(field_error("missing or invalid field `", "model"));
    }
    if !u32_ok_exec(j.get("max_tokens")) {
        return Err(field_error("missing or invalid field `", "max_tokens"));
    }
    match j.get("messages") {
        Some(Json::Array(ms)) => {
            proof {
                lemma_items_view(ms@);
            }
            let ghost mv = items_view(ms@);
            let mut i: usize = 0;
            while i < ms.len()
                invariant
                    0 <= i <= ms.len(),
                    mv == items_view(ms@),
                    j@.get("messages"@) == Some(JsonV::Array(mv)),
                    is_str(j@.get("model"@)),
                    u32_ok(j@.get("max_tokens"@)),
                    mv.len() == ms@.len(),
                    forall|k: int| 0 <= k < ms@.len() ==> #[trigger] mv[k] == ms@[k]@,
                    all_messages_ok(mv.take(i as int)),
                decreases ms.len() - i,
            {
                assert(mv.take(i + 1).drop_last() =~= mv.take(i as int));
                proof {
                    lemma_prefix_all(mv, i + 1, 3);
                }
                if !check_message(&ms[i]) {
                    assert(!all_messages_ok(mv.take(i + 1)));
                    assert(!all_messages_ok(mv));
                    return Err(field_error("invalid message in field `", "messages"));
                }
                i = i + 1;
            }
            assert(mv.take(ms@.len() as int) =~= mv);
        },
        _ => {
            return Err(field_error("missing or invalid field `", "messages"));
        },
    }
    if !check_system(j.get("system")) {
        return Err(field_error("invalid field `", "system"));
    }
    let t = j.get("temperature");
    if !(absent_or_null_exec(t) || is_number_exec(t)) {
        return Err(field_error("invalid field `", "temperature"));
    }
    let p = j.get("top_p");
    if !(absent_or_null_exec(p) || is_number_exec(p)) {
        return Err(field_error("invalid field `", "top_p"));
    }
    let k = j.get("top_k");
    if !(absent_or_null_exec(k) || u32_ok_exec(k)) {
        return Err(field_error("invalid field `", "top_k"));
    }
    if !check_stop(j.get("stop_sequences")) {
        return Err(field_error("invalid field `", "stop_sequences"));
    }
    let st = j.get("stream");
    let stream_ok = match st {
        None => true,
        Some(Json::Bool(_)) => true,
        _ => false,
    };
    if !stream_ok {
        return Err(field_error("invalid field `", "stream"));
    }
    if !check_tools(j.get("tools")) {
        return Err(field_error("invalid field `", "tools"));
    }
    if check_tool_choice(j.get("tool_choice")).is_err() {
        return Err(field_error("invalid field `", "tool_choice"));
    }
    Ok(())
}

// ---------------------------------------------------------------------------
// The report
// ---------------------------------------------------------------------------

/// Severity of a validation finding.
#[derive(Debug, Clone, Copy, PartialEq, Eq, Structural)]
pub enum ValidationSeverity {
    /// The typed reading failed: the request shape has diverged.
    High,
    /// The typed reading succeeded but met unknown content-block types.
    Medium,
}

impl ValidationSeverity {
    pub open spec fn name_spec(self) -> Seq<char> {
        match self {
            ValidationSeverity::High => "high"@,
            ValidationSeverity::Medium => "medium"@,
        }
    }

    pub fn as_str(&self) -> (r: &'static str)
        ensures
            r@ == self.name_spec(),
    {
        proof {
            reveal_strlit("high");
            reveal_strlit("medium");
        }
        match self {
            ValidationSeverity::High => "high",
            ValidationSeverity::Medium => "medium",
        }
    }
}

/// A single validation finding.
#[derive(Debug)]
pub struct ValidationFinding {
    pub severity: ValidationSeverity,
    /// `typed_parse_failure` or `unknown_content_block`.
    pub category: String,
    /// Human-readable description.
    pub message: String,
    /// The unknown block type name, where there is one.
    pub block_type: Option<String>,
    /// Index in `messages` of the message holding the block.
    pub message_index: Option<usize>,
    /// Role of that message.
    pub role: Option<String>,
}

pub struct FindingV {
    pub severity: ValidationSeverity,
    pub category: Seq<char>,
    pub message: Seq<char>,
    pub block_type: Option<Seq<char>>,
    pub message_index: Option<usize>,
    pub role: Option<Seq<char>>,
}

pub open spec fn opt_string_view(o: Option<String>) -> Option<Seq<char>> {
    match o {
        Some(s) => Some(s@),
        None => None,
    }
}

impl View for ValidationFinding {
    type V = FindingV;

    open spec fn view(&self) -> FindingV {
        FindingV {
            severity: self.severity,
            category: self.category@,
            message: self.message@,
            block_type: opt_string_view(self.block_type),
            message_index: self.message_index,
            role: opt_string_view(self.role),
        }
    }
}

/// Aggregated validation results for one request.
#[derive(Debug)]
pub struct ValidationReport {
    /// Whether the typed reading succeeded.
    pub typed_parse_succeeded: bool,
    pub findings: Vec<ValidationFinding>,
    /// Unknown block type names, each once, in order of first appearance.
    pub unknown_block_types: Vec<String>,
}

pub open spec fn findings_view(v: Seq<ValidationFinding>) -> Seq<FindingV> {
    v.map_values(|f: ValidationFinding| f@)
}

pub open spec fn strings_view(v: Seq<String>) -> Seq<Seq<char>> {
    v.map_values(|s: String| s@)
}

/// Findings and unknown type names collected so far.
pub struct ScanAcc {
    pub findings: Seq<FindingV>,
    pub types: Seq<Seq<char>>,
}

pub open spec fn add_unique(types: Seq<Seq<char>>, t: Seq<char>) -> Seq<Seq<char>> {
    if types.contains(t) {
        types
    } else {
        types.push(t)
    }
}

/// The type name of block `k` of message `i`, read from the generic parse.
pub open spec fn raw_type_name(raw: JsonV, i: int, k: int) -> Seq<char> {
    match opt_str(
        opt_get(opt_at(opt_get(opt_at(raw.get("messages"@), i), "content"@), k), "type"@),
    ) {
        Some(t) => t,
        None => "unknown"@,
    }
}

pub open spec fn unknown_finding(name: Seq<char>, i: nat, role: Seq<char>) -> FindingV {
    FindingV {
        severity: ValidationSeverity::Medium,
        category: "unknown_content_block"@,
        message: "Unknown content block type \""@ + name + "\" in "@ + role
            + " message at index "@ + decimal(i),
        block_type: Some(name),
        message_index: Some(i as usize),
        role: Some(role),
    }
}

/// The block is one the typed reading leaves as an unknown kind.
pub open spec fn is_unknown_block(b: JsonV) -> bool {
    opt_str(b.get("type"@)) matches Some(t) && !known_block_type(t)
}

pub open spec fn scan_blocks(
    raw: JsonV,
    i: nat,
    role: Seq<char>,
    bs: Seq<JsonV>,
    acc: ScanAcc,
) -> ScanAcc
    decreases bs.len(),
{
    if bs.len() == 0 {
        acc
    } else {
        let prev = scan_blocks(raw, i, role, bs.drop_last(), acc);
        if is_unknown_block(bs.last()) {
            let name = raw_type_name(raw, i as int, bs.len() - 1);
            ScanAcc {
                findings: prev.findings.push(unknown_finding(name, i, role)),
                types: add_unique(prev.types, name),
            }
        } else {
            prev
        }
    }
}

pub open spec fn scan_message(raw: JsonV, i: nat, m: JsonV, acc: ScanAcc) -> ScanAcc {
    match role_of(m.get("role"@)) {
        Some(r) => match m.get("content"@) {
            Some(JsonV::Array(bs)) => scan_blocks(raw, i, role_name_spec(r), bs, acc),
            _ => acc,
        },
        None => acc,
    }
}

pub open spec fn scan_messages(raw: JsonV, ms: Seq<JsonV>) -> ScanAcc
    decreases ms.len(),
{
    if ms.len() == 0 {
        ScanAcc { findings: Seq::empty(), types: Seq::empty() }
    } else {
        scan_message(
            raw,
            (ms.len() - 1) as nat,
            ms.last(),
            scan_messages(raw, ms.drop_last()),
        )
    }
}

pub open spec fn doc_messages(d: JsonV) -> Seq<JsonV> {
    match d.get("messages"@) {
        Some(JsonV::Array(ms)) => ms,
        _ => Seq::empty(),
    }
}

fn add_unique_exec(types: &mut Vec<String>, t: &String)
    ensures
        strings_view(final(types)@) == add_unique(strings_view(old(types)@), t@),
{
    let ghost tv = strings_view(types@);
    let mut i: usize = 0;
    while i < types.len()
        invariant
            0 <= i <= types.len(),
            tv == strings_view(types@),
            types@ == old(types)@,
            forall|k: int| 0 <= k < i ==> tv[k] != t@,
        decreases types.len() - i,
    {
        if str_eq(types[i].as_str(), t.as_str()) {
            assert(tv[i as int] == t@);
            assert(tv.contains(t@));
            return ;
        }
        i = i + 1;
    }
    assert(!tv.contains(t@));
    types.push(t.clone());
    assert(strings_view(types@) =~= tv.push(t@));
}

fn raw_type_name_exec(raw: &Json, i: usize, k: usize) -> (r: String)
    ensures
        r@ == raw_type_name(raw@, i as int, k as int),
{
    let o = get_in(at_in(get_in(at_in(raw.get("messages"), i), "content"), k), "type");
    match str_in(o) {
        Some(t) => t.clone(),
        None => {
            proof {
                reveal_strlit("unknown");
            }
            "unknown".to_string()
        },
    }
}

fn unknown_finding_exec(name: String, i: usize, role: &str) -> (r: ValidationFinding)
    ensures
        r@ == unknown_finding(name@, i as nat, role@),
{
    let mut message = "Unknown content block type \"".to_string();
    message.append(name.as_str());
    message.append("\" in ");
    message.append(role);
    message.append(" message at index ");
    push_decimal(&mut message, i);
    proof {
        reveal_strlit("unknown_content_block");
    }
    ValidationFinding {
        severity: ValidationSeverity::Medium,
        category: "unknown_content_block".to_string(),
        message,
        block_type: Some(name),
        message_index: Some(i),
        role: Some(role.to_string()),
    }
}

fn is_unknown_block_exec(b: &Json) -> (r: bool)
    ensures
        r == is_unknown_block(b@),
{
    proof {
        reveal_strlit("text");
        reveal_strlit("image");
        reveal_strlit("tool_use");
        reveal_strlit("tool_result");
    }
    match str_in(b.get("type")) {
        Some(t) => {
            let s = t.as_str();
            !(str_eq(s, "text") || str_eq(s, "image") || str_eq(s, "tool_use") || str_eq(
                s,
                "tool_result",
            ))
        },
        None => false,
    }
}

fn scan_message_exec(
    raw: &Json,
    i: usize,
    m: &Json,
    findings: &mut Vec<ValidationFinding>,
    types: &mut Vec<String>,
)
    ensures
        scan_message(
            raw@,
            i as nat,
            m@,
            ScanAcc { findings: findings_view(old(findings)@), types: strings_view(old(types)@) },
        ) == (ScanAcc { findings: findings_view(final(findings)@), types: strings_view(final(types)@) }),
{
    let role = match check_role(m.get("role")) {
        Some(r) => r,
        None => {
            return ;
        },
    };
    let rn = role_name(role);
    match m.get("content") {
        Some(Json::Array(bs)) => {
            proof {
                lemma_items_view(bs@);
            }
            let ghost bv = items_view(bs@);
            let ghost acc0 = ScanAcc {
                findings: findings_view(findings@),
                types: strings_view(types@),
            };
            assert(m@.get("content"@) == Some(JsonV::Array(bv)));
            let mut k: usize = 0;
            while k < bs.len()
                invariant
                    0 <= k <= bs.len(),
                    bv == items_view(bs@),
                    bv.len() == bs@.len(),
                    forall|q: int| 0 <= q < bs@.len() ==> #[trigger] bv[q] == bs@[q]@,
                    scan_blocks(raw@, i as nat, rn@, bv.take(k as int), acc0) == (ScanAcc {
                        findings: findings_view(findings@),
                        types: strings_view(types@),
                    }),
                decreases bs.len() - k,
            {
                assert(bv.take(k + 1).drop_last() =~= bv.take(k as int));
                assert(bv.take(k + 1).last() == bs@[k as int]@);
                if is_unknown_block_exec(&bs[k]) {
                    let name = raw_type_name_exec(raw, i, k);
                    add_unique_exec(types, &name);
                    let f = unknown_finding_exec(name, i, rn);
                    let ghost fv = f@;
                    let ghost before = findings@;
                    findings.push(f);
                    assert(findings_view(findings@) =~= findings_view(before).push(fv));
                }
                k = k + 1;
            }
            assert(bv.take(bs@.len() as int) =~= bv);
        },
        _ => {},
    }
}

/// Validates a request: a typed reading of its bytes, and, where that
/// succeeds, one medium finding per content block of unknown type, whose
/// name is read from `raw_value`, the generic parse of the same body.
pub fn validate_request(request_bytes: &[u8], raw_value: &Json) -> (r: ValidationReport)
    ensures
        match json_decoded(request_bytes@) {
            Some(d) if request_ok(d) => {
                let acc = scan_messages(raw_value@, doc_messages(d));
                &&& r.typed_parse_succeeded
                &&& findings_view(r.findings@) == acc.findings
                &&& strings_view(r.unknown_block_types@) == acc.types
            },
            _ => {
                &&& !r.typed_parse_succeeded
                &&& r.findings@.len() == 1
                &&& r.findings@[0]@.severity == ValidationSeverity::High
                &&& r.findings@[0]@.category == "typed_parse_failure"@
                &&& r.findings@[0]@.block_type is None
                &&& r.findings@[0]@.message_index is None
                &&& r.findings@[0]@.role is None
                &&& r.unknown_block_types@.len() == 0
                &&& r.findings@[0]@.message == "Typed deserialization failed: "@ + match json_decoded(
                    request_bytes@,
                ) {
                    Some(d) => typed_error(d),
                    None => "expected one JSON document"@,
                }
            },
        },
{
    let typed = match decode_json(request_bytes) {
        Some(d) => match check_request(&d) {
            Ok(()) => Ok(d),
            Err(e) => Err(e),
        },
        None => Err("expected one JSON document".to_string()),
    };
    match typed {
        Err(e) => {
            let mut message = "Typed deserialization failed: ".to_string();
            message.append(e.as_str());
            proof {
                reveal_strlit("typed_parse_failure");
            }
            let f = ValidationFinding {
                severity: ValidationSeverity::High,
                category: "typed_parse_failure".to_string(),
                message,
                block_type: None,
                message_index: None,
                role: None,
            };
            ValidationReport {
                typed_parse_succeeded: false,
                findings: vec![f],
                unknown_block_types: Vec::new(),
            }
        },
        Ok(d) => {
            let mut findings: Vec<ValidationFinding> = Vec::new();
            let mut types: Vec<String> = Vec::new();
            let ghost mvs = doc_messages(d@);
            match d.get("messages") {
                Some(Json::Array(ms)) => {
                    proof {
                        lemma_items_view(ms@);
                    }
                    let ghost mv = items_view(ms@);
                    assert(mv == mvs);
                    let mut i: usize = 0;
                    assert(findings_view(findings@) =~= Seq::<FindingV>::empty());
                    assert(strings_view(types@) =~= Seq::<Seq<char>>::empty());
                    while i < ms.len()
                        invariant
                            0 <= i <= ms.len(),
                            mv == items_view(ms@),
                            mv.len() == ms@.len(),
                            forall|q: int| 0 <= q < ms@.len() ==> #[trigger] mv[q] == ms@[q]@,
                            scan_messages(raw_value@, mv.take(i as int)) == (ScanAcc {
                                findings: findings_view(findings@),
                                types: strings_view(types@),
                            }),
                        decreases ms.len() - i,
                    {
                        assert(mv.take(i + 1).drop_last() =~= mv.take(i as int));
                        assert(mv.take(i + 1).last() == ms@[i as int]@);
                        scan_message_exec(raw_value, i, &ms[i], &mut findings, &mut types);
                        i = i + 1;
                    }
                    assert(mv.take(ms@.len() as int) =~= mv);
                },
                _ => {
                    assert(findings_view(findings@) =~= Seq::<FindingV>::empty());
                    assert(strings_view(types@) =~= Seq::<Seq<char>>::empty());
                },
            }
            ValidationReport { typed_parse_succeeded: true, findings, unknown_block_types: types }
        },
    }
}

pub open spec fn count_unknown_blocks(bs: Seq<JsonV>) -> nat
    decreases bs.len(),
{
    if bs.len() == 0 {
        0
    } else {
        count_unknown_blocks(bs.drop_last()) + if is_unknown_block(bs.last()) {
            1nat
        } else {
            0nat
        }
    }
}

/// Number of content blocks of unknown type in the messages `ms`.
pub open spec fn count_unknown(ms: Seq<JsonV>) -> nat
    decreases ms.len(),
{
    if ms.len() == 0 {
        0
    } else {
        let m = ms.last();
        count_unknown(ms.drop_last()) + match role_of(m.get("role"@)) {
            Some(_) => match m.get("content"@) {
                Some(JsonV::Array(bs)) => count_unknown_blocks(bs),
                _ => 0nat,
            },
            None => 0nat,
        }
    }
}

pub open spec fn scan_inv(acc: ScanAcc) -> bool {
    &&& acc.types.no_duplicates()
    &&& forall|f: int|
        0 <= f < acc.findings.len() ==> (#[trigger] acc.findings[f]).severity
            == ValidationSeverity::Medium && acc.findings[f].category == "unknown_content_block"@
            && acc.findings[f].block_type is Some && acc.types.contains(
            acc.findings[f].block_type->0,
        )
}

proof fn lemma_scan_blocks(raw: JsonV, i: nat, role: Seq<char>, bs: Seq<JsonV>, acc: ScanAcc)
    requires
        scan_inv(acc),
    ensures
        scan_inv(scan_blocks(raw, i, role, bs, acc)),
        scan_blocks(raw, i, role, bs, acc).findings.len() == acc.findings.len()
            + count_unknown_blocks(bs),
    decreases bs.len(),
{
    if bs.len() > 0 {
        lemma_scan_blocks(raw, i, role, bs.drop_last(), acc);
        let prev = scan_blocks(raw, i, role, bs.drop_last(), acc);
        if is_unknown_block(bs.last()) {
            let name = raw_type_name(raw, i as int, bs.len() - 1);
            let out = scan_blocks(raw, i, role, bs, acc);
            assert(out.types.contains(name)) by {
                if !prev.types.contains(name) {
                    assert(out.types[prev.types.len() as int] == name);
                }
            }
            assert forall|t: Seq<char>| prev.types.contains(t) implies out.types.contains(t) by {
                if !prev.types.contains(name) {
                    let k = choose|k: int| 0 <= k < prev.types.len() && prev.types[k] == t;
                    assert(out.types[k] == t);
                }
            }
            assert(out.types.no_duplicates()) by {
                if !prev.types.contains(name) {
                    assert forall|a: int, b: int|
                        0 <= a < out.types.len() && 0 <= b < out.types.len() && a != b implies out.types[a]
                        != out.types[b] by {
                        if a == prev.types.len() as int {
                            assert(!prev.types.contains(out.types[b]) || out.types[b] != name);
                        } else if b == prev.types.len() as int {
                            assert(out.types[a] == prev.types[a]);
                        }
                    }
                }
            }
            assert forall|f: int| 0 <= f < out.findings.len() implies (
            #[trigger] out.findings[f]).severity == ValidationSeverity::Medium
                && out.findings[f].category == "unknown_content_block"@
                && out.findings[f].block_type is Some && out.types.contains(
                out.findings[f].block_type->0,
            ) by {
                if f < prev.findings.len() {
                    assert(out.findings[f] == prev.findings[f]);
                    assert(prev.types.contains(prev.findings[f].block_type->0));
                }
            }
        }
    }
}

/// For a request in the typed shape, each content block of a type outside
/// {text, image, tool_use, tool_result} gives exactly one medium finding,
/// blocks of the known types give none, and every unknown type name is
/// listed once in the report's type list.
pub proof fn lemma_unknown_blocks_reported_once(raw: JsonV, ms: Seq<JsonV>)
    ensures
        scan_inv(scan_messages(raw, ms)),
        scan_messages(raw, ms).findings.len() == count_unknown(ms),
        count_unknown(ms) == 0 ==> scan_messages(raw, ms).findings.len() == 0,
    decreases ms.len(),
{
    if ms.len() == 0 {
        let acc = scan_messages(raw, ms);
        assert(acc.types.no_duplicates());
    } else {
        lemma_unknown_blocks_reported_once(raw, ms.drop_last());
        let prev = scan_messages(raw, ms.drop_last());
        let m = ms.last();
        match role_of(m.get("role"@)) {
            Some(r) => match m.get("content"@) {
                Some(JsonV::Array(bs)) => {
                    lemma_scan_blocks(raw, (ms.len() - 1) as nat, role_name_spec(r), bs, prev);
                },
                _ => {},
            },
            None => {},
        }
    }
}

/// Message index, block index and role of each block of unknown type in
/// `bs`, the blocks of message `i`.
pub open spec fn unknown_in_blocks(i: nat, role: Seq<char>, bs: Seq<JsonV>) -> Seq<
    (nat, nat, Seq<char>),
>
    decreases bs.len(),
{
    if bs.len() == 0 {
        Seq::empty()
    } else {
        let prev = unknown_in_blocks(i, role, bs.drop_last());
        if is_unknown_block(bs.last()) {
            prev.push((i, (bs.len() - 1) as nat, role))
        } else {
            prev
        }
    }
}

/// Every block of unknown type in the messages `ms`, in message then block
/// order, with the role of its message.
pub open spec fn unknown_blocks(ms: Seq<JsonV>) -> Seq<(nat, nat, Seq<char>)>
    decreases ms.len(),
{
    if ms.len() == 0 {
        Seq::empty()
    } else {
        let m = ms.last();
        unknown_blocks(ms.drop_last()) + match role_of(m.get("role"@)) {
            Some(r) => match m.get("content"@) {
                Some(JsonV::Array(bs)) => unknown_in_blocks(
                    (ms.len() - 1) as nat,
                    role_name_spec(r),
                    bs,
                ),
                _ => Seq::empty(),
            },
            None => Seq::empty(),
        }
    }
}

/// The finding expected for the unknown block at `p`.
pub open spec fn finding_for(raw: JsonV, p: (nat, nat, Seq<char>)) -> FindingV {
    unknown_finding(raw_type_name(raw, p.0 as int, p.1 as int), p.0, p.2)
}

/// The items of `ts` without repeats, each at its first occurrence.
pub open spec fn dedup(ts: Seq<Seq<char>>) -> Seq<Seq<char>>
    decreases ts.len(),
{
    if ts.len() == 0 {
        Seq::empty()
    } else {
        add_unique(dedup(ts.drop_last()), ts.last())
    }
}

pub open spec fn finding_types(fs: Seq<FindingV>) -> Seq<Seq<char>> {
    fs.map_values(|f: FindingV| f.block_type->0)
}

proof fn lemma_scan_blocks_exact(raw: JsonV, i: nat, role: Seq<char>, bs: Seq<JsonV>, acc: ScanAcc)
    requires
        acc.types == dedup(finding_types(acc.findings)),
    ensures
        ({
            let out = scan_blocks(raw, i, role, bs, acc);
            &&& out.findings == acc.findings + unknown_in_blocks(i, role, bs).map_values(
                |p: (nat, nat, Seq<char>)| finding_for(raw, p),
            )
            &&& out.types == dedup(finding_types(out.findings))
        }),
    decreases bs.len(),
{
    if bs.len() == 0 {
        assert(acc.findings + Seq::<(nat, nat, Seq<char>)>::empty().map_values(
            |p: (nat, nat, Seq<char>)| finding_for(raw, p),
        ) =~= acc.findings);
    } else {
        lemma_scan_blocks_exact(raw, i, role, bs.drop_last(), acc);
        let prev = scan_blocks(raw, i, role, bs.drop_last(), acc);
        let pp = unknown_in_blocks(i, role, bs.drop_last());
        if is_unknown_block(bs.last()) {
            let q = (i, (bs.len() - 1) as nat, role);
            let f = finding_for(raw, q);
            assert(pp.push(q).map_values(|p: (nat, nat, Seq<char>)| finding_for(raw, p))
                =~= pp.map_values(|p: (nat, nat, Seq<char>)| finding_for(raw, p)).push(f));
            let nf = prev.findings.push(f);
            assert(finding_types(nf).drop_last() =~= finding_types(prev.findings));
            assert(finding_types(nf).last() == f.block_type->0);
        }
    }
}

/// Each block of unknown type in a typed request gives exactly one
/// finding, in message then block order, with that block's type name read
/// from the generic parse, its message index and its message's role; the
/// type list holds the findings' type names without repeats, each at its
/// first occurrence.
pub proof fn lemma_findings_match_unknown_blocks(raw: JsonV, ms: Seq<JsonV>)
    ensures
        scan_messages(raw, ms).findings == unknown_blocks(ms).map_values(
            |p: (nat, nat, Seq<char>)| finding_for(raw, p),
        ),
        scan_messages(raw, ms).types == dedup(finding_types(scan_messages(raw, ms).findings)),
    decreases ms.len(),
{
    if ms.len() == 0 {
        assert(Seq::<(nat, nat, Seq<char>)>::empty().map_values(
            |p: (nat, nat, Seq<char>)| finding_for(raw, p),
        ) =~= Seq::<FindingV>::empty());
        assert(finding_types(Seq::<FindingV>::empty()) =~= Seq::<Seq<char>>::empty());
    } else {
        lemma_findings_match_unknown_blocks(raw, ms.drop_last());
        let prev = scan_messages(raw, ms.drop_last());
        let pu = unknown_blocks(ms.drop_last());
        let m = ms.last();
        let i = (ms.len() - 1) as nat;
        match role_of(m.get("role"@)) {
            Some(r) => match m.get("content"@) {
                Some(JsonV::Array(bs)) => {
                    lemma_scan_blocks_exact(raw, i, role_name_spec(r), bs, prev);
                    let nb = unknown_in_blocks(i, role_name_spec(r), bs);
                    assert((pu + nb).map_values(|p: (nat, nat, Seq<char>)| finding_for(raw, p))
                        =~= pu.map_values(|p: (nat, nat, Seq<char>)| finding_for(raw, p))
                        + nb.map_values(|p: (nat, nat, Seq<char>)| finding_for(raw, p)));
                },
                _ => {
                    assert(pu + Seq::<(nat, nat, Seq<char>)>::empty() =~= pu);
                },
            },
            None => {
                assert(pu + Seq::<(nat, nat, Seq<char>)>::empty() =~= pu);
            },
        }
    }
}

} // verus!
