//! Forwarding decisions: which headers travel, what status the client sees,
//! where a request goes in each mode, and the response tap's buffer.

use crate::json::{decode_json, get_in, json_decoded, opt_bool, opt_get, opt_str, opt_u64, opt_view, str_eq, str_in, u64_in, bool_in, Json, JsonV};
use crate::mode::ProxyMode;
use vstd::prelude::*;
use vstd::string::StringSliceAdditionalSpecFns;

verus! {

broadcast use vstd::std_specs::vec::group_vec_axioms, vstd::seq::group_seq_axioms;

/// Header that carries the correlation identifier on every outbound request
/// and every response.
pub const CORRELATION_HEADER: &'static str = "x-shadow-request-id";

pub open spec fn hop_by_hop(name: Seq<char>) -> bool {
    name == "host"@ || name == "connection"@ || name == "transfer-encoding"@ || name
        == "keep-alive"@ || name == "upgrade"@ || name == "proxy-authenticate"@ || name
        == "proxy-authorization"@ || name == "te"@ || name == "trailers"@
}

/// A hop-by-hop header, which is never forwarded (`name` in lower case).
pub fn is_hop_by_hop(name: &str) -> (r: bool)
    ensures
        r == hop_by_hop(name@),
{
    proof {
        reveal_strlit("host");
        reveal_strlit("connection");
        reveal_strlit("transfer-encoding");
        reveal_strlit("keep-alive");
        reveal_strlit("upgrade");
        reveal_strlit("proxy-authenticate");
        reveal_strlit("proxy-authorization");
        reveal_strlit("te");
        reveal_strlit("trailers");
    }
    str_eq(name, "host") || str_eq(name, "connection") || str_eq(name, "transfer-encoding")
        || str_eq(name, "keep-alive") || str_eq(name, "upgrade") || str_eq(
        name,
        "proxy-authenticate",
    ) || str_eq(name, "proxy-authorization") || str_eq(name, "te") || str_eq(name, "trailers")
}

/// Which client request headers go upstream on `/v1/messages`.
pub open spec fn forwards_request_header(name: Seq<char>, to_target: bool) -> bool {
    !hop_by_hop(name) && name != "content-type"@ && name != "x-shadow-request-id"@ && name
        != "content-length"@ && !(to_target && name == "x-api-key"@)
}

/// Whether the client request header `name` (lower case) is copied onto the
/// upstream request of `/v1/messages`. The content type and correlation
/// header are set anew, the length may have changed with the rewrite, and
/// the target authenticates on its own.
pub fn forward_request_header(name: &str, to_target: bool) -> (r: bool)
    ensures
        r == forwards_request_header(name@, to_target),
{
    proof {
        reveal_strlit("content-type");
        reveal_strlit("x-shadow-request-id");
        reveal_strlit("content-length");
        reveal_strlit("x-api-key");
    }
    !is_hop_by_hop(name) && !str_eq(name, "content-type") && !str_eq(name, CORRELATION_HEADER)
        && !str_eq(name, "content-length") && !(to_target && str_eq(name, "x-api-key"))
}

/// Whether a client request header is copied on a catch-all forward.
pub fn forward_raw_header(name: &str) -> (r: bool)
    ensures
        r == (!hop_by_hop(name@) && name@ != "x-shadow-request-id"@),
{
    proof {
        reveal_strlit("x-shadow-request-id");
    }
    !is_hop_by_hop(name) && !str_eq(name, CORRELATION_HEADER)
}

/// Whether an upstream response header is copied to the client.
pub fn forward_response_header(name: &str) -> (r: bool)
    ensures
        r == !hop_by_hop(name@),
{
    !is_hop_by_hop(name)
}

/// The status the client sees for an upstream status code: the code itself
/// where it is a valid HTTP status (100 to 999), else 502.
pub fn client_status(upstream: u16) -> (r: u16)
    ensures
        100 <= upstream <= 999 ==> r == upstream,
        !(100 <= upstream <= 999) ==> r == 502,
{
    if 100 <= upstream && upstream <= 999 {
        upstream
    } else {
        502
    }
}

/// The status for a request whose upstream call failed: 504 on a timeout,
/// 502 on any other transport error.
pub fn upstream_error_status(is_timeout: bool) -> (r: u16)
    ensures
        is_timeout ==> r == 504,
        !is_timeout ==> r == 502,
{
    if is_timeout {
        504
    } else {
        502
    }
}

/// `base` followed by the Messages path.
pub fn messages_url(base: &str) -> (r: String)
    ensures
        r@ == base@ + "/v1/messages"@,
{
    let mut s = base.to_string();
    s.append("/v1/messages");
    s
}

/// The passthrough URL of a catch-all request.
pub fn fallback_url(base: &str, path: &str, query: Option<&str>) -> (r: String)
    ensures
        r@ == base@ + path@ + match query {
            Some(q) => "?"@ + q@,
            None => Seq::empty(),
        },
{
    let mut s = base.to_string();
    s.append(path);
    match query {
        Some(q) => {
            s.append("?");
            s.append(q);
        },
        None => {},
    }
    s
}

/// `s` with every leading copy of `p` removed.
pub open spec fn trim_start_all(s: Seq<char>, p: Seq<char>) -> Seq<char>
    decreases s.len(),
{
    if p.len() > 0 && p.len() <= s.len() && s.take(p.len() as int) == p {
        trim_start_all(s.skip(p.len() as int), p)
    } else {
        s
    }
}

/// `s` up to its first `'/'`.
pub open spec fn before_slash(s: Seq<char>) -> Seq<char>
    decreases s.len(),
{
    if s.len() == 0 {
        s
    } else if s[0] == '/' {
        Seq::empty()
    } else {
        seq![s[0]] + before_slash(s.drop_first())
    }
}

/// The host part of a base URL, for span fields.
pub open spec fn host_of(url: Seq<char>) -> Seq<char> {
    before_slash(trim_start_all(trim_start_all(url, "https://"@), "http://"@))
}

fn chars_of(s: &str) -> (r: Vec<char>)
    ensures
        r@ == s@,
{
    let mut v: Vec<char> = Vec::new();
    for c in it: s.chars()
        invariant
            it.seq() == s@,
            v@ == s@.take(it.index() as int),
    {
        assert(s@.take(it.index() + 1) =~= s@.take(it.index() as int).push(c));
        v.push(c);
    }
    assert(s@.take(s@.len() as int) =~= s@);
    v
}

fn starts_at(v: &Vec<char>, i: usize, p: &Vec<char>) -> (r: bool)
    requires
        i <= v@.len(),
    ensures
        r == (p@.len() <= v@.len() - i && v@.skip(i as int).take(p@.len() as int) == p@),
{
    if p.len() > v.len() - i {
        return false;
    }
    let mut k: usize = 0;
    while k < p.len()
        invariant
            i + p@.len() <= v@.len(),
            v@.len() == v.len(),
            0 <= k <= p@.len(),
            forall|q: int| 0 <= q < k ==> v@[i + q] == p@[q],
        decreases p.len() - k,
    {
        if v[i + k] != p[k] {
            assert(v@.skip(i as int).take(p@.len() as int)[k as int] != p@[k as int]);
            return false;
        }
        k = k + 1;
    }
    assert(v@.skip(i as int).take(p@.len() as int) =~= p@);
    true
}

fn trim_start_from(v: &Vec<char>, start: usize, p: &Vec<char>) -> (r: usize)
    requires
        start <= v@.len(),
    ensures
        start <= r <= v@.len(),
        v@.skip(r as int) == trim_start_all(v@.skip(start as int), p@),
{
    let mut i = start;
    if p.len() == 0 {
        return i;
    }
    loop
        invariant
            start <= i <= v@.len(),
            v@.len() == v.len(),
            p@.len() > 0,
            trim_start_all(v@.skip(start as int), p@) == trim_start_all(v@.skip(i as int), p@),
        decreases v@.len() - i,
    {
        if !starts_at(v, i, p) {
            return i;
        }
        assert(v@.skip(i as int).skip(p@.len() as int) =~= v@.skip(i + p@.len()));
        i = i + p.len();
    }
}

/// The host of a base URL: scheme prefixes removed, up to the first `/`.
pub fn upstream_host(url: &str) -> (r: String)
    ensures
        r@ == host_of(url@),
{
    let v = chars_of(url);
    let https = chars_of("https://");
    let http = chars_of("http://");
    assert(v@.skip(0) =~= v@);
    let a = trim_start_from(&v, 0, &https);
    let b = trim_start_from(&v, a, &http);
    let mut out = String::new();
    let mut i = b;
    while i < v.len() && v[i] != '/'
        invariant
            b <= i <= v@.len(),
            forall|q: int| b <= q < i ==> v@[q] != '/',
            out@ == v@.subrange(b as int, i as int),
            before_slash(v@.skip(b as int)) == out@ + before_slash(v@.skip(i as int)),
        decreases v@.len() - i,
    {
        assert(v@.skip(i as int).drop_first() =~= v@.skip(i + 1));
        crate::json::push_char(&mut out, v[i]);
        assert(out@ =~= v@.subrange(b as int, i + 1));
        i = i + 1;
    }
    proof {
        if i < v@.len() {
            assert(v@.skip(i as int)[0] == '/');
        } else {
            assert(v@.skip(i as int) =~= Seq::<char>::empty());
        }
        assert(out@ =~= out@ + before_slash(v@.skip(i as int)));
    }
    out
}

// ---------------------------------------------------------------------------
// Routing
// ---------------------------------------------------------------------------

/// Where a `/v1/messages` request goes.
#[derive(Debug, Clone, Copy, PartialEq, Eq, Structural)]
pub enum MessagesRoute {
    /// To the target only.
    Target,
    /// Mirrored to the target, then forwarded to the passthrough upstream.
    CompareThenPassthrough,
    /// To the passthrough upstream only.
    Passthrough,
    /// Refused with 403: anthropic-only mode was not allowed at launch.
    Forbidden,
}

/// The route of a `/v1/messages` request in `mode`.
pub fn route_messages(mode: ProxyMode, anthropic_only_allowed: bool) -> (r: MessagesRoute)
    ensures
        mode == ProxyMode::TargetOnly ==> r == MessagesRoute::Target,
        mode == ProxyMode::Compare ==> r == MessagesRoute::CompareThenPassthrough,
        mode == ProxyMode::AnthropicOnly && anthropic_only_allowed ==> r
            == MessagesRoute::Passthrough,
        mode == ProxyMode::AnthropicOnly && !anthropic_only_allowed ==> r
            == MessagesRoute::Forbidden,
{
    match mode {
        ProxyMode::TargetOnly => MessagesRoute::Target,
        ProxyMode::Compare => MessagesRoute::CompareThenPassthrough,
        ProxyMode::AnthropicOnly => if anthropic_only_allowed {
            MessagesRoute::Passthrough
        } else {
            MessagesRoute::Forbidden
        },
    }
}

/// Whether a catch-all request is forwarded; in target mode there is no
/// passthrough and the answer is 404.
pub fn fallback_forwards(mode: ProxyMode) -> (r: bool)
    ensures
        r == (mode != ProxyMode::TargetOnly),
{
    match mode {
        ProxyMode::TargetOnly => false,
        _ => true,
    }
}

/// The mode named `s` on the wire.
pub fn mode_from_name(s: &str) -> (r: Option<ProxyMode>)
    ensures
        r == mode_named(s@),
{
    proof {
        reveal_strlit("anthropic-only");
        reveal_strlit("target");
        reveal_strlit("compare");
    }
    if str_eq(s, "anthropic-only") {
        Some(ProxyMode::AnthropicOnly)
    } else if str_eq(s, "target") {
        Some(ProxyMode::TargetOnly)
    } else if str_eq(s, "compare") {
        Some(ProxyMode::Compare)
    } else {
        None
    }
}

/// The starting mode for a configured name; unknown names start in target
/// mode.
pub fn initial_mode(name: &str) -> (r: ProxyMode)
    ensures
        name@ == "anthropic-only"@ ==> r == ProxyMode::AnthropicOnly,
        name@ == "compare"@ ==> r == ProxyMode::Compare,
        name@ != "anthropic-only"@ && name@ != "compare"@ ==> r == ProxyMode::TargetOnly,
{
    proof {
        reveal_strlit("anthropic-only");
        reveal_strlit("target");
        reveal_strlit("compare");
        assert("compare"@.len() != "anthropic-only"@.len());
        assert("compare"@.len() != "target"@.len());
    }
    match mode_from_name(name) {
        Some(m) => m,
        None => ProxyMode::TargetOnly,
    }
}

/// Why an admin update is refused.
#[derive(Debug, Clone, Copy, PartialEq, Eq, Structural)]
pub enum AdminError {
    /// 400: the `mode` member is missing or not a string.
    MissingMode,
    /// 400: the mode name is not one of the three.
    InvalidMode,
    /// 403: anthropic-only mode was not allowed at launch.
    AnthropicOnlyDisabled,
    /// 400: the `enabled` member is missing or not a boolean.
    MissingEnabled,
}

impl AdminError {
    /// HTTP status of the refusal.
    pub fn status(self) -> (r: u16)
        ensures
            self == AdminError::AnthropicOnlyDisabled ==> r == 403,
            self != AdminError::AnthropicOnlyDisabled ==> r == 400,
    {
        match self {
            AdminError::AnthropicOnlyDisabled => 403,
            _ => 400,
        }
    }

    /// Text of the JSON `error` member.
    pub fn message(self) -> (r: &'static str)
        ensures
            self == AdminError::MissingMode ==> r@ == "missing 'mode' field"@,
            self == AdminError::InvalidMode ==> r@
                == "invalid mode, expected: target, compare, or anthropic-only"@,
            self == AdminError::AnthropicOnlyDisabled ==> r@
                == "anthropic-only mode is disabled; restart with --allow-anthropic-only"@,
            self == AdminError::MissingEnabled ==> r@ == "missing 'enabled' boolean field"@,
    {
        match self {
            AdminError::MissingMode => "missing 'mode' field",
            AdminError::InvalidMode => "invalid mode, expected: target, compare, or anthropic-only",
            AdminError::AnthropicOnlyDisabled => "anthropic-only mode is disabled; restart with --allow-anthropic-only",
            AdminError::MissingEnabled => "missing 'enabled' boolean field",
        }
    }
}

pub open spec fn mode_named(s: Seq<char>) -> Option<ProxyMode> {
    if s == "anthropic-only"@ {
        Some(ProxyMode::AnthropicOnly)
    } else if s == "target"@ {
        Some(ProxyMode::TargetOnly)
    } else if s == "compare"@ {
        Some(ProxyMode::Compare)
    } else {
        None
    }
}

/// The decision on a `PUT /api/mode` body.
pub open spec fn set_mode_decision(payload: JsonV, allowed: bool) -> Result<ProxyMode, AdminError> {
    match opt_str(payload.get("mode"@)) {
        None => Err(AdminError::MissingMode),
        Some(s) => match mode_named(s) {
            None => Err(AdminError::InvalidMode),
            Some(m) => if m == ProxyMode::AnthropicOnly && !allowed {
                Err(AdminError::AnthropicOnlyDisabled)
            } else {
                Ok(m)
            },
        },
    }
}

/// Decides a `PUT /api/mode` body: the mode to store, or why not.
pub fn decide_set_mode(payload: &Json, anthropic_only_allowed: bool) -> (r: Result<ProxyMode, AdminError>)
    ensures
        r == set_mode_decision(payload@, anthropic_only_allowed),
{
    match str_in(payload.get("mode")) {
        None => Err(AdminError::MissingMode),
        Some(s) => match mode_from_name(s.as_str()) {
            None => Err(AdminError::InvalidMode),
            Some(m) => {
                proof {
                    reveal_strlit("anthropic-only");
                    reveal_strlit("target");
                    reveal_strlit("compare");
                }
                if m == ProxyMode::AnthropicOnly && !anthropic_only_allowed {
                    Err(AdminError::AnthropicOnlyDisabled)
                } else {
                    Ok(m)
                }
            },
        },
    }
}

/// Decides a `PUT /api/tracing` body: the flag to store, or why not.
pub fn decide_set_tracing(payload: &Json) -> (r: Result<bool, AdminError>)
    ensures
        match payload@.get("enabled"@) {
            Some(JsonV::Bool(b)) => r == Ok::<bool, AdminError>(b),
            _ => r == Err::<bool, AdminError>(AdminError::MissingEnabled),
        },
{
    match payload.get("enabled") {
        Some(Json::Bool(b)) => Ok(*b),
        _ => Err(AdminError::MissingEnabled),
    }
}

/// The `model` and `stream` members of a parsed request body, defaulting to
/// `"unknown"` and `false`.
pub fn request_model_and_stream(parsed: Option<&Json>) -> (r: (String, bool))
    ensures
        r.0@ == match opt_str(opt_get(opt_view(parsed), "model"@)) {
            Some(m) => m,
            None => "unknown"@,
        },
        r.1 == match opt_bool(opt_get(opt_view(parsed), "stream"@)) {
            Some(b) => b,
            None => false,
        },
{
    let model = match str_in(get_in(parsed, "model")) {
        Some(m) => m.clone(),
        None => {
            proof {
                reveal_strlit("unknown");
            }
            "unknown".to_string()
        },
    };
    let stream = match bool_in(get_in(parsed, "stream")) {
        Some(b) => b,
        None => false,
    };
    (model, stream)
}

/// Token counts of a compare response body, for the log line: `None` where
/// the body is not JSON or has no `usage`.
pub fn compare_usage(body: &[u8]) -> (r: Option<(Option<u64>, Option<u64>)>)
    ensures
        match json_decoded(body@) {
            Some(d) => match d.get("usage"@) {
                Some(u) => r == Some((opt_u64(u.get("input_tokens"@)), opt_u64(u.get("output_tokens"@)))),
                None => r is None,
            },
            None => r is None,
        },
{
    match decode_json(body) {
        Some(d) => match d.get("usage") {
            Some(u) => Some((u64_in(u.get("input_tokens")), u64_in(u.get("output_tokens")))),
            None => None,
        },
        None => None,
    }
}

// ---------------------------------------------------------------------------
// Response tap
// ---------------------------------------------------------------------------

/// The tap's copy of a response body. Each chunk goes to the client as it
/// came; the tap only appends a copy here and notes the first chunk.
pub struct TapBuffer {
    pub buffer: Vec<u8>,
    pub chunks_seen: u64,
}

pub open spec fn concat_chunks(cs: Seq<Seq<u8>>) -> Seq<u8>
    decreases cs.len(),
{
    if cs.len() == 0 {
        Seq::empty()
    } else {
        concat_chunks(cs.drop_last()) + cs.last()
    }
}

impl TapBuffer {
    pub fn new() -> (r: TapBuffer)
        ensures
            r.buffer@ == Seq::<u8>::empty(),
            r.chunks_seen == 0,
    {
        TapBuffer { buffer: Vec::new(), chunks_seen: 0 }
    }

    /// Copies a chunk that is passed on to the client; true for the first
    /// chunk of the body, when time to first byte is recorded.
    pub fn observe(&mut self, chunk: &[u8]) -> (first: bool)
        ensures
            final(self).buffer@ == old(self).buffer@ + chunk@,
            first == (old(self).chunks_seen == 0),
            final(self).chunks_seen == if old(self).chunks_seen == u64::MAX {
                u64::MAX
            } else {
                (old(self).chunks_seen + 1) as u64
            },
    {
        let first = self.chunks_seen == 0;
        if self.chunks_seen < u64::MAX {
            self.chunks_seen = self.chunks_seen + 1;
        }
        let ghost seen = self.chunks_seen;
        let mut i: usize = 0;
        let ghost pre = self.buffer@;
        while i < chunk.len()
            invariant
                0 <= i <= chunk@.len(),
                self.chunks_seen == seen,
                self.buffer@ == pre + chunk@.take(i as int),
            decreases chunk.len() - i,
        {
            self.buffer.push(chunk[i]);
            assert(chunk@.take(i + 1) =~= chunk@.take(i as int).push(chunk@[i as int]));
            i = i + 1;
        }
        assert(chunk@.take(chunk@.len() as int) =~= chunk@);
        first
    }
}

/// The bytes the tap hands to the end-of-stream extraction are exactly the
/// bytes of the chunks it passed on, in arrival order, with nothing added.
pub proof fn lemma_tap_copy_is_exact(cs: Seq<Seq<u8>>, b: Seq<u8>, next: Seq<u8>)
    requires
        b == concat_chunks(cs),
    ensures
        b + next == concat_chunks(cs.push(next)),
{
    assert(cs.push(next).drop_last() =~= cs);
}

// ---------------------------------------------------------------------------
// Header lists
// ---------------------------------------------------------------------------

/// One header: lower-case name and raw value.
#[derive(Debug)]
pub struct Header {
    pub name: String,
    pub value: Vec<u8>,
}

pub open spec fn header_view(h: Header) -> (Seq<char>, Seq<u8>) {
    (h.name@, h.value@)
}

pub open spec fn headers_view(hs: Seq<Header>) -> Seq<(Seq<char>, Seq<u8>)> {
    hs.map_values(|h: Header| header_view(h))
}

/// The headers of `hs` that a `/v1/messages` forward copies, in order.
pub open spec fn forwarded_request_headers(hs: Seq<(Seq<char>, Seq<u8>)>, to_target: bool) -> Seq<
    (Seq<char>, Seq<u8>),
>
    decreases hs.len(),
{
    if hs.len() == 0 {
        Seq::empty()
    } else {
        let prev = forwarded_request_headers(hs.drop_last(), to_target);
        if forwards_request_header(hs.last().0, to_target) {
            prev.push(hs.last())
        } else {
            prev
        }
    }
}

/// The upstream headers that reach the client, in order.
pub open spec fn forwarded_response_headers(hs: Seq<(Seq<char>, Seq<u8>)>) -> Seq<
    (Seq<char>, Seq<u8>),
>
    decreases hs.len(),
{
    if hs.len() == 0 {
        Seq::empty()
    } else {
        let prev = forwarded_response_headers(hs.drop_last());
        if !hop_by_hop(hs.last().0) {
            prev.push(hs.last())
        } else {
            prev
        }
    }
}

fn header_of(name: &str, value: &[u8]) -> (r: Header)
    ensures
        header_view(r) == (name@, value@),
{
    Header { name: name.to_string(), value: vstd::slice::slice_to_vec(value) }
}

fn copy_header(h: &Header) -> (r: Header)
    ensures
        header_view(r) == header_view(*h),
{
    Header { name: h.name.clone(), value: vstd::slice::slice_to_vec(h.value.as_slice()) }
}

/// Headers of the upstream request of `/v1/messages`: the JSON content
/// type, the correlation header with `correlation_id`, then the client's
/// headers that travel.
pub fn upstream_request_headers(incoming: &Vec<Header>, correlation_id: &str, to_target: bool) -> (r: Vec<Header>)
    ensures
        headers_view(r@) == seq![
            ("content-type"@, "application/json".spec_bytes()),
            ("x-shadow-request-id"@, correlation_id.spec_bytes()),
        ] + forwarded_request_headers(headers_view(incoming@), to_target),
{
    let ghost hv = headers_view(incoming@);
    let mut out: Vec<Header> = Vec::new();
    out.push(header_of("content-type", "application/json".as_bytes()));
    out.push(header_of(CORRELATION_HEADER, correlation_id.as_bytes()));
    proof {
        reveal_strlit("x-shadow-request-id");
    }
    let ghost head = headers_view(out@);
    assert(head =~= seq![
        ("content-type"@, "application/json".spec_bytes()),
        ("x-shadow-request-id"@, correlation_id.spec_bytes()),
    ]);
    let mut i: usize = 0;
    while i < incoming.len()
        invariant
            0 <= i <= incoming.len(),
            hv == headers_view(incoming@),
            headers_view(out@) == head + forwarded_request_headers(hv.take(i as int), to_target),
        decreases incoming.len() - i,
    {
        assert(hv.take(i + 1).drop_last() =~= hv.take(i as int));
        assert(hv.take(i + 1).last() == header_view(incoming@[i as int]));
        let ghost before = headers_view(out@);
        if forward_request_header(incoming[i].name.as_str(), to_target) {
            let h = copy_header(&incoming[i]);
            out.push(h);
            assert(headers_view(out@) =~= before.push(header_view(incoming@[i as int])));
        }
        i = i + 1;
    }
    assert(hv.take(incoming@.len() as int) =~= hv);
    out
}

/// Headers of the response to the client: the upstream's, less the
/// hop-by-hop ones, then the correlation header with `correlation_id`.
pub fn client_response_headers(upstream: &Vec<Header>, correlation_id: &str) -> (r: Vec<Header>)
    ensures
        headers_view(r@) == forwarded_response_headers(headers_view(upstream@)).push(
            ("x-shadow-request-id"@, correlation_id.spec_bytes()),
        ),
{
    let ghost hv = headers_view(upstream@);
    let mut out: Vec<Header> = Vec::new();
    let mut i: usize = 0;
    assert(headers_view(out@) =~= Seq::<(Seq<char>, Seq<u8>)>::empty());
    while i < upstream.len()
        invariant
            0 <= i <= upstream.len(),
            hv == headers_view(upstream@),
            headers_view(out@) == forwarded_response_headers(hv.take(i as int)),
        decreases upstream.len() - i,
    {
        assert(hv.take(i + 1).drop_last() =~= hv.take(i as int));
        assert(hv.take(i + 1).last() == header_view(upstream@[i as int]));
        let ghost before = headers_view(out@);
        if forward_response_header(upstream[i].name.as_str()) {
            let h = copy_header(&upstream[i]);
            out.push(h);
            assert(headers_view(out@) =~= before.push(header_view(upstream@[i as int])));
        }
        i = i + 1;
    }
    assert(hv.take(upstream@.len() as int) =~= hv);
    let ghost before = headers_view(out@);
    out.push(header_of(CORRELATION_HEADER, correlation_id.as_bytes()));
    proof {
        reveal_strlit("x-shadow-request-id");
        assert(headers_view(out@) =~= before.push(("x-shadow-request-id"@, correlation_id.spec_bytes())));
    }
    out
}

/// The correlation identifier handed to both header builders is the one
/// the upstream request carries and the one the client's response ends
/// with.
pub proof fn lemma_correlation_on_both_sides(
    req: Seq<(Seq<char>, Seq<u8>)>,
    resp: Seq<(Seq<char>, Seq<u8>)>,
    id: Seq<u8>,
    incoming: Seq<(Seq<char>, Seq<u8>)>,
    upstream: Seq<(Seq<char>, Seq<u8>)>,
    to_target: bool,
)
    requires
        req == seq![("content-type"@, "application/json".spec_bytes()), ("x-shadow-request-id"@, id)]
            + forwarded_request_headers(incoming, to_target),
        resp == forwarded_response_headers(upstream).push(("x-shadow-request-id"@, id)),
    ensures
        req[1] == ("x-shadow-request-id"@, id),
        resp.last() == ("x-shadow-request-id"@, id),
        forall|k: int| 2 <= k < req.len() ==> req[k].0 != "x-shadow-request-id"@,
{
    lemma_forwarded_no_correlation(incoming, to_target);
    assert forall|k: int| 2 <= k < req.len() implies req[k].0 != "x-shadow-request-id"@ by {
        assert(req[k] == forwarded_request_headers(incoming, to_target)[k - 2]);
    }
}

proof fn lemma_forwarded_no_correlation(hs: Seq<(Seq<char>, Seq<u8>)>, to_target: bool)
    ensures
        forall|k: int|
            0 <= k < forwarded_request_headers(hs, to_target).len() ==> (#[trigger] forwarded_request_headers(
                hs,
                to_target,
            )[k]).0 != "x-shadow-request-id"@,
    decreases hs.len(),
{
    if hs.len() > 0 {
        lemma_forwarded_no_correlation(hs.drop_last(), to_target);
        let prev = forwarded_request_headers(hs.drop_last(), to_target);
        let out = forwarded_request_headers(hs, to_target);
        assert forall|k: int| 0 <= k < out.len() implies (#[trigger] out[k]).0 != "x-shadow-request-id"@ by {
            if k < prev.len() {
                assert(out[k] == prev[k]);
            }
        }
    }
}

} // verus!
