//! A JSON document as plain values, with its abstract view, the accessors
//! the proxy logic reads through, and the compact encoder.
//!
//! Text is turned into a document by serde_json; the document is then held
//! in the library's own [`Json`] type so that every rule that reads it is
//! verified. Numbers keep the exact text serde_json writes for them.

use vstd::prelude::*;

verus! {

broadcast use vstd::std_specs::vec::group_vec_axioms, vstd::seq::group_seq_axioms;

/// A JSON value. Object members keep their order.
#[derive(Debug)]
pub enum Json {
    Null,
    Bool(bool),
    /// A number, as the text of its canonical encoding.
    Number(String),
    Str(String),
    Array(Vec<Json>),
    Object(Vec<(String, Json)>),
}

/// The abstract value of a [`Json`].
pub enum JsonV {
    Null,
    Bool(bool),
    Number(Seq<char>),
    Str(Seq<char>),
    Array(Seq<JsonV>),
    Object(Seq<(Seq<char>, JsonV)>),
}

pub open spec fn json_view(j: Json) -> JsonV
    decreases j,
{
    match j {
        Json::Null => JsonV::Null,
        Json::Bool(b) => JsonV::Bool(b),
        Json::Number(t) => JsonV::Number(t@),
        Json::Str(s) => JsonV::Str(s@),
        Json::Array(v) => JsonV::Array(items_view(v@)),
        Json::Object(v) => JsonV::Object(entries_view(v@)),
    }
}

pub open spec fn items_view(s: Seq<Json>) -> Seq<JsonV>
    decreases s,
{
    if s.len() == 0 {
        Seq::empty()
    } else {
        items_view(s.drop_last()).push(json_view(s.last()))
    }
}

pub open spec fn entries_view(s: Seq<(String, Json)>) -> Seq<(Seq<char>, JsonV)>
    decreases s,
{
    if s.len() == 0 {
        Seq::empty()
    } else {
        entries_view(s.drop_last()).push((s.last().0@, json_view(s.last().1)))
    }
}

impl View for Json {
    type V = JsonV;

    open spec fn view(&self) -> JsonV {
        json_view(*self)
    }
}

pub proof fn lemma_items_view(s: Seq<Json>)
    ensures
        items_view(s).len() == s.len(),
        forall|i: int| 0 <= i < s.len() ==> #[trigger] items_view(s)[i] == s[i]@,
    decreases s.len(),
{
    if s.len() > 0 {
        lemma_items_view(s.drop_last());
    }
}

pub proof fn lemma_entries_view(s: Seq<(String, Json)>)
    ensures
        entries_view(s).len() == s.len(),
        forall|i: int|
            0 <= i < s.len() ==> #[trigger] entries_view(s)[i] == (s[i].0@, s[i].1@),
    decreases s.len(),
{
    if s.len() > 0 {
        lemma_entries_view(s.drop_last());
    }
}

/// Value of a run of decimal digits.
pub open spec fn digits_value(s: Seq<char>) -> nat
    decreases s.len(),
{
    if s.len() == 0 {
        0
    } else {
        digits_value(s.drop_last()) * 10 + (s.last() as nat - '0' as nat) as nat
    }
}

pub open spec fn is_digit(c: char) -> bool {
    '0' <= c && c <= '9'
}

pub open spec fn all_digits(s: Seq<char>) -> bool {
    forall|i: int| 0 <= i < s.len() ==> is_digit(#[trigger] s[i])
}

/// The unsigned integer a number's text stands for, if it is one that fits
/// in 64 bits.
pub open spec fn number_u64(t: Seq<char>) -> Option<u64> {
    if t.len() > 0 && all_digits(t) && digits_value(t) <= u64::MAX {
        Some(digits_value(t) as u64)
    } else {
        None
    }
}

/// The signed integer a number's text stands for, if it fits in 64 bits.
pub open spec fn number_i64(t: Seq<char>) -> Option<i64> {
    if t.len() > 1 && t[0] == '-' && all_digits(t.drop_first()) && digits_value(t.drop_first())
        <= 0x8000_0000_0000_0000 {
        Some((0 - digits_value(t.drop_first())) as i64)
    } else if t.len() > 0 && all_digits(t) && digits_value(t) <= i64::MAX {
        Some(digits_value(t) as i64)
    } else {
        None
    }
}

/// First member of an object list under `key`.
pub open spec fn lookup(es: Seq<(Seq<char>, JsonV)>, key: Seq<char>) -> Option<JsonV>
    decreases es.len(),
{
    if es.len() == 0 {
        None
    } else if es[0].0 == key {
        Some(es[0].1)
    } else {
        lookup(es.drop_first(), key)
    }
}

impl JsonV {
    /// The member `key` of an object; `None` for other values.
    pub open spec fn get(self, key: Seq<char>) -> Option<JsonV> {
        match self {
            JsonV::Object(es) => lookup(es, key),
            _ => None,
        }
    }

    /// Element `i` of an array; `None` for other values or out of range.
    pub open spec fn at(self, i: int) -> Option<JsonV> {
        match self {
            JsonV::Array(a) => if 0 <= i < a.len() {
                Some(a[i])
            } else {
                None
            },
            _ => None,
        }
    }

    pub open spec fn as_str(self) -> Option<Seq<char>> {
        match self {
            JsonV::Str(s) => Some(s),
            _ => None,
        }
    }

    pub open spec fn as_bool(self) -> Option<bool> {
        match self {
            JsonV::Bool(b) => Some(b),
            _ => None,
        }
    }

    pub open spec fn as_array(self) -> Option<Seq<JsonV>> {
        match self {
            JsonV::Array(a) => Some(a),
            _ => None,
        }
    }

    pub open spec fn as_u64(self) -> Option<u64> {
        match self {
            JsonV::Number(t) => number_u64(t),
            _ => None,
        }
    }

    pub open spec fn as_i64(self) -> Option<i64> {
        match self {
            JsonV::Number(t) => number_i64(t),
            _ => None,
        }
    }
}

/// `get` on an optional value.
pub open spec fn opt_get(o: Option<JsonV>, key: Seq<char>) -> Option<JsonV> {
    match o {
        Some(v) => v.get(key),
        None => None,
    }
}

/// `as_str` on an optional value.
pub open spec fn opt_str(o: Option<JsonV>) -> Option<Seq<char>> {
    match o {
        Some(v) => v.as_str(),
        None => None,
    }
}

/// `as_array` on an optional value.
pub open spec fn opt_array(o: Option<JsonV>) -> Option<Seq<JsonV>> {
    match o {
        Some(v) => v.as_array(),
        None => None,
    }
}

/// `as_u64` on an optional value.
pub open spec fn opt_u64(o: Option<JsonV>) -> Option<u64> {
    match o {
        Some(v) => v.as_u64(),
        None => None,
    }
}

/// `as_i64` on an optional value.
pub open spec fn opt_i64(o: Option<JsonV>) -> Option<i64> {
    match o {
        Some(v) => v.as_i64(),
        None => None,
    }
}

/// `as_bool` on an optional value.
pub open spec fn opt_bool(o: Option<JsonV>) -> Option<bool> {
    match o {
        Some(v) => v.as_bool(),
        None => None,
    }
}

pub open spec fn opt_view(o: Option<&Json>) -> Option<JsonV> {
    match o {
        Some(j) => Some(j@),
        None => None,
    }
}

pub open spec fn opt_json_view(o: Option<Json>) -> Option<JsonV> {
    match o {
        Some(j) => Some(j@),
        None => None,
    }
}

pub fn str_eq(a: &str, b: &str) -> (r: bool)
    ensures
        r == (a@ == b@),
{
    let x = a.as_bytes();
    let y = b.as_bytes();
    proof {
        vstd::utf8::encode_utf8_decode_utf8(a@);
        vstd::utf8::encode_utf8_decode_utf8(b@);
    }
    if x.len() != y.len() {
        assert(x@ != y@);
        return false;
    }
    let mut i: usize = 0;
    while i < x.len()
        invariant
            x.len() == y.len(),
            x@ == vstd::utf8::encode_utf8(a@),
            y@ == vstd::utf8::encode_utf8(b@),
            i <= x.len(),
            forall|k: int| 0 <= k < i ==> x@[k] == y@[k],
        decreases x.len() - i,
    {
        if x[i] != y[i] {
            assert(x@[i as int] != y@[i as int]);
            assert(x@ != y@);
            return false;
        }
        i = i + 1;
    }
    assert(x@ =~= y@);
    true
}

fn digit_of(c: char) -> (r: Option<u64>)
    ensures
        is_digit(c) ==> r == Some((c as nat - '0' as nat) as u64),
        !is_digit(c) ==> r is None,
{
    if '0' <= c && c <= '9' {
        Some((c as u32 - '0' as u32) as u64)
    } else {
        None
    }
}

proof fn lemma_digits_value_grows(s: Seq<char>, i: int)
    requires
        0 <= i <= s.len(),
    ensures
        digits_value(s.take(i)) <= digits_value(s),
    decreases s.len(),
{
    if i < s.len() {
        assert(s.drop_last().take(i) =~= s.take(i));
        lemma_digits_value_grows(s.drop_last(), i);
    } else {
        assert(s.take(i) =~= s);
    }
}

/// Value of the digits of `t` from character `from` on, if all are digits
/// and the value is at most `limit`.
fn digits_from(t: &str, from: usize, limit: u64) -> (r: Option<u64>)
    requires
        from <= t@.len(),
    ensures
        r is Some <==> (all_digits(t@.skip(from as int)) && digits_value(t@.skip(from as int))
            <= limit),
        r matches Some(v) ==> v == digits_value(t@.skip(from as int)),
{
    let ghost u = t@.skip(from as int);
    let mut val: u64 = 0;
    let mut ok = true;
    let mut skip_left: usize = from;
    for c in it: t.chars()
        invariant
            it.seq() == t@,
            u == t@.skip(from as int),
            from <= t@.len(),
            0 <= it.index() <= t@.len(),
            skip_left == if it.index() < from {
                from - it.index()
            } else {
                0int
            },
            ok && it.index() >= from ==> all_digits(u.take(it.index() - from)) && val
                == digits_value(u.take(it.index() - from)) && val <= limit,
            it.index() < from ==> ok,
            it.index() <= from ==> val == 0,
            !ok ==> !(all_digits(u) && digits_value(u) <= limit),
    {
        let ghost i = it.index() as int;
        if skip_left > 0 {
            skip_left = skip_left - 1;
            proof {
                if i + 1 == from {
                    assert(u.take(0) =~= Seq::<char>::empty());
                }
            }
        } else if ok {
            let ghost n = i - from;
            proof {
                assert(u.take(n + 1).drop_last() =~= u.take(n));
                assert(u[n] == t@[i]);
                assert(u.take(n + 1).last() == c);
            }
            match digit_of(c) {
                Some(d) => {
                    proof {
                        assert(digits_value(u.take(n + 1)) == digits_value(u.take(n)) * 10 + (
                        c as nat - '0' as nat));
                    }
                    if d > limit || val > (limit - d) / 10 {
                        proof {
                            assert(digits_value(u.take(n + 1)) > limit) by (nonlinear_arith)
                                requires
                                    digits_value(u.take(n + 1)) == val * 10 + d,
                                    d > limit || val > (limit - d) / 10,
                                    d <= 9,
                            ;
                            lemma_digits_value_grows(u, n + 1);
                        }
                        ok = false;
                    } else {
                        proof {
                            assert(val * 10 + d <= limit) by (nonlinear_arith)
                                requires
                                    val <= (limit - d) / 10,
                                    d <= limit,
                            ;
                            assert forall|k: int| 0 <= k < n + 1 implies is_digit(
                                #[trigger] u.take(n + 1)[k],
                            ) by {
                                if k < n {
                                    assert(u.take(n + 1)[k] == u.take(n)[k]);
                                }
                            }
                        }
                        val = val * 10 + d;
                    }
                },
                None => {
                    assert(!is_digit(u[n]));
                    ok = false;
                },
            }
        }
    }
    proof {
        assert(u.take(u.len() as int) =~= u);
        if from == t@.len() {
            assert(u =~= Seq::<char>::empty());
            assert(u.take(0) =~= Seq::<char>::empty());
        }
    }
    if ok {
        Some(val)
    } else {
        None
    }
}

impl Json {
    /// Member `key` of an object.
    pub fn get(&self, key: &str) -> (r: Option<&Json>)
        ensures
            opt_view(r) == self@.get(key@),
    {
        match self {
            Json::Object(es) => {
                proof {
                    lemma_entries_view(es@);
                    assert(entries_view(es@).skip(0) =~= entries_view(es@));
                }
                let mut i: usize = 0;
                while i < es.len()
                    invariant
                        0 <= i <= es.len(),
                        self@ == JsonV::Object(entries_view(es@)),
                        entries_view(es@).len() == es@.len(),
                        forall|k: int|
                            0 <= k < es@.len() ==> #[trigger] entries_view(es@)[k] == (
                                es@[k].0@,
                                es@[k].1@,
                            ),
                        lookup(entries_view(es@), key@) == lookup(
                            entries_view(es@).skip(i as int),
                            key@,
                        ),
                    decreases es.len() - i,
                {
                    let ghost rest = entries_view(es@).skip(i as int);
                    assert(rest[0] == entries_view(es@)[i as int]);
                    if str_eq(es[i].0.as_str(), key) {
                        assert(rest[0] == (es@[i as int].0@, es@[i as int].1@));
                        assert(lookup(rest, key@) == Some(es@[i as int].1@));
                        return Some(&es[i].1);
                    }
                    assert(rest.drop_first() =~= entries_view(es@).skip(i + 1));
                    i = i + 1;
                }
                None
            },
            _ => None,
        }
    }

    /// Element `i` of an array.
    pub fn at(&self, i: usize) -> (r: Option<&Json>)
        ensures
            opt_view(r) == self@.at(i as int),
    {
        match self {
            Json::Array(a) => {
                proof {
                    lemma_items_view(a@);
                }
                if i < a.len() {
                    Some(&a[i])
                } else {
                    None
                }
            },
            _ => None,
        }
    }

    pub fn as_str(&self) -> (r: Option<&String>)
        ensures
            match r {
                Some(s) => self@.as_str() == Some(s@),
                None => self@.as_str() is None,
            },
    {
        match self {
            Json::Str(s) => Some(s),
            _ => None,
        }
    }

    pub fn as_bool(&self) -> (r: Option<bool>)
        ensures
            r == self@.as_bool(),
    {
        match self {
            Json::Bool(b) => Some(*b),
            _ => None,
        }
    }

    pub fn as_array(&self) -> (r: Option<&Vec<Json>>)
        ensures
            match r {
                Some(a) => self@.as_array() == Some(items_view(a@)),
                None => self@.as_array() is None,
            },
    {
        match self {
            Json::Array(a) => Some(a),
            _ => None,
        }
    }

    pub fn as_u64(&self) -> (r: Option<u64>)
        ensures
            r == self@.as_u64(),
    {
        match self {
            Json::Number(t) => {
                if t.as_str().is_empty() {
                    return None;
                }
                assert(t@.skip(0) =~= t@);
                digits_from(t.as_str(), 0, u64::MAX)
            },
            _ => None,
        }
    }

    pub fn as_i64(&self) -> (r: Option<i64>)
        ensures
            r == self@.as_i64(),
    {
        match self {
            Json::Number(t) => {
                let s = t.as_str();
                if s.is_empty() {
                    return None;
                }
                let mut first: char = ' ';
                let mut count: usize = 0;
                for c in it: s.chars()
                    invariant
                        it.seq() == s@,
                        count == if it.index() < 2 {
                            it.index()
                        } else {
                            2int
                        },
                        it.index() > 0 ==> first == s@[0],
                {
                    if count == 0 {
                        first = c;
                    }
                    if count < 2 {
                        count = count + 1;
                    }
                }
                let several = count > 1;
                if first == '-' && several {
                    proof {
                        assert(s@.skip(1) =~= s@.drop_first());
                    }
                    match digits_from(s, 1, 0x8000_0000_0000_0000) {
                        Some(v) => {
                            if v == 0x8000_0000_0000_0000 {
                                Some(i64::MIN)
                            } else {
                                Some(-(v as i64))
                            }
                        },
                        None => None,
                    }
                } else {
                    assert(s@.skip(0) =~= s@);
                    if first == '-' {
                        assert(!is_digit(s@[0]));
                        return None;
                    }
                    match digits_from(s, 0, 0x7fff_ffff_ffff_ffff) {
                        Some(v) => Some(v as i64),
                        None => None,
                    }
                }
            },
            _ => None,
        }
    }

    pub fn is_null(&self) -> (r: bool)
        ensures
            r == (self@ is Null),
    {
        match self {
            Json::Null => true,
            _ => false,
        }
    }
}


// ---------------------------------------------------------------------------
// Decoding through serde_json
// ---------------------------------------------------------------------------

#[verifier::external_type_specification]
#[verifier::external_body]
pub struct ExValue(serde_json::Value);

#[verifier::external_type_specification]
#[verifier::external_body]
pub struct ExNumber(serde_json::Number);

#[verifier::external_type_specification]
#[verifier::external_body]
#[verifier::reject_recursive_types(K)]
#[verifier::reject_recursive_types(V)]
pub struct ExMap<K, V>(serde_json::Map<K, V>);

pub assume_specification[ serde_json::Value::as_bool ](v: &serde_json::Value) -> Option<bool>;

pub assume_specification[ serde_json::Value::as_number ](v: &serde_json::Value) -> Option<
    &serde_json::Number,
>;

pub assume_specification[ serde_json::Value::as_str ](v: &serde_json::Value) -> Option<&str>;

pub assume_specification[ serde_json::Value::as_array ](v: &serde_json::Value) -> Option<
    &Vec<serde_json::Value>,
>;

pub assume_specification[ serde_json::Value::as_object ](v: &serde_json::Value) -> Option<
    &serde_json::Map<String, serde_json::Value>,
>;

/// What serde_json makes of a byte string: the document it holds, or
/// `None` where the bytes are not one JSON text.
pub uninterp spec fn json_decoded(b: Seq<u8>) -> Option<JsonV>;

/// Member `key` of an optional value.
pub fn get_in<'a>(o: Option<&'a Json>, key: &str) -> (r: Option<&'a Json>)
    ensures
        opt_view(r) == opt_get(opt_view(o), key@),
{
    match o {
        Some(j) => j.get(key),
        None => None,
    }
}

/// `at` on an optional value.
pub open spec fn opt_at(o: Option<JsonV>, i: int) -> Option<JsonV> {
    match o {
        Some(v) => v.at(i),
        None => None,
    }
}

/// Element `i` of an optional array.
pub fn at_in<'a>(o: Option<&'a Json>, i: usize) -> (r: Option<&'a Json>)
    ensures
        opt_view(r) == opt_at(opt_view(o), i as int),
{
    match o {
        Some(j) => j.at(i),
        None => None,
    }
}

/// String of an optional value.
pub fn str_in<'a>(o: Option<&'a Json>) -> (r: Option<&'a String>)
    ensures
        match r {
            Some(s) => opt_str(opt_view(o)) == Some(s@),
            None => opt_str(opt_view(o)) is None,
        },
{
    match o {
        Some(j) => j.as_str(),
        None => None,
    }
}

/// Array of an optional value.
pub fn array_in<'a>(o: Option<&'a Json>) -> (r: Option<&'a Vec<Json>>)
    ensures
        match r {
            Some(a) => opt_array(opt_view(o)) == Some(items_view(a@)),
            None => opt_array(opt_view(o)) is None,
        },
{
    match o {
        Some(j) => j.as_array(),
        None => None,
    }
}

pub fn u64_in(o: Option<&Json>) -> (r: Option<u64>)
    ensures
        r == opt_u64(opt_view(o)),
{
    match o {
        Some(j) => j.as_u64(),
        None => None,
    }
}

pub fn i64_in(o: Option<&Json>) -> (r: Option<i64>)
    ensures
        r == opt_i64(opt_view(o)),
{
    match o {
        Some(j) => j.as_i64(),
        None => None,
    }
}

pub fn bool_in(o: Option<&Json>) -> (r: Option<bool>)
    ensures
        r == opt_bool(opt_view(o)),
{
    match o {
        Some(j) => j.as_bool(),
        None => None,
    }
}

/// String member `key` equals `lit`.
pub fn str_member_is(o: Option<&Json>, key: &str, lit: &str) -> (r: bool)
    ensures
        r == (opt_str(opt_get(opt_view(o), key@)) == Some(lit@)),
{
    match str_in(get_in(o, key)) {
        Some(s) => str_eq(s.as_str(), lit),
        None => false,
    }
}

/// Relies on serde_json::from_slice: parses one JSON text into a
/// `serde_json::Value`, which is then copied into a [`Json`]. The result is
/// a function of the bytes alone.
#[verifier::external_body]
fn serde_decode(b: &[u8]) -> (r: Option<Json>)
    ensures
        opt_json_view(r) == json_decoded(b@),
{
    serde_json::from_slice::<serde_json::Value>(b).ok().map(|v| Json::from_value(&v, 200))
}

/// The document a byte string holds, or `None` where it is not one JSON
/// text.
pub fn decode_json(b: &[u8]) -> (r: Option<Json>)
    ensures
        opt_json_view(r) == json_decoded(b@),
{
    serde_decode(b)
}

/// Relies on serde_json::to_string on a `serde_json::Number`: the text
/// serde_json writes for that number.
#[verifier::external_body]
fn number_text(n: &serde_json::Number) -> String {
    serde_json::to_string(n).unwrap_or_default()
}

/// Relies on serde_json::Map::iter: the members of an object, in order.
#[verifier::external_body]
fn object_members<'a>(m: &'a serde_json::Map<String, serde_json::Value>) -> Vec<
    (&'a String, &'a serde_json::Value),
> {
    m.iter().collect()
}

impl Json {
    /// Copy of a `serde_json::Value`. serde_json refuses documents nested
    /// deeper than 128 levels, so a depth budget of more than that is never
    /// exhausted on a parsed value.
    pub(crate) fn from_value(v: &serde_json::Value, depth: u32) -> (r: Json)
        decreases depth,
    {
        if depth == 0 {
            return Json::Null;
        }
        if let Some(b) = v.as_bool() {
            Json::Bool(b)
        } else if let Some(n) = v.as_number() {
            Json::Number(number_text(n))
        } else if let Some(s) = v.as_str() {
            Json::Str(s.to_string())
        } else if let Some(a) = v.as_array() {
            let mut items: Vec<Json> = Vec::new();
            let mut i: usize = 0;
            while i < a.len()
                invariant
                    depth > 0,
                decreases a.len() - i,
            {
                items.push(Json::from_value(&a[i], depth - 1));
                i = i + 1;
            }
            Json::Array(items)
        } else if let Some(m) = v.as_object() {
            let members = object_members(m);
            let mut es: Vec<(String, Json)> = Vec::new();
            let mut i: usize = 0;
            while i < members.len()
                invariant
                    depth > 0,
                decreases members.len() - i,
            {
                let (k, x) = members[i];
                es.push((k.clone(), Json::from_value(x, depth - 1)));
                i = i + 1;
            }
            Json::Object(es)
        } else {
            Json::Null
        }
    }
}

// ---------------------------------------------------------------------------
// Compact encoding
// ---------------------------------------------------------------------------

pub open spec fn hex_digit(n: nat) -> char {
    if n < 10 {
        ('0' as nat + n) as char
    } else {
        ('a' as nat + n - 10) as char
    }
}

/// How one character of a string is written between the quotes.
pub open spec fn escape_char(c: char) -> Seq<char> {
    if c == '"' {
        seq!['\\', '"']
    } else if c == '\\' {
        seq!['\\', '\\']
    } else if c == '\x08' {
        seq!['\\', 'b']
    } else if c == '\x0c' {
        seq!['\\', 'f']
    } else if c == '\n' {
        seq!['\\', 'n']
    } else if c == '\r' {
        seq!['\\', 'r']
    } else if c == '\t' {
        seq!['\\', 't']
    } else if (c as nat) < 0x20 {
        seq!['\\', 'u', '0', '0', hex_digit(c as nat / 16), hex_digit(c as nat % 16)]
    } else {
        seq![c]
    }
}

pub open spec fn escape_str(s: Seq<char>) -> Seq<char>
    decreases s.len(),
{
    if s.len() == 0 {
        Seq::empty()
    } else {
        escape_str(s.drop_last()) + escape_char(s.last())
    }
}

/// A string literal.
pub open spec fn quote(s: Seq<char>) -> Seq<char> {
    seq!['"'] + escape_str(s) + seq!['"']
}

/// The compact text of a value: no whitespace, members in order.
pub open spec fn encode(j: JsonV) -> Seq<char>
    decreases j,
{
    match j {
        JsonV::Null => "null"@,
        JsonV::Bool(b) => if b {
            "true"@
        } else {
            "false"@
        },
        JsonV::Number(t) => t,
        JsonV::Str(s) => quote(s),
        JsonV::Array(a) => seq!['['] + encode_items(a) + seq![']'],
        JsonV::Object(es) => seq!['{'] + encode_members(es) + seq!['}'],
    }
}

pub open spec fn encode_items(a: Seq<JsonV>) -> Seq<char>
    decreases a,
{
    if a.len() == 0 {
        Seq::empty()
    } else if a.len() == 1 {
        encode(a[0])
    } else {
        encode_items(a.drop_last()) + seq![','] + encode(a[a.len() - 1])
    }
}

pub open spec fn encode_members(es: Seq<(Seq<char>, JsonV)>) -> Seq<char>
    decreases es,
{
    if es.len() == 0 {
        Seq::empty()
    } else if es.len() == 1 {
        quote(es[0].0) + seq![':'] + encode(es[0].1)
    } else {
        encode_members(es.drop_last()) + seq![','] + quote(es[es.len() - 1].0) + seq![':']
            + encode(es[es.len() - 1].1)
    }
}

/// Relies on String::push: appends one character.
#[verifier::external_body]
pub(crate) fn push_char(s: &mut String, c: char)
    ensures
        final(s)@ == old(s)@.push(c),
{
    s.push(c)
}

fn hex_char(n: u32) -> (r: char)
    requires
        n < 16,
    ensures
        r == hex_digit(n as nat),
{
    if n < 10 {
        ((('0' as u32) + n) as u8) as char
    } else {
        ((('a' as u32) + n - 10) as u8) as char
    }
}

fn write_escaped_char(out: &mut String, c: char)
    ensures
        final(out)@ == old(out)@ + escape_char(c),
{
    let ghost pre = out@;
    if c == '"' {
        push_char(out, '\\');
        push_char(out, '"');
    } else if c == '\\' {
        push_char(out, '\\');
        push_char(out, '\\');
    } else if c == '\x08' {
        push_char(out, '\\');
        push_char(out, 'b');
    } else if c == '\x0c' {
        push_char(out, '\\');
        push_char(out, 'f');
    } else if c == '\n' {
        push_char(out, '\\');
        push_char(out, 'n');
    } else if c == '\r' {
        push_char(out, '\\');
        push_char(out, 'r');
    } else if c == '\t' {
        push_char(out, '\\');
        push_char(out, 't');
    } else if (c as u32) < 0x20 {
        push_char(out, '\\');
        push_char(out, 'u');
        push_char(out, '0');
        push_char(out, '0');
        push_char(out, hex_char(c as u32 / 16));
        push_char(out, hex_char(c as u32 % 16));
    } else {
        push_char(out, c);
    }
    assert(out@ =~= pre + escape_char(c));
}

/// Appends the string literal of `s`.
pub fn write_quoted(out: &mut String, s: &str)
    ensures
        final(out)@ == old(out)@ + quote(s@),
{
    let ghost pre = out@;
    push_char(out, '"');
    for c in it: s.chars()
        invariant
            it.seq() == s@,
            0 <= it.index() <= s@.len(),
            out@ == pre + seq!['"'] + escape_str(s@.take(it.index() as int)),
    {
        let ghost i = it.index() as int;
        assert(s@.take(i + 1).drop_last() =~= s@.take(i));
        assert(s@.take(i + 1).last() == c);
        write_escaped_char(out, c);
        assert(out@ =~= pre + seq!['"'] + escape_str(s@.take(i + 1)));
    }
    assert(s@.take(s@.len() as int) =~= s@);
    push_char(out, '"');
    assert(out@ =~= pre + quote(s@));
}

/// Appends the compact text of `j`.
pub fn write_json(out: &mut String, j: &Json)
    ensures
        final(out)@ == old(out)@ + encode(j@),
    decreases j, 1int,
{
    match j {
        Json::Null => {
            out.append("null");
        },
        Json::Bool(b) => {
            if *b {
                out.append("true");
            } else {
                out.append("false");
            }
        },
        Json::Number(t) => {
            out.append(t.as_str());
        },
        Json::Str(s) => {
            write_quoted(out, s.as_str());
        },
        Json::Array(a) => {
            proof {
                assert(decreases_to!(*j => (*j)->Array_0));
            }
            write_items(out, a);
        },
        Json::Object(es) => {
            proof {
                assert(decreases_to!(*j => (*j)->Object_0));
            }
            write_members(out, es);
        },
    }
}

fn write_items(out: &mut String, a: &Vec<Json>)
    ensures
        final(out)@ == old(out)@ + seq!['['] + encode_items(items_view(a@)) + seq![']'],
    decreases a, 0int,
{
    let ghost pre = out@;
    proof {
        lemma_items_view(a@);
    }
    let ghost av = items_view(a@);
    push_char(out, '[');
    let mut i: usize = 0;
    while i < a.len()
        invariant
            0 <= i <= a.len(),
            av == items_view(a@),
            av.len() == a@.len(),
            forall|k: int| 0 <= k < a@.len() ==> #[trigger] av[k] == a@[k]@,
            out@ == pre + seq!['['] + encode_items(av.take(i as int)),
        decreases a.len() - i,
    {
        assert(av.take(i + 1).drop_last() =~= av.take(i as int));
        assert(av.take(i + 1)[i as int] == a@[i as int]@);
        if i > 0 {
            push_char(out, ',');
        }
        proof {
            assert(decreases_to!(a => a@));
            assert(decreases_to!(a@ => a@[i as int]));
        }
        write_json(out, &a[i]);
        assert(out@ =~= pre + seq!['['] + encode_items(av.take(i + 1)));
        i = i + 1;
    }
    assert(av.take(a@.len() as int) =~= av);
    push_char(out, ']');
}

fn write_members(out: &mut String, es: &Vec<(String, Json)>)
    ensures
        final(out)@ == old(out)@ + seq!['{'] + encode_members(entries_view(es@)) + seq!['}'],
    decreases es, 0int,
{
    let ghost pre = out@;
    proof {
        lemma_entries_view(es@);
    }
    let ghost ev = entries_view(es@);
    push_char(out, '{');
    let mut i: usize = 0;
    while i < es.len()
        invariant
            0 <= i <= es.len(),
            ev == entries_view(es@),
            ev.len() == es@.len(),
            forall|k: int| 0 <= k < es@.len() ==> #[trigger] ev[k] == (es@[k].0@, es@[k].1@),
            out@ == pre + seq!['{'] + encode_members(ev.take(i as int)),
        decreases es.len() - i,
    {
        assert(ev.take(i + 1).drop_last() =~= ev.take(i as int));
        assert(ev.take(i + 1)[i as int] == (es@[i as int].0@, es@[i as int].1@));
        if i > 0 {
            push_char(out, ',');
        }
        write_quoted(out, es[i].0.as_str());
        push_char(out, ':');
        proof {
            assert(decreases_to!(es => es@));
            assert(decreases_to!(es@ => es@[i as int]));
            assert(decreases_to!(es@[i as int] => es@[i as int].1));
        }
        write_json(out, &es[i].1);
        assert(out@ =~= pre + seq!['{'] + encode_members(ev.take(i + 1)));
        i = i + 1;
    }
    assert(ev.take(es@.len() as int) =~= ev);
    push_char(out, '}');
}

/// The compact text of `j`.
pub fn to_text(j: &Json) -> (r: String)
    ensures
        r@ == encode(j@),
{
    let mut out = String::new();
    write_json(&mut out, j);
    assert(out@ =~= encode(j@));
    out
}

impl Json {
    /// A copy with the same value.
    pub fn deep_clone(&self) -> (r: Json)
        ensures
            r@ == self@,
        decreases self, 1int,
    {
        match self {
            Json::Null => Json::Null,
            Json::Bool(b) => Json::Bool(*b),
            Json::Number(t) => Json::Number(t.clone()),
            Json::Str(s) => Json::Str(s.clone()),
            Json::Array(a) => {
                proof {
                    assert(decreases_to!(*self => (*self)->Array_0));
                }
                Json::Array(clone_items(a))
            },
            Json::Object(es) => {
                proof {
                    assert(decreases_to!(*self => (*self)->Object_0));
                }
                Json::Object(clone_members(es))
            },
        }
    }
}

fn clone_items(a: &Vec<Json>) -> (r: Vec<Json>)
    ensures
        items_view(r@) == items_view(a@),
    decreases a, 0int,
{
    proof {
        lemma_items_view(a@);
    }
    let mut r: Vec<Json> = Vec::new();
    let mut i: usize = 0;
    while i < a.len()
        invariant
            0 <= i <= a.len(),
            r@.len() == i,
            forall|k: int| 0 <= k < i ==> #[trigger] r@[k]@ == a@[k]@,
        decreases a.len() - i,
    {
        proof {
            assert(decreases_to!(a => a@));
            assert(decreases_to!(a@ => a@[i as int]));
        }
        r.push(a[i].deep_clone());
        i = i + 1;
    }
    proof {
        lemma_items_view(r@);
        assert(items_view(r@) =~= items_view(a@));
    }
    r
}

fn clone_members(es: &Vec<(String, Json)>) -> (r: Vec<(String, Json)>)
    ensures
        entries_view(r@) == entries_view(es@),
    decreases es, 0int,
{
    proof {
        lemma_entries_view(es@);
    }
    let mut r: Vec<(String, Json)> = Vec::new();
    let mut i: usize = 0;
    while i < es.len()
        invariant
            0 <= i <= es.len(),
            r@.len() == i,
            forall|k: int| 0 <= k < i ==> #[trigger] r@[k].0@ == es@[k].0@ && r@[k].1@ == es@[k].1@,
        decreases es.len() - i,
    {
        proof {
            assert(decreases_to!(es => es@));
            assert(decreases_to!(es@ => es@[i as int]));
            assert(decreases_to!(es@[i as int] => es@[i as int].1));
        }
        let v = es[i].1.deep_clone();
        r.push((es[i].0.clone(), v));
        i = i + 1;
    }
    proof {
        lemma_entries_view(r@);
        assert(entries_view(r@) =~= entries_view(es@));
    }
    r
}

} // verus!
