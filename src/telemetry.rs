//! Setting computed attributes on tracing spans, and the span attributes of
//! a validation report.

use crate::attributes::{
    attrs_view, decimal, int_attr, lit_attr, response_attributes, str_attr, AttrV, AttrValue,
    SpanAttribute,
};
use crate::json::{encode, entries_view, items_view, lemma_items_view, to_text, Json, JsonV};
use crate::request_attrs::request_attributes;

use crate::validation::{
    findings_view, FindingV, ValidationFinding, ValidationReport, ValidationSeverity,
};
use tracing_opentelemetry::OpenTelemetrySpanExt;
use vstd::prelude::*;

verus! {

broadcast use vstd::std_specs::vec::group_vec_axioms, vstd::seq::group_seq_axioms;

#[verifier::external_type_specification]
#[verifier::external_body]
pub struct ExSpan(tracing::Span);

/// Relies on tracing_opentelemetry's `OpenTelemetrySpanExt::set_attribute`:
/// records one key and value on the span's OpenTelemetry data.
#[verifier::external_body]
fn set_span_attribute(span: &tracing::Span, a: &SpanAttribute) {
    let v = match &a.value {
        AttrValue::Str(s) => opentelemetry::Value::String(s.clone().into()),
        AttrValue::Int(i) => opentelemetry::Value::I64(*i),
        AttrValue::Bool(b) => opentelemetry::Value::Bool(*b),
    };
    span.set_attribute(a.key.clone(), v);
}

/// Sets every attribute of `attrs` on `span`, in order.
pub fn set_attributes(span: &tracing::Span, attrs: &Vec<SpanAttribute>) {
    let mut i: usize = 0;
    while i < attrs.len()
        decreases attrs.len() - i,
    {
        set_span_attribute(span, &attrs[i]);
        i = i + 1;
    }
}

/// Sets the OpenInference request attributes of `req` on `span`.
pub fn set_request_attributes(span: &tracing::Span, req: &Json) {
    let attrs = request_attributes(req);
    set_attributes(span, &attrs);
}

/// Sets the OpenInference response attributes of a buffered response on
/// `span`: parsed as one JSON document, or as SSE events when streaming.
/// Nothing is set for what cannot be read.
pub fn set_response_attributes(span: &tracing::Span, response_bytes: &[u8], is_streaming: bool) {
    let attrs = response_attributes(response_bytes, is_streaming);
    set_attributes(span, &attrs);
}

// ---------------------------------------------------------------------------
// Validation report attributes
// ---------------------------------------------------------------------------

/// The items of `ts` joined with commas.
pub open spec fn comma_join(ts: Seq<Seq<char>>) -> Seq<char>
    decreases ts.len(),
{
    if ts.len() == 0 {
        Seq::empty()
    } else if ts.len() == 1 {
        ts[0]
    } else {
        comma_join(ts.drop_last()) + seq![','] + ts.last()
    }
}

pub open spec fn max_severity(fs: Seq<FindingV>) -> Option<ValidationSeverity>
    decreases fs.len(),
{
    if fs.len() == 0 {
        None
    } else {
        match max_severity(fs.drop_last()) {
            Some(ValidationSeverity::High) => Some(ValidationSeverity::High),
            _ => Some(fs.last().severity),
        }
    }
}

/// The JSON object describing one finding.
pub open spec fn finding_json(f: FindingV) -> JsonV {
    let base = seq![
        ("severity"@, JsonV::Str(f.severity.name_spec())),
        ("category"@, JsonV::Str(f.category)),
        ("message"@, JsonV::Str(f.message)),
    ];
    let a = match f.block_type {
        Some(t) => base.push(("block_type"@, JsonV::Str(t))),
        None => base,
    };
    let b = match f.message_index {
        Some(i) => a.push(("message_index"@, JsonV::Number(decimal(i as nat)))),
        None => a,
    };
    let c = match f.role {
        Some(r) => b.push(("role"@, JsonV::Str(r))),
        None => b,
    };
    JsonV::Object(c)
}

/// Span attributes of a validation report.
pub open spec fn report_attrs(ok: bool, fs: Seq<FindingV>, types: Seq<Seq<char>>) -> Seq<AttrV> {
    let head = seq![
        AttrV { key: "shadow.validation.typed_parse_ok"@, value: crate::attributes::AttrValueV::Bool(ok) },
        int_attr("shadow.validation.finding_count"@, fs.len() as i64),
    ];
    let t = if types.len() > 0 {
        head.push(str_attr("shadow.validation.unknown_block_types"@, comma_join(types)))
    } else {
        head
    };
    let m = match max_severity(fs) {
        Some(s) => t.push(str_attr("shadow.validation.max_severity"@, s.name_spec())),
        None => t,
    };
    if fs.len() > 0 {
        m.push(
            str_attr(
                "shadow.validation.findings_json"@,
                encode(JsonV::Array(fs.map_values(|f: FindingV| finding_json(f)))),
            ),
        )
    } else {
        m
    }
}

fn finding_to_json(f: &ValidationFinding) -> (r: Json)
    ensures
        r@ == finding_json(f@),
{
    let mut es: Vec<(String, Json)> = Vec::new();
    es.push(("severity".to_string(), Json::Str(f.severity.as_str().to_string())));
    es.push(("category".to_string(), Json::Str(f.category.clone())));
    es.push(("message".to_string(), Json::Str(f.message.clone())));
    if let Some(t) = &f.block_type {
        es.push(("block_type".to_string(), Json::Str(t.clone())));
    }
    if let Some(i) = f.message_index {
        let mut t = String::new();
        crate::attributes::push_decimal(&mut t, i);
        es.push(("message_index".to_string(), Json::Number(t)));
    }
    if let Some(r) = &f.role {
        es.push(("role".to_string(), Json::Str(r.clone())));
    }
    proof {
        crate::json::lemma_entries_view(es@);
        reveal_strlit("severity");
        reveal_strlit("category");
        reveal_strlit("message");
        reveal_strlit("block_type");
        reveal_strlit("message_index");
        reveal_strlit("role");
        let fv = f@;
        let base = seq![
            ("severity"@, JsonV::Str(fv.severity.name_spec())),
            ("category"@, JsonV::Str(fv.category)),
            ("message"@, JsonV::Str(fv.message)),
        ];
        let a = match fv.block_type {
            Some(t) => base.push(("block_type"@, JsonV::Str(t))),
            None => base,
        };
        let b = match fv.message_index {
            Some(i) => a.push(("message_index"@, JsonV::Number(decimal(i as nat)))),
            None => a,
        };
        let c = match fv.role {
            Some(r) => b.push(("role"@, JsonV::Str(r))),
            None => b,
        };
        assert(entries_view(es@) =~= c);
    }
    Json::Object(es)
}

impl ValidationReport {
    /// The span attributes of this report.
    pub fn attributes(&self) -> (r: Vec<SpanAttribute>)
        ensures
            attrs_view(r@) == report_attrs(
                self.typed_parse_succeeded,
                findings_view(self.findings@),
                self.unknown_block_types@.map_values(|s: String| s@),
            ),
    {
        let ghost fv = findings_view(self.findings@);
        let ghost tv = self.unknown_block_types@.map_values(|s: String| s@);
        let mut out: Vec<SpanAttribute> = Vec::new();
        out.push(
            SpanAttribute {
                key: "shadow.validation.typed_parse_ok".to_string(),
                value: AttrValue::Bool(self.typed_parse_succeeded),
            },
        );
        let n = self.findings.len();
        out.push(
            SpanAttribute {
                key: "shadow.validation.finding_count".to_string(),
                value: AttrValue::Int(n as i64),
            },
        );
        let ghost head = attrs_view(out@);
        assert(head =~= seq![
            AttrV { key: "shadow.validation.typed_parse_ok"@, value: crate::attributes::AttrValueV::Bool(self.typed_parse_succeeded) },
            int_attr("shadow.validation.finding_count"@, fv.len() as i64),
        ]);
        let types = &self.unknown_block_types;
        if types.len() > 0 {
            let mut joined = String::new();
            let mut i: usize = 0;
            while i < types.len()
                invariant
                    0 <= i <= types.len(),
                    tv == types@.map_values(|s: String| s@),
                    joined@ == comma_join(tv.take(i as int)),
                decreases types.len() - i,
            {
                assert(tv.take(i + 1).drop_last() =~= tv.take(i as int));
                assert(tv.take(i + 1).last() == types@[i as int]@);
                if i > 0 {
                    crate::json::push_char(&mut joined, ',');
                } else {
                    assert(tv.take(1)[0] == types@[0]@);
                }
                joined.append(types[i].as_str());
                proof {
                    if i == 0 {
                        assert(joined@ =~= comma_join(tv.take(1)));
                    } else {
                        assert(joined@ =~= comma_join(tv.take(i + 1)));
                    }
                }
                i = i + 1;
            }
            assert(tv.take(types@.len() as int) =~= tv);
            out.push(lit_attr("shadow.validation.unknown_block_types", joined));
        }
        let ghost after_types = attrs_view(out@);
        let mut max: Option<ValidationSeverity> = None;
        let mut i: usize = 0;
        while i < self.findings.len()
            invariant
                0 <= i <= self.findings.len(),
                fv == findings_view(self.findings@),
                max == max_severity(fv.take(i as int)),
            decreases self.findings.len() - i,
        {
            assert(fv.take(i + 1).drop_last() =~= fv.take(i as int));
            assert(fv.take(i + 1).last() == self.findings@[i as int]@);
            max = match max {
                Some(ValidationSeverity::High) => Some(ValidationSeverity::High),
                _ => Some(self.findings[i].severity),
            };
            i = i + 1;
        }
        assert(fv.take(fv.len() as int) =~= fv);
        if let Some(sev) = max {
            out.push(lit_attr("shadow.validation.max_severity", sev.as_str().to_string()));
        }
        let ghost after_max = attrs_view(out@);
        if n > 0 {
            let mut items: Vec<Json> = Vec::new();
            let mut k: usize = 0;
            while k < self.findings.len()
                invariant
                    0 <= k <= self.findings.len(),
                    fv == findings_view(self.findings@),
                    items@.len() == k,
                    forall|q: int| 0 <= q < k ==> #[trigger] items@[q]@ == finding_json(fv[q]),
                decreases self.findings.len() - k,
            {
                items.push(finding_to_json(&self.findings[k]));
                k = k + 1;
            }
            proof {
                lemma_items_view(items@);
                assert(items_view(items@) =~= fv.map_values(|f: FindingV| finding_json(f)));
            }
            let arr = Json::Array(items);
            out.push(lit_attr("shadow.validation.findings_json", to_text(&arr)));
        }
        proof {
            reveal_strlit("shadow.validation.typed_parse_ok");
        }
        assert(attrs_view(out@) =~= report_attrs(self.typed_parse_succeeded, fv, tv));
        out
    }

    /// Sets this report's attributes on `span`.
    pub fn emit(&self, span: &tracing::Span) {
        let attrs = self.attributes();
        set_attributes(span, &attrs);
    }
}

} // verus!
