//! HTTP response snapshots: status code, headers, and a body kept both raw
//! and, when the headers announce JSON and it parses, as a structured
//! document.

use vstd::prelude::*;

verus! {

use crate::json::JsonValue;
use crate::render::render;
use crate::strutil::is_prefix;
use crate::strutil::str_starts_with;

/// A response body: the raw text, and the parsed document when the response
/// declared a JSON content type and the text parsed.
pub struct ParsedBody {
    pub raw: String,
    pub json: Option<JsonValue>,
}

/// A snapshot of one HTTP response. Headers keep their case and order as
/// received; names are unique.
pub struct HttpResponseData {
    pub status_code: u16,
    pub headers: Vec<(String, String)>,
    pub body: ParsedBody,
}

/// Whether some header of `h` is named `k` (case-sensitive).
pub open spec fn has_header(h: Seq<(String, String)>, k: Seq<char>) -> bool {
    exists|j: int| 0 <= j < h.len() && (#[trigger] h[j]).0@ == k
}

/// The value of the first header of `h` from `j` on named `k`.
pub open spec fn header_lookup_from(h: Seq<(String, String)>, k: Seq<char>, j: int) -> Seq<char>
    decreases h.len() - j,
{
    if j < 0 || j >= h.len() {
        Seq::empty()
    } else if h[j].0@ == k {
        h[j].1@
    } else {
        header_lookup_from(h, k, j + 1)
    }
}

/// The value of the first header of `h` named `k`.
pub open spec fn header_lookup(h: Seq<(String, String)>, k: Seq<char>) -> Seq<char> {
    header_lookup_from(h, k, 0)
}

/// Finds the first header with the given name.
#[verifier::loop_isolation(false)]
pub fn find_header(headers: &Vec<(String, String)>, name: &str) -> (r: Option<usize>)
    ensures
        match r {
            Some(j) => 0 <= j < headers@.len() && headers@[j as int].0@ == name@
                && headers@[j as int].1@ == header_lookup(headers@, name@)
                && has_header(headers@, name@),
            None => !has_header(headers@, name@),
        },
{
    let mut j: usize = 0;
    while j < headers.len()
        invariant
            0 <= j <= headers@.len(),
            forall|m: int| 0 <= m < j ==> (#[trigger] headers@[m]).0@ != name@,
            header_lookup(headers@, name@) == header_lookup_from(headers@, name@, j as int),
        decreases headers@.len() - j,
    {
        if crate::strutil::str_eq(headers[j].0.as_str(), name) {
            return Some(j);
        }
        j += 1;
    }
    None
}

/// The content type a response declares: the `Content-Type` header, or
/// failing that the `content-type` header.
pub open spec fn content_type_of(h: Seq<(String, String)>) -> Option<Seq<char>> {
    if has_header(h, "Content-Type"@) {
        Some(header_lookup(h, "Content-Type"@))
    } else if has_header(h, "content-type"@) {
        Some(header_lookup(h, "content-type"@))
    } else {
        None
    }
}

/// Whether the declared content type announces JSON.
pub open spec fn is_json_content(h: Seq<(String, String)>) -> bool {
    match content_type_of(h) {
        Some(ct) => is_prefix("application/json"@, ct),
        None => false,
    }
}

/// The canonical rendering of the JSON document that the text parses to,
/// and nothing when the text is not valid JSON. The name stands for what
/// `serde_json`'s parser computes from the text alone.
pub uninterp spec fn json_doc_of(s: Seq<char>) -> Option<Seq<char>>;

#[verifier::external_type_specification]
#[verifier::external_body]
pub struct ExSerdeValue(serde_json::Value);

/// Relies on `serde_json::Value`: each variant is moved over to the
/// document model one for one; numbers keep their decimal rendering
/// (`Number`'s display), and object entries come out key-sorted and unique
/// because `serde_json`'s map is an ordered map.
#[verifier::external_body]
fn value_from_serde(v: &serde_json::Value) -> JsonValue {
    match v {
        serde_json::Value::Null => JsonValue::Null,
        serde_json::Value::Bool(b) => JsonValue::Bool(*b),
        serde_json::Value::Number(n) => JsonValue::Number(n.to_string()),
        serde_json::Value::String(s) => JsonValue::Text(s.clone()),
        serde_json::Value::Array(a) => JsonValue::Array(
            a.iter().map(|x| value_from_serde(x)).collect(),
        ),
        serde_json::Value::Object(m) => JsonValue::Object(
            m.iter().map(|(k, x)| (k.clone(), value_from_serde(x))).collect(),
        ),
    }
}

/// Relies on `serde_json::from_str::<serde_json::Value>`: parses a JSON
/// text, succeeding exactly on valid JSON, and the document it returns is a
/// function of the text alone; the conversion keeps it well-formed.
#[verifier::external_body]
pub(crate) fn parse_json(s: &str) -> (r: Option<JsonValue>)
    ensures
        r is Some <==> json_doc_of(s@) is Some,
        r matches Some(v) ==> v.wf() && json_doc_of(s@) == Some(render(v)),
{
    match serde_json::from_str::<serde_json::Value>(s) {
        Ok(v) => Some(value_from_serde(&v)),
        Err(_) => None,
    }
}

/// Parses a JSON text into the document model: succeeds exactly on valid
/// JSON, and the document is well-formed, with its canonical rendering
/// pinned by `json_doc_of`. This is the library's parsing entry point; the
/// embedding program uses it for configuration bodies and stored rows.
pub fn parse_document(s: &str) -> (r: Option<JsonValue>)
    ensures
        r is Some <==> json_doc_of(s@) is Some,
        r matches Some(v) ==> v.wf() && json_doc_of(s@) == Some(render(v)),
{
    parse_json(s)
}

impl HttpResponseData {
    /// Well-formedness of a snapshot: header names are unique, and a
    /// parsed body is in canonical form.
    pub open spec fn wf(self) -> bool {
        &&& forall|i: int, j: int|
            0 <= i < j < self.headers@.len() ==> (#[trigger] self.headers@[i].0@) != (
            #[trigger] self.headers@[j].0@)
        &&& match self.body.json {
            Some(v) => v.wf(),
            None => true,
        }
    }

    /// A snapshot of a response: the body is parsed as JSON exactly when
    /// the headers announce a JSON content type and the text is valid
    /// JSON.
    pub fn new(status_code: u16, headers: Vec<(String, String)>, body: String) -> (r:
        HttpResponseData)
        ensures
            r.status_code == status_code,
            r.headers == headers,
            r.body.raw == body,
            !is_json_content(headers@) ==> r.body.json is None,
            is_json_content(headers@) ==> (r.body.json is Some <==> json_doc_of(body@) is Some),
            r.body.json matches Some(v) ==> is_json_content(headers@) && v.wf() && json_doc_of(
                body@,
            ) == Some(render(v)),
    {
        let mut json_body: Option<JsonValue> = None;
        let ct = match find_header(&headers, "Content-Type") {
            Some(j) => Some(j),
            None => find_header(&headers, "content-type"),
        };
        match ct {
            Some(j) => {
                if str_starts_with(headers[j].1.as_str(), "application/json") {
                    json_body = parse_json(body.as_str());
                }
            },
            None => {},
        }
        HttpResponseData { status_code, headers, body: ParsedBody { raw: body, json: json_body } }
    }
}

/// Whether every value of an object's entries is a text value.
pub open spec fn all_text_values(e: Seq<(String, JsonValue)>) -> bool {
    forall|i: int| 0 <= i < e.len() ==> (#[trigger] e[i]).1 is Text
}

/// The header list a stored document stands for: the entries of an object
/// whose values are all strings, and nothing otherwise.
pub open spec fn spec_headers_of(v: JsonValue) -> Seq<(String, String)> {
    match v {
        JsonValue::Object(e) => if all_text_values(e@) {
            e@.map_values(|p: (String, JsonValue)| (p.0, p.1->Text_0))
        } else {
            Seq::empty()
        },
        _ => Seq::empty(),
    }
}

/// The headers a stored document holds: the entries of a JSON object of
/// strings, as decoded from the baseline store; any other document decodes
/// to no headers.
#[verifier::loop_isolation(false)]
pub fn headers_from_value(v: &JsonValue) -> (r: Vec<(String, String)>)
    ensures
        r@ == spec_headers_of(*v),
{
    match v {
        JsonValue::Object(entries) => {
            let mut out: Vec<(String, String)> = Vec::new();
            let mut i: usize = 0;
            while i < entries.len()
                invariant
                    0 <= i <= entries@.len(),
                    forall|m: int| 0 <= m < i ==> (#[trigger] entries@[m]).1 is Text,
                    out@ =~= entries@.take(i as int).map_values(
                        |p: (String, JsonValue)| (p.0, p.1->Text_0),
                    ),
                decreases entries@.len() - i,
            {
                match &entries[i].1 {
                    JsonValue::Text(value) => {
                        out.push((entries[i].0.clone(), value.clone()));
                        proof {
                            assert(out@ =~= entries@.take(i + 1).map_values(
                                |p: (String, JsonValue)| (p.0, p.1->Text_0),
                            ));
                        }
                    },
                    _ => {
                        return Vec::new();
                    },
                }
                i += 1;
            }
            proof {
                assert(entries@.take(entries@.len() as int) =~= entries@);
                assert(out@ =~= spec_headers_of(*v));
            }
            out
        },
        _ => Vec::new(),
    }
}

/// The object entries a header list is stored as, built by sorted
/// insertion from the front.
pub open spec fn header_doc_entries(h: Seq<(String, String)>, i: int) -> Seq<(String, JsonValue)>
    decreases i,
{
    if i <= 0 {
        Seq::empty()
    } else {
        crate::json::spec_obj_insert(
            header_doc_entries(h, i - 1),
            h[i - 1].0,
            JsonValue::Text(h[i - 1].1),
        )
    }
}

/// The JSON object a header list is persisted as: one string entry per
/// header, in canonical key order, later duplicates replacing earlier
/// ones. Rendering it gives the stored form.
#[verifier::loop_isolation(false)]
pub fn headers_document(headers: &Vec<(String, String)>) -> (v: JsonValue)
    ensures
        v is Object,
        v->Object_0@ == header_doc_entries(headers@, headers@.len() as int),
        v.wf(),
{
    let mut doc = JsonValue::empty_object();
    let mut i: usize = 0;
    while i < headers.len()
        invariant
            0 <= i <= headers@.len(),
            doc is Object,
            doc->Object_0@ == header_doc_entries(headers@, i as int),
            doc.wf(),
        decreases headers@.len() - i,
    {
        doc = doc.insert(headers[i].0.clone(), JsonValue::Text(headers[i].1.clone()));
        i += 1;
    }
    doc
}

} // verus!
