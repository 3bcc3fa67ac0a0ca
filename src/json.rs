//! The JSON document of a result set.
use vstd::prelude::*;
use vstd::string::StringExecFns;
use crate::http::{HttpRequest, HttpRequestView};
use crate::output::{Output, OutputView};
use crate::scan::run_model;

verus! {

/// The JSON string literal that `serde_json` writes for the text `s`: quoted,
/// with its special characters escaped.
pub uninterp spec fn json_string_of(s: Seq<char>) -> Seq<char>;

/// Relies on `serde_json::to_string`, which writes a `str` as a quoted and
/// escaped JSON string; serializing a `str` into memory does not fail.
#[verifier::external_body]
fn json_string(s: &str) -> (r: String)
    ensures
        r@ == json_string_of(s@),
{
    serde_json::to_string(s).unwrap_or_default()
}

/// The JSON object of one record, its fields in a fixed order.
pub open spec fn request_json(r: HttpRequestView) -> Seq<char> {
    "{\"name\":"@ + json_string_of(r.name) + ",\"url\":"@ + json_string_of(r.url) + ",\"method\":"@
        + json_string_of(r.method) + ",\"trace_id\":"@ + json_string_of(r.trace_id)
        + ",\"response_code\":"@ + json_string_of(r.response_code) + ",\"response_time\":"@
        + json_string_of(r.response_time) + "}"@
}

/// The member of the `endpoints` object for one record: its name, then its object.
pub open spec fn entry_json(r: HttpRequestView) -> Seq<char> {
    json_string_of(r.name) + ":"@ + request_json(r)
}

/// The members for the records `es`, in order, separated by commas.
pub open spec fn entries_json(es: Seq<HttpRequestView>) -> Seq<char>
    decreases es.len(),
{
    if es.len() == 0 {
        Seq::empty()
    } else if es.len() == 1 {
        entry_json(es[0])
    } else {
        entries_json(es.drop_last()) + ","@ + entry_json(es.last())
    }
}

/// The JSON document of a result set: an object with the records under
/// `endpoints`, keyed by name, and the version under `version`.
pub open spec fn output_json(o: OutputView) -> Seq<char> {
    "{\"endpoints\":{"@ + entries_json(o.endpoints) + "},\"version\":"@ + json_string_of(o.version)
        + "}"@
}

/// Two runs over the same files end alike: where both succeed, their result
/// sets have the same content and so the same JSON document, byte for byte.
pub proof fn lemma_rerun_identical(files: Seq<Seq<Seq<char>>>, a: OutputView, b: OutputView)
    requires
        run_model(files) == Ok::<OutputView, crate::error::ParseError>(a),
        run_model(files) == Ok::<OutputView, crate::error::ParseError>(b),
    ensures
        a == b,
        output_json(a) == output_json(b),
{
}

/// Appends `lit` and the JSON string of `value` to `out`.
fn push_field(out: &mut String, lit: &str, value: &String)
    ensures
        final(out)@ == old(out)@ + lit@ + json_string_of(value@),
{
    out.append(lit);
    let v = json_string(value.as_str());
    out.append(v.as_str());
}

/// Appends the JSON object of `r` to `out`.
fn push_request(out: &mut String, r: &HttpRequest)
    ensures
        final(out)@ == old(out)@ + request_json(r@),
{
    push_field(out, "{\"name\":", &r.name);
    push_field(out, ",\"url\":", &r.url);
    push_field(out, ",\"method\":", &r.method);
    push_field(out, ",\"trace_id\":", &r.trace_id);
    push_field(out, ",\"response_code\":", &r.response_code);
    push_field(out, ",\"response_time\":", &r.response_time);
    out.append("}");
    assert(final(out)@ =~= old(out)@ + request_json(r@));
}

impl Output {
    /// The JSON document of this result set; it depends on the content alone.
    pub fn to_json(&self) -> (r: String)
        ensures
            r@ == output_json(self@),
    {
        let mut out = String::from_str("{\"endpoints\":{");
        let ghost es = self@.endpoints;
        let mut i: usize = 0;
        while i < self.endpoints.len()
            invariant
                i <= es.len(),
                es == self@.endpoints,
                out@ == "{\"endpoints\":{"@ + entries_json(es.take(i as int)),
            decreases es.len() - i,
        {
            let r = &self.endpoints[i];
            if i > 0 {
                out.append(",");
            }
            let name = json_string(r.name.as_str());
            out.append(name.as_str());
            out.append(":");
            push_request(&mut out, r);
            proof {
                let t = es.take(i + 1);
                assert(t.drop_last() =~= es.take(i as int));
                assert(t.last() == r@);
                if i == 0 {
                    assert(es.take(0) =~= Seq::<HttpRequestView>::empty());
                }
                assert(out@ =~= "{\"endpoints\":{"@ + entries_json(t));
            }
            i = i + 1;
        }
        proof {
            assert(es.take(i as int) =~= es);
        }
        out.append("},\"version\":");
        let v = json_string(self.version.as_str());
        out.append(v.as_str());
        out.append("}");
        assert(out@ =~= output_json(self@));
        out
    }
}

} // verus!
