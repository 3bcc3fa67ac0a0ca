//! Extraction of an HTTP request record from a log payload.
use vstd::prelude::*;
use crate::error::ParseError;

verus! {

/// The grammar of an HTTP request payload. Its groups, in order: query name,
/// method, URL, trace id, response code, seconds since the query.
pub const HTTP_PATTERN: &'static str = r"(?m)QueryName:\s?\[(\w+)], URL \[(\w+)\s?(.+)], TraceID:\s?\[(\w+)] Response Code:\s?\[(\d+)], Seconds Since Query\s?\[([\d.]+)]";

/// What the `regex` crate captures of `text` with `pattern`: `None` where the
/// pattern does not compile or does not match; otherwise one entry per group,
/// the whole match first, `None` for a group that took no part in the match.
pub uninterp spec fn regex_captures(pattern: Seq<char>, text: Seq<char>) -> Option<Seq<Option<Seq<char>>>>;

/// Relies on `regex::Regex::new` to compile `pattern` and on
/// `regex::Regex::captures` for the groups of its first match in `text`.
#[verifier::external_body]
fn capture_groups(pattern: &str, text: &str) -> (r: Option<Vec<Option<String>>>)
    ensures
        r.deep_view() == regex_captures(pattern@, text@),
{
    match regex::Regex::new(pattern) {
        Ok(re) => re.captures(text).map(
            |c| c.iter().map(|m| m.map(|m| m.as_str().to_string())).collect(),
        ),
        Err(_) => None,
    }
}

/// The fields of an HTTP request record, as text.
pub struct HttpRequestView {
    pub name: Seq<char>,
    pub url: Seq<char>,
    pub method: Seq<char>,
    pub trace_id: Seq<char>,
    pub response_code: Seq<char>,
    pub response_time: Seq<char>,
}

/// The record that the groups of a match describe: `None` where there was no
/// match, or where one of the six groups is missing.
pub open spec fn request_of_groups(g: Option<Seq<Option<Seq<char>>>>) -> Option<HttpRequestView> {
    match g {
        Some(v) => if v.len() >= 7 && v[1] is Some && v[2] is Some && v[3] is Some && v[4] is Some
            && v[5] is Some && v[6] is Some {
            Some(
                HttpRequestView {
                    name: v[1]->0,
                    method: v[2]->0,
                    url: v[3]->0,
                    trace_id: v[4]->0,
                    response_code: v[5]->0,
                    response_time: v[6]->0,
                },
            )
        } else {
            None
        },
        None => None,
    }
}

/// The record that a payload describes under the request grammar, if any.
pub open spec fn request_of_payload(data: Seq<char>) -> Option<HttpRequestView> {
    request_of_groups(regex_captures(HTTP_PATTERN@, data))
}

/// One outbound HTTP request, every field kept as the log wrote it.
#[derive(Debug)]
pub struct HttpRequest {
    pub url: String,
    pub name: String,
    pub method: String,
    pub trace_id: String,
    pub response_code: String,
    pub response_time: String,
}

impl View for HttpRequest {
    type V = HttpRequestView;

    open spec fn view(&self) -> HttpRequestView {
        HttpRequestView {
            name: self.name@,
            url: self.url@,
            method: self.method@,
            trace_id: self.trace_id@,
            response_code: self.response_code@,
            response_time: self.response_time@,
        }
    }
}

/// The text of group `i`, where it took part in the match.
fn group_text(v: &Vec<Option<String>>, i: usize) -> (r: Option<String>)
    requires
        i < v@.len(),
    ensures
        r.deep_view() == v.deep_view()[i as int],
{
    match &v[i] {
        Some(s) => Some(s.clone()),
        None => None,
    }
}

impl HttpRequest {
    /// Builds the record from the capture groups of a match of [`HTTP_PATTERN`].
    pub fn from_captures(groups: Option<Vec<Option<String>>>) -> (r: Result<HttpRequest, ParseError>)
        ensures
            match r {
                Ok(h) => request_of_groups(groups.deep_view()) == Some(h@),
                Err(e) => request_of_groups(groups.deep_view()) is None
                    && e == ParseError::UnrecognizedHttpFormat,
            },
    {
        let v = match groups {
            Some(v) => v,
            None => return Err(ParseError::UnrecognizedHttpFormat),
        };
        if v.len() < 7 {
            return Err(ParseError::UnrecognizedHttpFormat);
        }
        let name = group_text(&v, 1);
        let method = group_text(&v, 2);
        let url = group_text(&v, 3);
        let trace_id = group_text(&v, 4);
        let response_code = group_text(&v, 5);
        let response_time = group_text(&v, 6);
        match (name, method, url, trace_id, response_code, response_time) {
            (Some(name), Some(method), Some(url), Some(trace_id), Some(response_code), Some(response_time)) => {
                Ok(HttpRequest { url, name, method, trace_id, response_code, response_time })
            },
            _ => Err(ParseError::UnrecognizedHttpFormat),
        }
    }

    /// Matches `data` against [`HTTP_PATTERN`] and builds the record it describes.
    pub fn new(data: String) -> (r: Result<HttpRequest, ParseError>)
        ensures
            match r {
                Ok(h) => request_of_payload(data@) == Some(h@),
                Err(e) => request_of_payload(data@) is None && e == ParseError::UnrecognizedHttpFormat,
            },
    {
        let groups = capture_groups(HTTP_PATTERN, data.as_str());
        HttpRequest::from_captures(groups)
    }
}

} // verus!
