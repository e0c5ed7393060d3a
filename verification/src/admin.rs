//! The small HTTP endpoint that serves `/metrics` and `/healthz`.
use vstd::prelude::*;
use vstd::string::StringExecFns;
use vstd::utf8::encode_utf8;
use crate::health::{second_word, second_word_bounds};
use crate::text::{
    before_first, chars_of, decimal_string, lemma_first_index_of, seq_starts_with, spec_decimal, str_starts_with,
};

verus! {

/// The path a request head asks for: the second word of its first line,
/// or `/` when there is none.
pub open spec fn spec_request_path(head: Seq<char>) -> Seq<char> {
    if head.len() == 0 {
        "/"@
    } else {
        match second_word(before_first(head, '\n')) {
            Some(w) => w,
            None => "/"@,
        }
    }
}

/// What the endpoint serves for a path.
#[derive(Debug, Clone, Copy, PartialEq, Eq, Structural)]
pub enum AdminPage {
    /// Liveness: a plain "ok".
    Healthz,
    /// The Prometheus text exposition.
    Metrics,
}

pub open spec fn spec_admin_page(path: Seq<char>) -> AdminPage {
    if seq_starts_with(path, "/healthz"@) {
        AdminPage::Healthz
    } else {
        AdminPage::Metrics
    }
}

/// The path requested by the head of an HTTP request.
pub fn request_path(head: &str) -> (p: String)
    ensures
        p@ == spec_request_path(head@),
{
    let v = chars_of(head);
    if v.len() == 0 {
        return String::from_str("/");
    }
    let mut end: usize = 0;
    while end < v.len() && v[end] != '\n'
        invariant
            end <= v@.len(),
            forall|j: int| 0 <= j < end ==> v@[j] != '\n',
        decreases v@.len() - end,
    {
        end = end + 1;
    }
    proof {
        if end < v@.len() {
            lemma_first_index_of(head@, '\n', end as int);
        } else {
            assert(v@.take(end as int) =~= head@);
        }
        assert(before_first(head@, '\n') =~= v@.take(end as int));
    }
    match second_word_bounds(&v, end) {
        Some((a, b)) => head.substring_char(a, b).to_owned(),
        None => String::from_str("/"),
    }
}

/// Which page a request head asks for.
pub fn admin_page(head: &str) -> (page: AdminPage)
    ensures
        page == spec_admin_page(spec_request_path(head@)),
{
    let path = request_path(head);
    if str_starts_with(path.as_str(), "/healthz") {
        AdminPage::Healthz
    } else {
        AdminPage::Metrics
    }
}

/// A complete `200 OK` response that closes the connection.
pub open spec fn spec_ok_response(content_type: Seq<char>, body: Seq<char>) -> Seq<char> {
    "HTTP/1.1 200 OK\r\nContent-Type: "@ + content_type + "\r\nContent-Length: "@
        + spec_decimal(encode_utf8(body).len()) + "\r\nConnection: close\r\n\r\n"@ + body
}

/// Frame `body` as a `200 OK` response; `Content-Length` counts its bytes.
pub fn ok_response(content_type: &str, body: &str) -> (r: String)
    ensures
        r@ == spec_ok_response(content_type@, body@),
{
    let mut r = String::from_str("HTTP/1.1 200 OK\r\nContent-Type: ");
    r.append(content_type);
    r.append("\r\nContent-Length: ");
    let blen = body.as_bytes().len();
    let n = decimal_string(blen as u64);
    r.append(n.as_str());
    r.append("\r\nConnection: close\r\n\r\n");
    r.append(body);
    assert(r@ =~= spec_ok_response(content_type@, body@));
    r
}

/// The response for a page: `ok` as plain text for the health check, the
/// Prometheus text exposition `metrics_text` for the metrics page.
pub open spec fn spec_admin_response(page: AdminPage, metrics_text: Seq<char>) -> Seq<char> {
    match page {
        AdminPage::Healthz => spec_ok_response("text/plain"@, "ok"@),
        AdminPage::Metrics => spec_ok_response("text/plain; version=0.0.4"@, metrics_text),
    }
}

/// The full response the endpoint sends for `page`.
pub fn admin_response(page: AdminPage, metrics_text: &str) -> (r: String)
    ensures
        r@ == spec_admin_response(page, metrics_text@),
{
    match page {
        AdminPage::Healthz => ok_response("text/plain", "ok"),
        AdminPage::Metrics => ok_response("text/plain; version=0.0.4", metrics_text),
    }
}

} // verus!
