//! Validation of an incoming fetch query and the headers of the outbound request.
use vstd::prelude::*;
use vstd::string::StringExecFns;
use crate::header::{header_value_ok, valid_header_value};
use crate::text::{chars_of, ends_with, has_suffix};
use crate::urls::{parse_url, url_domain, url_origin, url_parses, url_path, TargetUrl};

verus! {

/// Why a fetch could not be served.
pub enum ProxyError {
    /// The target URL is missing or does not parse; nothing was fetched.
    InvalidInput,
    /// The upstream fetch failed (network error, timeout, too many redirects).
    UpstreamFailure(String),
    /// The outgoing response could not be built.
    AssemblyFailure,
}

impl ProxyError {
    /// The HTTP status that the error is served with.
    pub open spec fn spec_status(&self) -> u16 {
        match self {
            ProxyError::InvalidInput => 400,
            _ => 500,
        }
    }

    /// The HTTP status that the error is served with.
    pub fn status(&self) -> (r: u16)
        ensures
            r == self.spec_status(),
    {
        match self {
            ProxyError::InvalidInput => 400,
            _ => 500,
        }
    }

    /// The plain-text body that the error is served with.
    pub fn message(&self) -> (r: String)
        ensures
            r@ == match self {
                ProxyError::InvalidInput => "Invalid URL"@,
                ProxyError::UpstreamFailure(cause) => "Fetch failed: "@ + cause@,
                ProxyError::AssemblyFailure => "Body assembly failed"@,
            },
    {
        match self {
            ProxyError::InvalidInput => "Invalid URL".to_owned(),
            ProxyError::UpstreamFailure(cause) => "Fetch failed: ".to_owned().concat(cause.as_str()),
            ProxyError::AssemblyFailure => "Body assembly failed".to_owned(),
        }
    }
}

/// A validated fetch: the target and the referrer to present upstream.
pub struct FetchRequest {
    pub target: TargetUrl,
    pub referrer: String,
}

/// The referrer to present: the one given, else the target's origin.
pub open spec fn chosen_referrer(url: Seq<char>, ref_: Option<Seq<char>>) -> Seq<char> {
    match ref_ {
        Some(r) => r,
        None => url_origin(url),
    }
}

/// Validates the query of a fetch: `url` must parse as an absolute URL; the
/// referrer defaults to the target's origin.
pub fn validate_query(url: &str, ref_: Option<String>) -> (r: Result<FetchRequest, ProxyError>)
    ensures
        r is Ok <==> url_parses(url@),
        r matches Err(e) ==> e is InvalidInput && e.spec_status() == 400,
        r matches Ok(req) ==> {
            &&& req.target.parsed_from(url@)
            &&& req.referrer@ == chosen_referrer(url@, ref_.deep_view())
        },
{
    match parse_url(url) {
        Ok(target) => {
            let referrer = match ref_ {
                Some(r) => r,
                None => target.origin.clone(),
            };
            Ok(FetchRequest { target, referrer })
        },
        Err(_) => Err(ProxyError::InvalidInput),
    }
}

/// The identifying user agent of the proxy.
pub open spec fn user_agent() -> Seq<char> {
    "Mozilla/5.0 (compatible; RustProxy/1.0)"@
}

/// A header value, or the empty value where it is not a valid one.
pub open spec fn header_or_empty(v: Seq<char>) -> Seq<char> {
    if valid_header_value(v) {
        v
    } else {
        Seq::empty()
    }
}

/// The suffix of a media segment's path.
pub open spec fn segment_suffix() -> Seq<char> {
    seq!['.', 't', 's']
}

/// The headers of the outbound request, in order, for a target with path
/// `path` and domain `domain`.
pub open spec fn outbound_headers(
    path: Seq<char>,
    domain: Option<Seq<char>>,
    referrer: Seq<char>,
) -> Seq<(Seq<char>, Seq<char>)> {
    let base = seq![
        ("User-Agent"@, user_agent()),
        ("Referer"@, header_or_empty(referrer)),
        ("Accept"@, "*/*"@),
    ];
    let ranged = if ends_with(path, segment_suffix()) {
        base.push(("Range"@, "bytes=0-"@))
    } else {
        base
    };
    match domain {
        Some(d) => ranged.push(("Origin"@, header_or_empty("https://"@ + d))),
        None => ranged,
    }
}

/// The value itself where it is a valid header value, else the empty value.
fn header_value(v: String) -> (r: String)
    ensures
        r@ == header_or_empty(v@),
{
    if header_value_ok(v.as_str()) {
        v
    } else {
        String::new()
    }
}

/// The headers of the outbound request for `req`: a user agent, the
/// referrer and `Accept: */*`; `Range: bytes=0-` for a segment; and an
/// `Origin` where the target has a domain.
pub fn build_headers(req: &FetchRequest) -> (r: Vec<(String, String)>)
    ensures
        r.deep_view() == outbound_headers(
            req.target.path@,
            req.target.domain.deep_view(),
            req.referrer@,
        ),
{
    let mut r: Vec<(String, String)> = Vec::new();
    r.push(("User-Agent".to_owned(), "Mozilla/5.0 (compatible; RustProxy/1.0)".to_owned()));
    r.push(("Referer".to_owned(), header_value(req.referrer.clone())));
    r.push(("Accept".to_owned(), "*/*".to_owned()));
    let path = chars_of(req.target.path.as_str());
    let suffix: Vec<char> = vec!['.', 't', 's'];
    if has_suffix(&path, &suffix) {
        r.push(("Range".to_owned(), "bytes=0-".to_owned()));
    }
    match &req.target.domain {
        Some(d) => {
            let origin = "https://".to_owned().concat(d.as_str());
            r.push(("Origin".to_owned(), header_value(origin)));
        },
        None => {},
    }
    assert(r.deep_view() =~= outbound_headers(
        req.target.path@,
        req.target.domain.deep_view(),
        req.referrer@,
    ));
    r
}

/// Some header of `headers` is named `name`.
pub open spec fn has_header(headers: Seq<(Seq<char>, Seq<char>)>, name: Seq<char>) -> bool {
    exists|i: int| 0 <= i < headers.len() && #[trigger] headers[i].0 == name
}

/// For every absolute URL, the outbound request carries a user agent, a
/// referrer and an `Accept` header; it asks for a range exactly when the
/// path ends in `.ts`, and names an origin exactly when the URL has a domain.
pub proof fn lemma_outbound_header_set(url: Seq<char>, referrer: Seq<char>)
    requires
        url_parses(url),
    ensures
        has_header(outbound_headers(url_path(url), url_domain(url), referrer), "User-Agent"@),
        has_header(outbound_headers(url_path(url), url_domain(url), referrer), "Referer"@),
        has_header(outbound_headers(url_path(url), url_domain(url), referrer), "Accept"@),
        has_header(outbound_headers(url_path(url), url_domain(url), referrer), "Range"@)
            <==> ends_with(url_path(url), segment_suffix()),
        has_header(outbound_headers(url_path(url), url_domain(url), referrer), "Origin"@)
            <==> url_domain(url) is Some,
{
    reveal_strlit("User-Agent");
    reveal_strlit("Referer");
    reveal_strlit("Accept");
    reveal_strlit("Range");
    reveal_strlit("Origin");
    let hs = outbound_headers(url_path(url), url_domain(url), referrer);
    let ranged = ends_with(url_path(url), segment_suffix());
    assert(hs[0].0 == "User-Agent"@);
    assert(hs[1].0 == "Referer"@);
    assert(hs[2].0 == "Accept"@);
    assert("Range"@ != "User-Agent"@ && "Range"@ != "Referer"@ && "Range"@ != "Accept"@ && "Range"@
        != "Origin"@) by {
        assert("Range"@.len() != "User-Agent"@.len());
        assert("Range"@.len() != "Referer"@.len());
        assert("Range"@.len() != "Accept"@.len());
        assert("Range"@.len() != "Origin"@.len());
    }
    assert("Origin"@ != "User-Agent"@ && "Origin"@ != "Referer"@ && "Origin"@ != "Accept"@) by {
        assert("Origin"@.len() != "User-Agent"@.len());
        assert("Origin"@.len() != "Referer"@.len());
        assert("Origin"@[0] != "Accept"@[0]);
    }
    if ranged {
        assert(hs[3].0 == "Range"@);
    }
    if url_domain(url) is Some {
        assert(hs[hs.len() - 1].0 == "Origin"@);
    }
}

} // verus!
