//! URL parsing, reference resolution and query-value encoding, as provided by
//! the `url` and `urlencoding` crates.
use vstd::prelude::*;
use vstd::utf8::encode_utf8;

verus! {

#[verifier::external_type_specification]
#[verifier::external_body]
pub struct ExParseError(url::ParseError);

/// Whether `s` parses as an absolute URL.
pub uninterp spec fn url_parses(s: Seq<char>) -> bool;

/// The serialization of the URL that `s` parses to.
pub uninterp spec fn url_href(s: Seq<char>) -> Seq<char>;

/// The path component of the URL that `s` parses to.
pub uninterp spec fn url_path(s: Seq<char>) -> Seq<char>;

/// The domain of the URL that `s` parses to, if its host is a domain name.
pub uninterp spec fn url_domain(s: Seq<char>) -> Option<Seq<char>>;

/// The ASCII serialization of the origin (scheme and host) of the URL that `s` parses to.
pub uninterp spec fn url_origin(s: Seq<char>) -> Seq<char>;

/// The serialization of `reference` resolved against the URL that `base`
/// parses to, or `None` where either step fails.
pub uninterp spec fn url_join(base: Seq<char>, reference: Seq<char>) -> Option<Seq<char>>;

/// An absolute URL, held as the parts of it that the proxy reads.
pub struct TargetUrl {
    pub href: String,
    pub path: String,
    pub domain: Option<String>,
    pub origin: String,
}

impl TargetUrl {
    /// The parts that the url crate reads from `s`.
    pub open spec fn parsed_from(&self, s: Seq<char>) -> bool {
        &&& self.href@ == url_href(s)
        &&& self.path@ == url_path(s)
        &&& self.domain.deep_view() == url_domain(s)
        &&& self.origin@ == url_origin(s)
    }
}

/// Relies on url::Url::parse, and on the parsed URL's `as_str`, `path`,
/// `domain` and `origin().ascii_serialization()`: whether `s` is an absolute
/// URL, and its parts.
#[verifier::external_body]
pub(crate) fn parse_url(s: &str) -> (r: Result<TargetUrl, url::ParseError>)
    ensures
        r is Ok <==> url_parses(s@),
        r matches Ok(t) ==> t.href@ == url_href(s@),
        r matches Ok(t) ==> t.path@ == url_path(s@),
        r matches Ok(t) ==> t.domain.deep_view() == url_domain(s@),
        r matches Ok(t) ==> t.origin@ == url_origin(s@),
{
    let u = url::Url::parse(s)?;
    Ok(TargetUrl {
        href: u.as_str().to_string(),
        path: u.path().to_string(),
        domain: u.domain().map(|d| d.to_string()),
        origin: u.origin().ascii_serialization(),
    })
}

/// Relies on url::Url::parse of `base` and url::Url::join: resolution of a
/// relative or absolute reference against a base URL.
#[verifier::external_body]
pub(crate) fn join_url(base: &str, reference: &str) -> (r: Option<String>)
    ensures
        r.deep_view() == url_join(base@, reference@),
{
    let b = url::Url::parse(base).ok()?;
    b.join(reference).ok().map(String::from)
}

/// Bytes that a query value carries unescaped.
pub open spec fn is_unreserved(b: u8) -> bool {
    (48 <= b <= 57) || (65 <= b <= 90) || (97 <= b <= 122) || b == 45 || b == 46 || b == 95
        || b == 126
}

/// An upper-case hexadecimal digit for `d < 16`.
pub open spec fn hex_digit(d: u8) -> char {
    if d < 10 {
        ((48 + d) as u8) as char
    } else {
        ((55 + d) as u8) as char
    }
}

/// A byte as it stands in an encoded query value.
pub open spec fn encode_byte(b: u8) -> Seq<char> {
    if is_unreserved(b) {
        seq![b as char]
    } else {
        seq!['%', hex_digit(b / 16), hex_digit(b % 16)]
    }
}

/// Percent-encoding of a byte string: every byte but the unreserved ones
/// becomes `%` and two hexadecimal digits.
pub open spec fn percent_encode(bytes: Seq<u8>) -> Seq<char>
    decreases bytes.len(),
{
    if bytes.len() == 0 {
        Seq::empty()
    } else {
        percent_encode(bytes.drop_last()) + encode_byte(bytes.last())
    }
}

/// Relies on urlencoding::encode: every byte of the UTF-8 form but ASCII
/// letters, digits and `-`, `.`, `_`, `~` becomes `%XX`.
#[verifier::external_body]
pub(crate) fn encode_query_value(s: &str) -> (r: String)
    ensures
        r@ == percent_encode(encode_utf8(s@)),
{
    urlencoding::encode(s).into_owned()
}

} // verus!
