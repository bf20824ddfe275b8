//! Assembly of the response that the proxy serves.
use vstd::prelude::*;
use crate::classify::{Classification, Kind};
use crate::header::{header_value_ok, valid_header_value};
use crate::request::ProxyError;
use crate::rewrite::{rewrite_manifest, rewritten_manifest};

verus! {

/// A response body: decoded text, or raw bytes.
pub enum Body {
    Text(String),
    Bytes(Vec<u8>),
}

/// The response that the proxy serves for a successful fetch.
pub struct ProxyResponse {
    pub status: u16,
    pub content_type: String,
    pub cache_control: String,
    pub cdn_cache_control: String,
    pub body: Body,
}

/// Builds the served response: the upstream status unchanged, the content
/// type and cache headers of `class`, and the body, which for a manifest
/// read as text is rewritten against `base`, the URL it was fetched from.
/// Fails where a header value cannot stand in a response.
pub fn assemble(status: u16, base: &str, class: Classification, body: Body) -> (r: Result<
    ProxyResponse,
    ProxyError,
>)
    ensures
        r is Ok <==> valid_header_value(class.content_type@) && valid_header_value(
            class.cache_control@,
        ) && valid_header_value(class.cdn_cache_control@),
        r matches Err(e) ==> e is AssemblyFailure,
        r matches Ok(resp) ==> {
            &&& resp.status == status
            &&& resp.content_type@ == class.content_type@
            &&& resp.cache_control@ == class.cache_control@
            &&& resp.cdn_cache_control@ == class.cdn_cache_control@
            &&& match (body, resp.body) {
                (Body::Text(t), Body::Text(u)) => u@ == if class.kind == Kind::Playlist {
                    rewritten_manifest(base@, t@)
                } else {
                    t@
                },
                (Body::Bytes(b), Body::Bytes(c)) => c@ == b@,
                _ => false,
            }
        },
{
    if !header_value_ok(class.content_type.as_str()) || !header_value_ok(
        class.cache_control.as_str(),
    ) || !header_value_ok(class.cdn_cache_control.as_str()) {
        return Err(ProxyError::AssemblyFailure);
    }
    let served = match body {
        Body::Text(t) => if class.kind == Kind::Playlist {
            Body::Text(rewrite_manifest(base, t.as_str()))
        } else {
            Body::Text(t)
        },
        Body::Bytes(b) => Body::Bytes(b),
    };
    Ok(
        ProxyResponse {
            status,
            content_type: class.content_type,
            cache_control: class.cache_control,
            cdn_cache_control: class.cdn_cache_control,
            body: served,
        },
    )
}

} // verus!
