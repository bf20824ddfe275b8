//! Classification of an upstream response and the caching metadata it is
//! served with.
use vstd::prelude::*;
use crate::text::{chars_of, ends_with, find_from, has_suffix, occurs_at};

verus! {

/// What an upstream response holds.
#[derive(PartialEq, Eq, Structural, Clone, Copy, Debug)]
pub enum Kind {
    /// An HLS manifest, served rewritten.
    Playlist,
    /// A media segment, served as it came.
    Segment,
    /// Anything else, served as it came.
    Other,
}

/// How a response is served: its kind, content type and cache headers.
pub struct Classification {
    pub kind: Kind,
    pub content_type: String,
    pub cache_control: String,
    pub cdn_cache_control: String,
}

/// The content type of a manifest.
pub open spec fn playlist_type() -> Seq<char> {
    "application/vnd.apple.mpegurl"@
}

/// The content type of a media segment.
pub open spec fn segment_type() -> Seq<char> {
    "video/mp2t"@
}

/// A character with ASCII upper case folded to lower case.
pub open spec fn ascii_lower(c: char) -> char {
    if 'A' <= c <= 'Z' {
        ((c as u32) + 32) as char
    } else {
        c
    }
}

/// `s` with ASCII upper case folded to lower case.
pub open spec fn lowered(s: Seq<char>) -> Seq<char> {
    Seq::new(s.len(), |i: int| ascii_lower(s[i]))
}

/// `s` contains the lower-case `pat`, letter case aside.
pub open spec fn mentions(s: Seq<char>, pat: Seq<char>) -> bool {
    exists|i: int| occurs_at(lowered(s), pat, i)
}

/// The upstream content type, `text/plain` where there was none.
pub open spec fn upstream_type(content_type: Option<Seq<char>>) -> Seq<char> {
    match content_type {
        Some(t) => t,
        None => "text/plain"@,
    }
}

/// The kind of a response with the given content type, for a target with
/// path `path`; a manifest takes precedence over a segment.
pub open spec fn kind_of(content_type: Option<Seq<char>>, path: Seq<char>) -> Kind {
    let t = upstream_type(content_type);
    if mentions(t, playlist_type()) || ends_with(path, ".m3u8"@) {
        Kind::Playlist
    } else if mentions(t, segment_type()) || ends_with(path, ".ts"@) {
        Kind::Segment
    } else {
        Kind::Other
    }
}

/// The content type that a response is served with.
pub open spec fn served_type(content_type: Option<Seq<char>>, path: Seq<char>) -> Seq<char> {
    match kind_of(content_type, path) {
        Kind::Playlist => playlist_type(),
        Kind::Segment => segment_type(),
        Kind::Other => upstream_type(content_type),
    }
}

/// The `Cache-Control` value that a response of `kind` is served with.
pub open spec fn served_cache_control(kind: Kind, upstream: Option<Seq<char>>) -> Seq<char> {
    match upstream {
        Some(v) => v,
        None => if kind == Kind::Playlist {
            "public, max-age=18000, stale-while-revalidate=300"@
        } else {
            "public, max-age=2592000, stale-while-revalidate=86400"@
        },
    }
}

/// The `CDN-Cache-Control` value that a response of `kind` is served with.
pub open spec fn served_cdn_cache_control(kind: Kind, upstream: Option<Seq<char>>) -> Seq<char> {
    match upstream {
        Some(v) => v,
        None => if kind == Kind::Playlist {
            "max-age=18000"@
        } else {
            "max-age=2592000"@
        },
    }
}

/// Whether `s` contains the lower-case `pat`, letter case aside.
fn mentions_exec(s: &str, pat: &str) -> (r: bool)
    ensures
        r == mentions(s@, pat@),
{
    let chars = chars_of(s);
    let mut low: Vec<char> = Vec::new();
    let mut i: usize = 0;
    while i < chars.len()
        invariant
            i <= chars.len(),
            low@ =~= lowered(chars@.take(i as int)),
        decreases chars.len() - i,
    {
        let c = chars[i];
        let l = if 'A' <= c && c <= 'Z' {
            ((c as u32) + 32) as u8 as char
        } else {
            c
        };
        low.push(l);
        i = i + 1;
    }
    assert(chars@.take(i as int) =~= s@);
    let p = chars_of(pat);
    match find_from(&low, &p, 0) {
        Some(k) => {
            assert(occurs_at(lowered(s@), pat@, k as int));
            true
        },
        None => false,
    }
}

/// Whether `path` ends with `suffix`.
fn path_ends_with(path: &str, suffix: &str) -> (r: bool)
    ensures
        r == ends_with(path@, suffix@),
{
    let p = chars_of(path);
    let s = chars_of(suffix);
    has_suffix(&p, &s)
}

/// The value from upstream, else the given default.
fn or_default(upstream: Option<String>, default: &str) -> (r: String)
    ensures
        r@ == match upstream {
            Some(v) => v@,
            None => default@,
        },
{
    match upstream {
        Some(v) => v,
        None => default.to_owned(),
    }
}

/// Classifies an upstream response by its content type (absent where the
/// header is missing or unreadable) and the target's path, and picks the
/// content type and cache headers it is served with: the upstream cache
/// headers where present, else the defaults of its kind.
pub fn classify(
    content_type: Option<String>,
    path: &str,
    cache_control: Option<String>,
    cdn_cache_control: Option<String>,
) -> (r: Classification)
    ensures
        r.kind == kind_of(content_type.deep_view(), path@),
        r.content_type@ == served_type(content_type.deep_view(), path@),
        r.cache_control@ == served_cache_control(r.kind, cache_control.deep_view()),
        r.cdn_cache_control@ == served_cdn_cache_control(r.kind, cdn_cache_control.deep_view()),
{
    let upstream = or_default(content_type, "text/plain");
    let kind = if mentions_exec(upstream.as_str(), "application/vnd.apple.mpegurl")
        || path_ends_with(path, ".m3u8") {
        Kind::Playlist
    } else if mentions_exec(upstream.as_str(), "video/mp2t") || path_ends_with(path, ".ts") {
        Kind::Segment
    } else {
        Kind::Other
    };
    let served = match kind {
        Kind::Playlist => "application/vnd.apple.mpegurl".to_owned(),
        Kind::Segment => "video/mp2t".to_owned(),
        Kind::Other => upstream,
    };
    let (cc_default, cdn_default) = match kind {
        Kind::Playlist => ("public, max-age=18000, stale-while-revalidate=300", "max-age=18000"),
        _ => ("public, max-age=2592000, stale-while-revalidate=86400", "max-age=2592000"),
    };
    Classification {
        kind,
        content_type: served,
        cache_control: or_default(cache_control, cc_default),
        cdn_cache_control: or_default(cdn_cache_control, cdn_default),
    }
}

/// A response that names `video/mp2t` in its content type, or whose target
/// path ends in `.ts`, is served as `video/mp2t`, whatever else its content
/// type says, unless it is a manifest by content type or path, which takes
/// precedence.
pub proof fn lemma_segments_served_as_mp2t(content_type: Option<Seq<char>>, path: Seq<char>)
    requires
        mentions(upstream_type(content_type), segment_type()) || ends_with(path, ".ts"@),
        !mentions(upstream_type(content_type), playlist_type()),
        !ends_with(path, ".m3u8"@),
    ensures
        kind_of(content_type, path) == Kind::Segment,
        served_type(content_type, path) == "video/mp2t"@,
{
}

/// A manifest target fetched without a `Cache-Control` header is served with
/// the manifest default of five hours, revalidated in the background for
/// five minutes.
pub proof fn lemma_playlist_default_cache_control(content_type: Option<Seq<char>>, path: Seq<char>)
    requires
        ends_with(path, ".m3u8"@),
    ensures
        kind_of(content_type, path) == Kind::Playlist,
        served_cache_control(kind_of(content_type, path), None)
            == "public, max-age=18000, stale-while-revalidate=300"@,
        served_cdn_cache_control(kind_of(content_type, path), None) == "max-age=18000"@,
{
}

} // verus!
