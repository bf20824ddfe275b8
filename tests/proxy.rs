use hls_proxy::classify::{classify, Kind};
use hls_proxy::request::{build_headers, validate_query, ProxyError};
use hls_proxy::response::{assemble, Body};
use hls_proxy::rewrite::{rewrite_line, rewrite_manifest};

const BASE: &str = "https://host/path/playlist.m3u8";

fn line(s: &str) -> Vec<char> {
    s.chars().collect()
}

fn text(v: Vec<char>) -> String {
    v.into_iter().collect()
}

#[test]
fn segment_line_is_proxied() {
    assert_eq!(
        rewrite_manifest(BASE, "seg1.ts"),
        "/fetch?url=https%3A%2F%2Fhost%2Fpath%2Fseg1.ts"
    );
    assert_eq!(
        text(rewrite_line(BASE, &line("seg1.ts"))),
        "/fetch?url=https%3A%2F%2Fhost%2Fpath%2Fseg1.ts"
    );
}

#[test]
fn key_line_rewrites_only_the_uri() {
    assert_eq!(
        rewrite_manifest(BASE, "#EXT-X-KEY:METHOD=AES-128,URI=\"key.bin\""),
        "#EXT-X-KEY:METHOD=AES-128,URI=\"/fetch?url=https%3A%2F%2Fhost%2Fpath%2Fkey.bin\""
    );
}

#[test]
fn key_line_keeps_attributes_after_the_uri() {
    assert_eq!(
        rewrite_manifest(BASE, "#EXT-X-KEY:METHOD=AES-128,URI=\"/k/1\",IV=0x01"),
        "#EXT-X-KEY:METHOD=AES-128,URI=\"/fetch?url=https%3A%2F%2Fhost%2Fk%2F1\",IV=0x01"
    );
}

#[test]
fn key_line_without_closing_quote_runs_to_end() {
    assert_eq!(
        rewrite_manifest(BASE, "#EXT-X-KEY:METHOD=AES-128,URI=\"key.bin"),
        "#EXT-X-KEY:METHOD=AES-128,URI=\"/fetch?url=https%3A%2F%2Fhost%2Fpath%2Fkey.bin"
    );
}

#[test]
fn key_line_without_uri_is_kept() {
    assert_eq!(
        rewrite_manifest(BASE, "#EXT-X-KEY:METHOD=NONE"),
        "#EXT-X-KEY:METHOD=NONE"
    );
}

#[test]
fn directive_lines_are_kept() {
    for l in ["#EXTM3U", "#EXTINF:10.0,", "#EXT-X-VERSION:3", "# a comment", "#"] {
        assert_eq!(rewrite_manifest(BASE, l), l);
        assert_eq!(text(rewrite_line(BASE, &line(l))), l);
    }
}

#[test]
fn blank_lines_are_kept() {
    assert_eq!(text(rewrite_line(BASE, &line("   \t"))), "   \t");
    assert_eq!(text(rewrite_line(BASE, &line(""))), "");
}

#[test]
fn unresolvable_reference_is_kept() {
    assert_eq!(rewrite_manifest("data:text/plain,hi", "seg.ts"), "seg.ts");
}

#[test]
fn absolute_reference_is_proxied() {
    assert_eq!(
        rewrite_manifest(BASE, "https://cdn.example/a/b.ts?x=1&y=2"),
        "/fetch?url=https%3A%2F%2Fcdn.example%2Fa%2Fb.ts%3Fx%3D1%26y%3D2"
    );
}

#[test]
fn non_ascii_reference_is_encoded_twice() {
    assert_eq!(
        rewrite_manifest(BASE, "\u{e9}.ts"),
        "/fetch?url=https%3A%2F%2Fhost%2Fpath%2F%25C3%25A9.ts"
    );
}

#[test]
fn whole_manifest_keeps_line_order_and_count() {
    let input = "#EXTM3U\r\n#EXTINF:4,\r\nseg1.ts\r\n\r\n#EXTINF:4,\nseg2.ts\n";
    let out = rewrite_manifest(BASE, input);
    assert_eq!(
        out,
        "#EXTM3U\n#EXTINF:4,\n/fetch?url=https%3A%2F%2Fhost%2Fpath%2Fseg1.ts\n\n#EXTINF:4,\n/fetch?url=https%3A%2F%2Fhost%2Fpath%2Fseg2.ts"
    );
    assert_eq!(out.lines().count(), input.lines().count());
}

#[test]
fn empty_manifest_stays_empty() {
    assert_eq!(rewrite_manifest(BASE, ""), "");
    assert_eq!(rewrite_manifest(BASE, "\n"), "");
}

#[test]
fn invalid_url_is_rejected_with_400() {
    let r = validate_query("not-a-url", None);
    match r {
        Err(e) => {
            assert!(matches!(e, ProxyError::InvalidInput));
            assert_eq!(e.status(), 400);
            assert_eq!(e.message(), "Invalid URL");
        }
        Ok(_) => panic!("accepted an invalid URL"),
    }
}

#[test]
fn referrer_defaults_to_origin() {
    let req = validate_query("https://example.com:8443/a/b.m3u8?t=1", None).ok().unwrap();
    assert_eq!(req.referrer, "https://example.com:8443");
    assert_eq!(req.target.path, "/a/b.m3u8");
    assert_eq!(req.target.domain.as_deref(), Some("example.com"));
    assert_eq!(req.target.href, "https://example.com:8443/a/b.m3u8?t=1");
    let req = validate_query("https://example.com/x", Some("https://site.test/".to_string()))
        .ok()
        .unwrap();
    assert_eq!(req.referrer, "https://site.test/");
}

fn names(h: &[(String, String)]) -> Vec<&str> {
    h.iter().map(|(n, _)| n.as_str()).collect()
}

#[test]
fn segment_request_carries_range_and_origin() {
    let req = validate_query("https://example.com/a/seg.ts", None).ok().unwrap();
    let h = build_headers(&req);
    assert_eq!(names(&h), vec!["User-Agent", "Referer", "Accept", "Range", "Origin"]);
    assert_eq!(h[0].1, "Mozilla/5.0 (compatible; RustProxy/1.0)");
    assert_eq!(h[1].1, "https://example.com");
    assert_eq!(h[2].1, "*/*");
    assert_eq!(h[3].1, "bytes=0-");
    assert_eq!(h[4].1, "https://example.com");
}

#[test]
fn ip_host_request_has_no_origin() {
    let req = validate_query("http://127.0.0.1:3000/live/index.m3u8", None).ok().unwrap();
    let h = build_headers(&req);
    assert_eq!(names(&h), vec!["User-Agent", "Referer", "Accept"]);
    assert_eq!(h[1].1, "http://127.0.0.1:3000");
}

#[test]
fn invalid_referrer_becomes_empty() {
    let req = validate_query("https://example.com/a", Some("bad\nref".to_string())).ok().unwrap();
    let h = build_headers(&req);
    assert_eq!(h[1], ("Referer".to_string(), String::new()));
}

#[test]
fn segment_served_as_mp2t() {
    let c = classify(Some("application/octet-stream".to_string()), "/a/seg.ts", None, None);
    assert_eq!(c.kind, Kind::Segment);
    assert_eq!(c.content_type, "video/mp2t");
    let c = classify(Some("Video/MP2T; charset=binary".to_string()), "/a/seg", None, None);
    assert_eq!(c.kind, Kind::Segment);
    assert_eq!(c.content_type, "video/mp2t");
    assert_eq!(c.cache_control, "public, max-age=2592000, stale-while-revalidate=86400");
    assert_eq!(c.cdn_cache_control, "max-age=2592000");
}

#[test]
fn playlist_default_cache_control() {
    let c = classify(Some("text/plain".to_string()), "/live/index.m3u8", None, None);
    assert_eq!(c.kind, Kind::Playlist);
    assert_eq!(c.content_type, "application/vnd.apple.mpegurl");
    assert_eq!(c.cache_control, "public, max-age=18000, stale-while-revalidate=300");
    assert_eq!(c.cdn_cache_control, "max-age=18000");
}

#[test]
fn playlist_takes_precedence_over_segment() {
    let c = classify(Some("application/vnd.apple.mpegurl".to_string()), "/x.ts", None, None);
    assert_eq!(c.kind, Kind::Playlist);
    assert_eq!(c.content_type, "application/vnd.apple.mpegurl");
}

#[test]
fn upstream_cache_headers_are_kept() {
    let c = classify(
        None,
        "/index.m3u8",
        Some("no-cache".to_string()),
        Some("max-age=1".to_string()),
    );
    assert_eq!(c.cache_control, "no-cache");
    assert_eq!(c.cdn_cache_control, "max-age=1");
}

#[test]
fn other_content_keeps_its_type() {
    let c = classify(Some("image/png".to_string()), "/a.png", None, None);
    assert_eq!(c.kind, Kind::Other);
    assert_eq!(c.content_type, "image/png");
    let c = classify(None, "/a", None, None);
    assert_eq!(c.kind, Kind::Other);
    assert_eq!(c.content_type, "text/plain");
}

#[test]
fn assembled_playlist_is_rewritten() {
    let c = classify(None, "/path/playlist.m3u8", None, None);
    let r = assemble(200, BASE, c, Body::Text("#EXTM3U\nseg1.ts\n".to_string()));
    let resp = r.ok().unwrap();
    assert_eq!(resp.status, 200);
    assert_eq!(resp.content_type, "application/vnd.apple.mpegurl");
    match resp.body {
        Body::Text(t) => {
            assert_eq!(t, "#EXTM3U\n/fetch?url=https%3A%2F%2Fhost%2Fpath%2Fseg1.ts")
        }
        Body::Bytes(_) => panic!("text became bytes"),
    }
}

#[test]
fn assembled_segment_keeps_status_and_bytes() {
    let c = classify(None, "/a/seg.ts", None, None);
    let resp = assemble(404, BASE, c, Body::Bytes(vec![0x47, 0, 255])).ok().unwrap();
    assert_eq!(resp.status, 404);
    assert_eq!(resp.content_type, "video/mp2t");
    match resp.body {
        Body::Bytes(b) => assert_eq!(b, vec![0x47, 0, 255]),
        Body::Text(_) => panic!("bytes became text"),
    }
}

#[test]
fn invalid_header_fails_assembly() {
    let c = classify(None, "/a.bin", Some("bad\u{7f}value".to_string()), None);
    match assemble(200, BASE, c, Body::Bytes(Vec::new())) {
        Err(e) => {
            assert!(matches!(e, ProxyError::AssemblyFailure));
            assert_eq!(e.status(), 500);
            assert_eq!(e.message(), "Body assembly failed");
        }
        Ok(_) => panic!("assembled an invalid header"),
    }
}

#[test]
fn upstream_failure_message() {
    let e = ProxyError::UpstreamFailure("timed out".to_string());
    assert_eq!(e.status(), 500);
    assert_eq!(e.message(), "Fetch failed: timed out");
}


#[test]
fn rewritten_lines_match_input_lines() {
    let input = "#EXTM3U\nsub/low.m3u8\n\n#EXT-X-KEY:URI=\"k\"\r\nhttp://a.test/x y.ts";
    let out = rewrite_manifest(BASE, input);
    let pieces: Vec<&str> = out.split('\n').collect();
    let lines: Vec<&str> = input.lines().collect();
    assert_eq!(pieces.len(), lines.len());
    for (p, l) in pieces.iter().zip(lines.iter()) {
        assert_eq!(*p, text(rewrite_line(BASE, &line(l))));
    }
    assert_eq!(pieces[1], "/fetch?url=https%3A%2F%2Fhost%2Fpath%2Fsub%2Flow.m3u8");
    assert_eq!(pieces[4], "/fetch?url=http%3A%2F%2Fa.test%2Fx%2520y.ts");
}

#[test]
fn proxied_value_has_no_bare_delimiters() {
    let out = rewrite_manifest(BASE, "../q?a=1&b=:#frag");
    let value = out.strip_prefix("/fetch?url=").unwrap();
    assert!(value
        .chars()
        .all(|c| c.is_ascii_alphanumeric() || "-._~%".contains(c)));
    assert_eq!(value, "https%3A%2F%2Fhost%2Fq%3Fa%3D1%26b%3D%3A%23frag");
}
