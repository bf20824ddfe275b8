//! Rewriting of HLS manifests so that every referenced resource is fetched
//! back through the proxy.
use vstd::prelude::*;
use vstd::slice::slice_subrange;
use vstd::utf8::encode_utf8;
use crate::text::{
    chars_of, find_from, has_prefix, is_whitespace, join_lines, lemma_split_pieces_nonempty,
    occurs_at, split_pieces, starts_with, string_of, strip_cr, text_lines, whitespace_char,
};
use crate::urls::{
    encode_byte, encode_query_value, hex_digit, is_unreserved, join_url, percent_encode, url_join,
};

verus! {

/// The start of an encryption-key directive.
pub open spec fn key_directive() -> Seq<char> {
    seq!['#', 'E', 'X', 'T', '-', 'X', '-', 'K', 'E', 'Y']
}

/// The attribute of a key directive that holds the key's location.
pub open spec fn uri_attribute() -> Seq<char> {
    seq!['U', 'R', 'I', '=', '"']
}

/// The path and query key under which the proxy takes its target.
pub open spec fn fetch_prefix() -> Seq<char> {
    seq!['/', 'f', 'e', 't', 'c', 'h', '?', 'u', 'r', 'l', '=']
}

/// A reference to `url` routed through the proxy.
pub open spec fn proxied(url: Seq<char>) -> Seq<char> {
    fetch_prefix() + percent_encode(encode_utf8(url))
}

/// The first index at or after `from` where `pat` occurs in `s`.
pub open spec fn first_occurrence(s: Seq<char>, pat: Seq<char>, from: int) -> Option<int>
    decreases s.len() + 1 - from,
{
    if from > s.len() {
        None
    } else if occurs_at(s, pat, from) {
        Some(from)
    } else {
        first_occurrence(s, pat, from + 1)
    }
}

/// A line holding nothing but white space.
pub open spec fn is_blank(line: Seq<char>) -> bool {
    forall|i: int| 0 <= i < line.len() ==> is_whitespace(line[i])
}

/// A comment or directive line.
pub open spec fn is_comment(line: Seq<char>) -> bool {
    line.len() > 0 && line[0] == '#'
}

/// Where the quoted value of a key directive's `URI` attribute starts and ends:
/// it runs to the next quote, or to the end of the line where none follows.
pub open spec fn key_uri_span(line: Seq<char>) -> Option<(int, int)> {
    match first_occurrence(line, uri_attribute(), 0) {
        Some(start) => {
            let value_start = start + uri_attribute().len();
            let value_end = match first_occurrence(line, seq!['"'], value_start) {
                Some(e) => e,
                None => line.len() as int,
            };
            Some((value_start, value_end))
        },
        None => None,
    }
}

/// A key directive with its `URI` value routed through the proxy, where it
/// has one that resolves against `base`.
pub open spec fn rewritten_key_line(base: Seq<char>, line: Seq<char>) -> Seq<char> {
    match key_uri_span(line) {
        Some((vs, ve)) => match url_join(base, line.subrange(vs, ve)) {
            Some(resolved) => line.subrange(0, vs) + proxied(resolved) + line.subrange(
                ve,
                line.len() as int,
            ),
            None => line,
        },
        None => line,
    }
}

/// One manifest line as the proxy serves it, for the manifest at `base`.
pub open spec fn rewritten_line(base: Seq<char>, line: Seq<char>) -> Seq<char> {
    if starts_with(line, key_directive()) {
        rewritten_key_line(base, line)
    } else if is_comment(line) || is_blank(line) {
        line
    } else {
        match url_join(base, line) {
            Some(resolved) => proxied(resolved),
            None => line,
        }
    }
}

proof fn lemma_first_occurrence(s: Seq<char>, pat: Seq<char>, from: int, i: int)
    requires
        from <= i,
        occurs_at(s, pat, i),
        forall|k: int| from <= k < i ==> !occurs_at(s, pat, k),
    ensures
        first_occurrence(s, pat, from) == Some(i),
    decreases i - from,
{
    if from < i {
        lemma_first_occurrence(s, pat, from + 1, i);
    }
}

proof fn lemma_no_occurrence(s: Seq<char>, pat: Seq<char>, from: int)
    requires
        forall|k: int| from <= k ==> !occurs_at(s, pat, k),
    ensures
        first_occurrence(s, pat, from) is None,
    decreases s.len() + 1 - from,
{
    if from <= s.len() {
        lemma_no_occurrence(s, pat, from + 1);
    }
}

proof fn lemma_first_occurrence_found(s: Seq<char>, pat: Seq<char>, from: int)
    requires
        first_occurrence(s, pat, from) is Some,
    ensures
        from <= first_occurrence(s, pat, from)->0,
        occurs_at(s, pat, first_occurrence(s, pat, from)->0),
    decreases s.len() + 1 - from,
{
    if from <= s.len() && !occurs_at(s, pat, from) {
        lemma_first_occurrence_found(s, pat, from + 1);
    }
}

/// The first occurrence of `pat` in `s` at or after `from`.
fn find_first(s: &Vec<char>, pat: &Vec<char>, from: usize) -> (r: Option<usize>)
    ensures
        match r {
            Some(i) => first_occurrence(s@, pat@, from as int) == Some(i as int) && from <= i
                && occurs_at(s@, pat@, i as int),
            None => first_occurrence(s@, pat@, from as int) is None,
        },
{
    let r = find_from(s, pat, from);
    proof {
        match r {
            Some(i) => lemma_first_occurrence(s@, pat@, from as int, i as int),
            None => lemma_no_occurrence(s@, pat@, from as int),
        }
    }
    r
}

/// The characters of `v` from `a` up to `b`.
fn copy_range(v: &Vec<char>, a: usize, b: usize) -> (r: Vec<char>)
    requires
        a <= b <= v.len(),
    ensures
        r@ == v@.subrange(a as int, b as int),
{
    let s = slice_subrange(v.as_slice(), a, b);
    let mut r: Vec<char> = Vec::new();
    r.extend_from_slice(s);
    r
}

/// Resolves `reference` against `base` and routes the result through the proxy.
fn proxied_reference(base: &str, reference: &Vec<char>) -> (r: Option<Vec<char>>)
    ensures
        match url_join(base@, reference@) {
            Some(resolved) => r matches Some(p) && p@ == proxied(resolved),
            None => r is None,
        },
{
    let target = string_of(reference);
    match join_url(base, target.as_str()) {
        Some(resolved) => {
            let encoded = encode_query_value(resolved.as_str());
            let mut out: Vec<char> = vec!['/', 'f', 'e', 't', 'c', 'h', '?', 'u', 'r', 'l', '='];
            let tail = chars_of(encoded.as_str());
            out.extend_from_slice(tail.as_slice());
            Some(out)
        },
        None => None,
    }
}

/// Whether every character of `line` is white space.
fn blank(line: &Vec<char>) -> (r: bool)
    ensures
        r == is_blank(line@),
{
    let mut i: usize = 0;
    while i < line.len()
        invariant
            i <= line.len(),
            forall|k: int| 0 <= k < i ==> is_whitespace(line@[k]),
        decreases line.len() - i,
    {
        if !whitespace_char(line[i]) {
            return false;
        }
        i = i + 1;
    }
    true
}

/// Routes the `URI` value of a key directive through the proxy.
fn rewrite_key_line(base: &str, line: &Vec<char>) -> (r: Vec<char>)
    ensures
        r@ == rewritten_key_line(base@, line@),
{
    let attr: Vec<char> = vec!['U', 'R', 'I', '=', '"'];
    assert(attr@ == uri_attribute());
    match find_first(line, &attr, 0) {
        Some(start) => {
            assert(occurs_at(line@, attr@, start as int));
            assert(attr@.len() == 5);
            assert(start + 5 <= line.len());
            let vs = start + 5;
            let quote: Vec<char> = vec!['"'];
            assert(quote@ == seq!['"']);
            let ve = match find_first(line, &quote, vs) {
                Some(e) => {
                    assert(occurs_at(line@, quote@, e as int));
                    e
                },
                None => line.len(),
            };
            let uri = copy_range(line, vs, ve);
            match proxied_reference(base, &uri) {
                Some(p) => {
                    let mut out = copy_range(line, 0, vs);
                    out.extend_from_slice(p.as_slice());
                    let rest = copy_range(line, ve, line.len());
                    out.extend_from_slice(rest.as_slice());
                    out
                },
                None => line.clone(),
            }
        },
        None => line.clone(),
    }
}

/// Rewrites one manifest line: a key directive gets its `URI` value routed
/// through the proxy, a resource reference is replaced by its routed form,
/// and blank, comment and unresolvable lines stay as they are.
pub fn rewrite_line(base: &str, line: &Vec<char>) -> (r: Vec<char>)
    ensures
        r@ == rewritten_line(base@, line@),
{
    let key: Vec<char> = vec!['#', 'E', 'X', 'T', '-', 'X', '-', 'K', 'E', 'Y'];
    assert(key@ == key_directive());
    if has_prefix(line, &key) {
        rewrite_key_line(base, line)
    } else if (line.len() > 0 && line[0] == '#') || blank(line) {
        line.clone()
    } else {
        match proxied_reference(base, line) {
            Some(p) => p,
            None => line.clone(),
        }
    }
}

/// A manifest as the proxy serves it: each line rewritten, in order, joined
/// with newlines.
pub open spec fn rewritten_manifest(base: Seq<char>, text: Seq<char>) -> Seq<char> {
    join_lines(text_lines(text).map_values(|l: Seq<char>| rewritten_line(base, l)))
}

/// Appends a line to text that holds `count` lines already.
fn push_line(out: &mut Vec<char>, count: usize, line: &Vec<char>)
    ensures
        count == 0 ==> final(out)@ == old(out)@ + line@,
        count > 0 ==> final(out)@ == old(out)@ + seq!['\n'] + line@,
{
    if count > 0 {
        out.push('\n');
    }
    out.extend_from_slice(line.as_slice());
}

/// Rewrites a manifest fetched from `base` line by line, so that every
/// resource it references is fetched through the proxy.
pub fn rewrite_manifest(base: &str, text: &str) -> (r: String)
    ensures
        r@ == rewritten_manifest(base@, text@),
{
    let chars = chars_of(text);
    let ghost f = |l: Seq<char>| rewritten_line(base@, strip_cr(l));
    let ghost g = |l: Seq<char>| rewritten_line(base@, l);
    let ghost mut done: Seq<Seq<char>> = Seq::empty();
    let mut cur: Vec<char> = Vec::new();
    let mut out: Vec<char> = Vec::new();
    let mut count: usize = 0;
    let mut i: usize = 0;
    while i < chars.len()
        invariant
            i <= chars.len(),
            count == done.len(),
            count <= i,
            f == (|l: Seq<char>| rewritten_line(base@, strip_cr(l))),
            split_pieces(chars@.take(i as int)) == done.push(cur@),
            out@ == join_lines(done.map_values(f)),
        decreases chars.len() - i,
    {
        let c = chars[i];
        proof {
            assert(chars@.take(i + 1).drop_last() =~= chars@.take(i as int));
            assert(chars@.take(i + 1).last() == c);
            lemma_split_pieces_nonempty(chars@.take(i as int));
        }
        if c == '\n' {
            let line = if cur.len() > 0 && cur[cur.len() - 1] == '\r' {
                copy_range(&cur, 0, cur.len() - 1)
            } else {
                cur.clone()
            };
            assert(line@ == strip_cr(cur@));
            let rewritten = rewrite_line(base, &line);
            push_line(&mut out, count, &rewritten);
            proof {
                let old_done = done;
                done = done.push(cur@);
                assert(done.map_values(f) =~= old_done.map_values(f).push(f(cur@)));
                assert(done.map_values(f).drop_last() =~= old_done.map_values(f));
                assert(f(cur@) == rewritten@);
            }
            cur = Vec::new();
            count = count + 1;
            proof {
                assert(split_pieces(chars@.take(i + 1)) =~= done.push(cur@));
            }
        } else {
            cur.push(c);
            proof {
                assert(split_pieces(chars@.take(i + 1)) =~= done.push(cur@));
            }
        }
        i = i + 1;
    }
    assert(chars@.take(i as int) =~= text@);
    let ghost lines = text_lines(text@);
    assert(Seq::new(done.len(), |k: int| strip_cr(split_pieces(text@)[k])).map_values(g)
        =~= done.map_values(f));
    if cur.len() > 0 {
        let rewritten = rewrite_line(base, &cur);
        push_line(&mut out, count, &rewritten);
        proof {
            assert(lines.map_values(g) =~= done.map_values(f).push(g(cur@)));
            assert(lines.map_values(g).drop_last() =~= done.map_values(f));
        }
    } else {
        assert(lines.map_values(g) =~= done.map_values(f));
    }
    string_of(&out)
}

/// A line that starts with `#` and is no key directive is served exactly as
/// it came, whatever the base.
pub proof fn lemma_directive_lines_kept(base: Seq<char>, line: Seq<char>)
    requires
        is_comment(line),
        !starts_with(line, key_directive()),
    ensures
        rewritten_line(base, line) == line,
{
}

/// A character that may stand in a query value as it is: an ASCII letter or
/// digit, `-`, `.`, `_`, `~`, or the `%` of an escape.
pub open spec fn query_safe(c: char) -> bool {
    ('0' <= c <= '9') || ('A' <= c <= 'Z') || ('a' <= c <= 'z') || c == '-' || c == '.' || c
        == '_' || c == '~' || c == '%'
}

proof fn lemma_encoded_chars_safe(bytes: Seq<u8>)
    ensures
        forall|i: int|
            0 <= i < percent_encode(bytes).len() ==> query_safe(#[trigger] percent_encode(bytes)[i]),
    decreases bytes.len(),
{
    if bytes.len() > 0 {
        lemma_encoded_chars_safe(bytes.drop_last());
        let b = bytes.last();
        let e = encode_byte(b);
        assert forall|i: int| 0 <= i < e.len() implies query_safe(#[trigger] e[i]) by {
            if !is_unreserved(b) && i > 0 {
                let d: u8 = if i == 1 { b / 16 } else { b % 16 };
                assert(d < 16);
                assert(e[i] == hex_digit(d));
            }
        }
        let p = percent_encode(bytes.drop_last());
        assert(percent_encode(bytes) == p + e);
        assert forall|i: int|
            0 <= i < percent_encode(bytes).len() implies query_safe(
            #[trigger] percent_encode(bytes)[i],
        ) by {
            if i < p.len() {
                assert(percent_encode(bytes)[i] == p[i]);
            } else {
                assert(percent_encode(bytes)[i] == e[i - p.len()]);
            }
        }
    }
}

/// Every proxied reference is the fetch path followed by the target URL as
/// one query value, in which no `:`, `/`, `?`, `&`, `=`, `#` or white space
/// stands unescaped.
pub proof fn lemma_proxied_is_one_query_value(url: Seq<char>)
    ensures
        proxied(url).subrange(0, fetch_prefix().len() as int) == fetch_prefix(),
        forall|i: int|
            fetch_prefix().len() <= i < proxied(url).len() ==> query_safe(#[trigger] proxied(url)[i]),
{
    let v = percent_encode(encode_utf8(url));
    lemma_encoded_chars_safe(encode_utf8(url));
    assert(proxied(url).subrange(0, fetch_prefix().len() as int) =~= fetch_prefix());
    assert forall|i: int|
        fetch_prefix().len() <= i < proxied(url).len() implies query_safe(
        #[trigger] proxied(url)[i],
    ) by {
        assert(proxied(url)[i] == v[i - fetch_prefix().len()]);
    }
}

/// No newline stands in `s`.
pub open spec fn single_line(s: Seq<char>) -> bool {
    forall|i: int| 0 <= i < s.len() ==> s[i] != '\n'
}

proof fn lemma_pieces_single_line(s: Seq<char>)
    ensures
        forall|k: int| 0 <= k < split_pieces(s).len() ==> single_line(#[trigger] split_pieces(s)[k]),
    decreases s.len(),
{
    if s.len() > 0 {
        lemma_pieces_single_line(s.drop_last());
        lemma_split_pieces_nonempty(s.drop_last());
    }
}

proof fn lemma_split_single(s: Seq<char>)
    requires
        single_line(s),
    ensures
        split_pieces(s) == seq![s],
    decreases s.len(),
{
    if s.len() > 0 {
        lemma_split_single(s.drop_last());
        assert(s[s.len() - 1] != '\n');
        assert(s.drop_last().push(s.last()) =~= s);
        assert(seq![s.drop_last()].update(0, s) =~= seq![s]);
    } else {
        assert(s =~= Seq::<char>::empty());
    }
}

proof fn lemma_split_after_newline(x: Seq<char>, y: Seq<char>)
    requires
        single_line(y),
    ensures
        split_pieces(x + seq!['\n'] + y) == split_pieces(x).push(y),
    decreases y.len(),
{
    let s = x + seq!['\n'] + y;
    if y.len() == 0 {
        assert(y =~= Seq::<char>::empty());
        assert(s.drop_last() =~= x);
        assert(s.last() == '\n');
    } else {
        lemma_split_after_newline(x, y.drop_last());
        assert(s.drop_last() =~= x + seq!['\n'] + y.drop_last());
        assert(y[y.len() - 1] != '\n');
        assert(s.last() == y.last());
        assert(y.drop_last().push(y.last()) =~= y);
        lemma_split_pieces_nonempty(x);
        assert(split_pieces(x).push(y.drop_last()).update(
            split_pieces(x).len() as int,
            y,
        ) =~= split_pieces(x).push(y));
    }
}

proof fn lemma_split_join(ls: Seq<Seq<char>>)
    requires
        ls.len() >= 1,
        forall|k: int| 0 <= k < ls.len() ==> single_line(#[trigger] ls[k]),
    ensures
        split_pieces(join_lines(ls)) == ls,
    decreases ls.len(),
{
    if ls.len() == 1 {
        lemma_split_single(ls[0]);
        assert(seq![ls[0]] =~= ls);
    } else {
        let front = ls.drop_last();
        assert forall|k: int| 0 <= k < front.len() implies single_line(#[trigger] front[k]) by {
            assert(front[k] == ls[k]);
        }
        lemma_split_join(front);
        lemma_split_after_newline(join_lines(front), ls.last());
        assert(front.push(ls.last()) =~= ls);
    }
}

proof fn lemma_rewritten_single_line(base: Seq<char>, line: Seq<char>)
    requires
        single_line(line),
    ensures
        single_line(rewritten_line(base, line)),
{
    let prefix = fetch_prefix();
    assert forall|url: Seq<char>| #[trigger] single_line(proxied(url)) by {
        lemma_proxied_is_one_query_value(url);
        assert forall|i: int| 0 <= i < proxied(url).len() implies proxied(url)[i] != '\n' by {
            if i < prefix.len() {
                assert(proxied(url)[i] == proxied(url).subrange(0, prefix.len() as int)[i]);
            } else {
                assert(query_safe(proxied(url)[i]));
            }
        }
    }
    if starts_with(line, key_directive()) {
        if let Some(start) = first_occurrence(line, uri_attribute(), 0) {
            lemma_first_occurrence_found(line, uri_attribute(), 0);
            let vs = start + uri_attribute().len();
            let ve = match first_occurrence(line, seq!['"'], vs) {
                Some(e) => e,
                None => line.len() as int,
            };
            if first_occurrence(line, seq!['"'], vs) is Some {
                lemma_first_occurrence_found(line, seq!['"'], vs);
            }
            if let Some(resolved) = url_join(base, line.subrange(vs, ve)) {
                let out = line.subrange(0, vs) + proxied(resolved) + line.subrange(
                    ve,
                    line.len() as int,
                );
                let p = proxied(resolved);
                assert(single_line(p));
                assert(0 <= vs <= ve <= line.len());
                assert forall|i: int| 0 <= i < out.len() implies out[i] != '\n' by {
                    if i < vs {
                        assert(out[i] == line[i]);
                    } else if i < vs + p.len() {
                        assert(out[i] == p[i - vs]);
                    } else {
                        assert(out[i] == line[i - vs - p.len() + ve]);
                    }
                }
            }
        }
    }
}

/// Rewriting keeps a manifest's line structure: cut at its newlines, the
/// served manifest is the input's lines, one for one and in order, each
/// rewritten.
pub proof fn lemma_rewrite_keeps_lines(base: Seq<char>, text: Seq<char>)
    requires
        text_lines(text).len() >= 1,
    ensures
        split_pieces(rewritten_manifest(base, text)) == text_lines(text).map_values(
            |l: Seq<char>| rewritten_line(base, l),
        ),
{
    let ls = text_lines(text);
    let out = ls.map_values(|l: Seq<char>| rewritten_line(base, l));
    let p = split_pieces(text);
    lemma_pieces_single_line(text);
    lemma_split_pieces_nonempty(text);
    assert forall|k: int| 0 <= k < ls.len() implies single_line(#[trigger] ls[k]) by {
        if k < p.len() - 1 {
            assert(single_line(p[k]));
            assert(ls[k] == strip_cr(p[k]));
            if p[k].len() > 0 && p[k].last() == '\r' {
                assert forall|i: int| 0 <= i < ls[k].len() implies ls[k][i] != '\n' by {
                    assert(ls[k][i] == p[k][i]);
                }
            }
        } else {
            assert(ls[k] == p[p.len() - 1]);
        }
    }
    assert forall|k: int| 0 <= k < out.len() implies single_line(#[trigger] out[k]) by {
        lemma_rewritten_single_line(base, ls[k]);
    }
    lemma_split_join(out);
}

} // verus!
