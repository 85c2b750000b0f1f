//! Receiver URLs: the base URL as the user typed it, the API endpoints, and
//! the stream address inside an M3U playlist.
use crate::text::{
    chars_of, copy_range, is_ws, lines, split_lines, starts_with, string_from_range, trim,
    trim_bounds, trim_end, trim_end_char, trim_start,
};
use vstd::prelude::*;

verus! {

/// The base URL: white space trimmed, then every trailing `/` dropped.
pub open spec fn normalized_base(s: Seq<char>) -> Seq<char> {
    trim_end_char(trim(s), '/')
}

/// The URL (trimmed) begins with `http://` or `https://`.
pub open spec fn supported_scheme(s: Seq<char>) -> bool {
    starts_with(trim(s), seq!['h', 't', 't', 'p', ':', '/', '/']) || starts_with(
        trim(s),
        seq!['h', 't', 't', 'p', 's', ':', '/', '/'],
    )
}

/// A byte that `application/x-www-form-urlencoded` keeps as it is.
pub open spec fn form_unreserved(b: u8) -> bool {
    b == 0x2A || b == 0x2D || b == 0x2E || (0x30 <= b <= 0x39) || (0x41 <= b <= 0x5A) || b
        == 0x5F || (0x61 <= b <= 0x7A)
}

/// Upper-case hexadecimal digit of `n < 16`.
pub open spec fn hex_upper(n: int) -> char {
    if n < 10 {
        (n + 0x30) as char
    } else {
        (n - 10 + 0x41) as char
    }
}

/// The form encoding of one byte: itself, `+` for a space, else `%XX`.
pub open spec fn form_encode_byte(b: u8) -> Seq<char> {
    if form_unreserved(b) {
        seq![b as char]
    } else if b == 0x20 {
        seq!['+']
    } else {
        seq!['%', hex_upper(b as int / 16), hex_upper(b as int % 16)]
    }
}

/// The form encoding of a byte sequence.
pub open spec fn form_encode(bytes: Seq<u8>) -> Seq<char>
    decreases bytes.len(),
{
    if bytes.len() == 0 {
        seq![]
    } else {
        form_encode_byte(bytes[0]) + form_encode(bytes.drop_first())
    }
}

/// `value` as a query value: its UTF-8 bytes form-encoded.
pub open spec fn query_value(value: Seq<char>) -> Seq<char> {
    form_encode(vstd::utf8::encode_utf8(value))
}

/// The first line of a playlist that, trimmed, is neither empty nor a
/// `#` comment.
pub open spec fn first_playable(ls: Seq<Seq<char>>) -> Option<Seq<char>>
    decreases ls.len(),
{
    if ls.len() == 0 {
        None
    } else if trim(ls[0]).len() > 0 && trim(ls[0])[0] != '#' {
        Some(trim(ls[0]))
    } else {
        first_playable(ls.drop_first())
    }
}

/// The base URL with white space and trailing slashes removed; no scheme
/// is added.
pub fn normalize_base_url(value: &str) -> (r: String)
    ensures
        r@ == normalized_base(value@),
{
    let v = chars_of(value);
    let (a, b) = trim_bounds(v.as_slice(), 0, v.len());
    assert(v@.subrange(0, v@.len() as int) =~= v@);
    let mut j = b;
    while j > a && v[j - 1] == '/'
        invariant
            a <= j <= b <= v.len(),
            trim_end_char(trim(v@), '/') == trim_end_char(v@.subrange(a as int, j as int), '/'),
        decreases j,
    {
        assert(v@.subrange(a as int, j as int).drop_last() =~= v@.subrange(a as int, j - 1));
        j = j - 1;
    }
    string_from_range(v.as_slice(), a, j)
}

/// The URL, trimmed, starts with `http://` or `https://`.
pub fn has_supported_url_scheme(value: &str) -> (r: bool)
    ensures
        r == supported_scheme(value@),
{
    let v = chars_of(value);
    let (a, b) = trim_bounds(v.as_slice(), 0, v.len());
    assert(v@.subrange(0, v@.len() as int) =~= v@);
    let t = copy_range(v.as_slice(), a, b);
    let http = t.len() >= 7 && t[0] == 'h' && t[1] == 't' && t[2] == 't' && t[3] == 'p' && t[4]
        == ':' && t[5] == '/' && t[6] == '/';
    let https = t.len() >= 8 && t[0] == 'h' && t[1] == 't' && t[2] == 't' && t[3] == 'p' && t[4]
        == 's' && t[5] == ':' && t[6] == '/' && t[7] == '/';
    assert(http == starts_with(t@, seq!['h', 't', 't', 'p', ':', '/', '/'])) by {
        if t.len() >= 7 {
            assert(http ==> t@.take(7) =~= seq!['h', 't', 't', 'p', ':', '/', '/']);
            if t@.take(7) == seq!['h', 't', 't', 'p', ':', '/', '/'] {
                assert(t@.take(7)[0] == t@[0] && t@.take(7)[1] == t@[1] && t@.take(7)[2] == t@[2]
                    && t@.take(7)[3] == t@[3] && t@.take(7)[4] == t@[4] && t@.take(7)[5] == t@[5]
                    && t@.take(7)[6] == t@[6]);
            }
        }
    }
    assert(https == starts_with(t@, seq!['h', 't', 't', 'p', 's', ':', '/', '/'])) by {
        if t.len() >= 8 {
            assert(https ==> t@.take(8) =~= seq!['h', 't', 't', 'p', 's', ':', '/', '/']);
            if t@.take(8) == seq!['h', 't', 't', 'p', 's', ':', '/', '/'] {
                assert(t@.take(8)[0] == t@[0] && t@.take(8)[1] == t@[1] && t@.take(8)[2] == t@[2]
                    && t@.take(8)[3] == t@[3] && t@.take(8)[4] == t@[4] && t@.take(8)[5] == t@[5]
                    && t@.take(8)[6] == t@[6] && t@.take(8)[7] == t@[7]);
            }
        }
    }
    http || https
}

/// Form-encodes a query value (`url::form_urlencoded::byte_serialize` over
/// the UTF-8 bytes): ASCII letters, digits and `*-._` stay, a space becomes
/// `+`, every other byte becomes `%XX` with upper-case hex digits.
#[verifier::external_body]
pub fn encode_query_value(value: &str) -> (r: String)
    ensures
        r@ == query_value(value@),
{
    url::form_urlencoded::byte_serialize(value.as_bytes()).collect()
}

/// The normalized base URL followed by `path`.
fn endpoint(base_url: &str, path: &str) -> (r: String)
    ensures
        r@ == normalized_base(base_url@) + path@,
{
    let mut r = normalize_base_url(base_url);
    r.append(path);
    r
}

/// `{base}/api/getallservices`.
pub fn services_url(base_url: &str) -> (r: String)
    ensures
        r@ == normalized_base(base_url@) + "/api/getallservices"@,
{
    endpoint(base_url, "/api/getallservices")
}

/// `{base}/api/epgnow?bRef={bouquet_ref}`, the reference form-encoded.
pub fn epg_now_url(base_url: &str, bouquet_ref: &str) -> (r: String)
    ensures
        r@ == normalized_base(base_url@) + "/api/epgnow?bRef="@ + query_value(bouquet_ref@),
{
    let mut r = endpoint(base_url, "/api/epgnow?bRef=");
    let q = encode_query_value(bouquet_ref);
    r.append(q.as_str());
    r
}

/// `{base}/api/epgservice?sRef={service_ref}`, the reference form-encoded.
pub fn epg_service_url(base_url: &str, service_ref: &str) -> (r: String)
    ensures
        r@ == normalized_base(base_url@) + "/api/epgservice?sRef="@ + query_value(service_ref@),
{
    let mut r = endpoint(base_url, "/api/epgservice?sRef=");
    let q = encode_query_value(service_ref);
    r.append(q.as_str());
    r
}

/// `{base}/web/stream.m3u?ref={service_ref}`, the reference form-encoded.
pub fn stream_m3u_url(base_url: &str, service_ref: &str) -> (r: String)
    ensures
        r@ == normalized_base(base_url@) + "/web/stream.m3u?ref="@ + query_value(service_ref@),
{
    let mut r = endpoint(base_url, "/web/stream.m3u?ref=");
    let q = encode_query_value(service_ref);
    r.append(q.as_str());
    r
}

/// The first playlist line that, trimmed, is not empty and not a comment.
pub fn extract_stream_url(m3u: &str) -> (r: Option<String>)
    ensures
        match r {
            Some(u) => first_playable(lines(m3u@)) == Some(u@),
            None => first_playable(lines(m3u@)) is None,
        },
{
    let v = chars_of(m3u);
    let ls = split_lines(v.as_slice());
    let ghost lv = ls@.map_values(|l: Vec<char>| l@);
    let mut i: usize = 0;
    assert(lv.skip(0) =~= lv);
    while i < ls.len()
        invariant
            i <= ls.len(),
            lv == ls@.map_values(|l: Vec<char>| l@),
            lv == lines(v@),
            v@ == m3u@,
            first_playable(lv) == first_playable(lv.skip(i as int)),
        decreases ls.len() - i,
    {
        let line = &ls[i];
        let (a, b) = trim_bounds(line.as_slice(), 0, line.len());
        assert(line@.subrange(0, line@.len() as int) =~= line@);
        assert(lv.skip(i as int)[0] == line@);
        assert(trim(line@) == line@.subrange(a as int, b as int));
        if b > a && line[a] != '#' {
            assert(trim(line@)[0] == line@[a as int]);
            let ghost rest = lv.skip(i as int);
            assert(rest.len() > 0 && trim(rest[0]).len() > 0 && trim(rest[0])[0] != '#');
            assert(first_playable(rest) == Some(trim(rest[0])));
            let u = string_from_range(line.as_slice(), a, b);
            assert(u@ == trim(rest[0]));
            assert(first_playable(lines(m3u@)) == Some(u@));
            return Some(u);
        }
        assert(lv.skip(i as int).drop_first() =~= lv.skip(i + 1));
        i = i + 1;
    }
    None
}

/// A normalized URL neither begins with white space nor ends with a slash.
pub proof fn normalized_base_is_clean(s: Seq<char>)
    ensures
        normalized_base(s).len() == 0 || (normalized_base(s).last() != '/' && !is_ws(
            normalized_base(s)[0],
        )),
{
    lemma_trim_end_char(trim(s), '/');
    lemma_trim_start_clean(s);
    lemma_trim_end_prefix(trim_start(s));
    let n = normalized_base(s);
    if n.len() > 0 {
        assert(n[0] == trim(s)[0]);
        assert(trim(s)[0] == trim_start(s)[0]);
    }
}

proof fn lemma_trim_start_clean(s: Seq<char>)
    ensures
        trim_start(s).len() == 0 || !is_ws(trim_start(s)[0]),
    decreases s.len(),
{
    if s.len() > 0 && is_ws(s[0]) {
        lemma_trim_start_clean(s.drop_first());
    }
}

proof fn lemma_trim_end_prefix(s: Seq<char>)
    ensures
        trim_end(s) == s.take(trim_end(s).len() as int),
        trim_end(s).len() <= s.len(),
    decreases s.len(),
{
    if s.len() > 0 && is_ws(s.last()) {
        lemma_trim_end_prefix(s.drop_last());
        assert(s.drop_last().take(trim_end(s).len() as int) =~= s.take(trim_end(s).len() as int));
    } else {
        assert(s.take(s.len() as int) =~= s);
    }
}

proof fn lemma_trim_end_char(s: Seq<char>, c: char)
    ensures
        trim_end_char(s, c).len() == 0 || trim_end_char(s, c).last() != c,
        trim_end_char(s, c) == s.take(trim_end_char(s, c).len() as int),
        trim_end_char(s, c).len() <= s.len(),
    decreases s.len(),
{
    if s.len() > 0 && s.last() == c {
        lemma_trim_end_char(s.drop_last(), c);
        assert(s.drop_last().take(trim_end_char(s, c).len() as int) =~= s.take(
            trim_end_char(s, c).len() as int,
        ));
    } else {
        assert(s.take(s.len() as int) =~= s);
    }
}

/// The stream address found in a playlist is never blank and never a
/// comment line.
pub proof fn playable_line_is_not_comment(ls: Seq<Seq<char>>)
    ensures
        first_playable(ls) matches Some(u) ==> u.len() > 0 && u[0] != '#',
    decreases ls.len(),
{
    if ls.len() > 0 {
        playable_line_is_not_comment(ls.drop_first());
    }
}

} // verus!
