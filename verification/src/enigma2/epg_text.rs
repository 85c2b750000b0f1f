//! EPG text as the receiver sends it: escaped line breaks, HTML entities and
//! ragged white space, turned into display text.
use crate::num::{parse_u32_radix, parse_u32_radix_range};
use crate::text::{
    append_chars, chars_eq, chars_of, copy_range, find_char, find_char_from, has_char, is_ws, join,
    join_with, lemma_find_char, lines, replace_all, replace_all_chars, split_lines, starts_with,
    string_from, strip_cr, trim, trim_bounds, trim_end, trim_end_each, trim_start,
};
use vstd::prelude::*;

verus! {

/// Number of bytes of the UTF-8 encoding of `c`.
pub open spec fn utf8_len(c: char) -> int {
    let u = c as u32;
    if u < 0x80 {
        1
    } else if u < 0x800 {
        2
    } else if u < 0x10000 {
        3
    } else {
        4
    }
}

/// Scans an entity name in `t` from index `j`, `b` bytes collected so far.
/// Returns `(n, terminated)`: the name is `t.take(n)`; when `terminated`,
/// `t[n]` is the closing `';'`. A name is given up once it holds more than
/// 12 bytes, or when `t` ends.
pub open spec fn scan_entity(t: Seq<char>, j: int, b: int) -> (int, bool)
    decreases t.len() - j,
{
    if j >= t.len() || j < 0 {
        (t.len() as int, false)
    } else if t[j] == ';' {
        (j, true)
    } else if b + utf8_len(t[j]) > 12 {
        (j + 1, false)
    } else {
        scan_entity(t, j + 1, b + utf8_len(t[j]))
    }
}

pub proof fn lemma_scan_entity(t: Seq<char>, j: int, b: int)
    requires
        0 <= j <= t.len(),
    ensures
        j <= scan_entity(t, j, b).0 <= t.len(),
        scan_entity(t, j, b).1 ==> scan_entity(t, j, b).0 < t.len() && t[scan_entity(t, j, b).0]
            == ';',
    decreases t.len() - j,
{
    if j < t.len() && t[j] != ';' && b + utf8_len(t[j]) <= 12 {
        lemma_scan_entity(t, j + 1, b + utf8_len(t[j]));
    }
}

/// The character a named entity stands for.
pub open spec fn named_entity(e: Seq<char>) -> Option<char> {
    if e == seq!['a', 'm', 'p'] {
        Some('&')
    } else if e == seq!['a', 'p', 'o', 's'] {
        Some('\'')
    } else if e == seq!['a', 'u', 'm', 'l'] {
        Some('\u{00e4}')
    } else if e == seq!['A', 'u', 'm', 'l'] {
        Some('\u{00c4}')
    } else if e == seq!['g', 't'] {
        Some('>')
    } else if e == seq!['l', 't'] {
        Some('<')
    } else if e == seq!['n', 'b', 's', 'p'] {
        Some(' ')
    } else if e == seq!['o', 'u', 'm', 'l'] {
        Some('\u{00f6}')
    } else if e == seq!['O', 'u', 'm', 'l'] {
        Some('\u{00d6}')
    } else if e == seq!['q', 'u', 'o', 't'] {
        Some('"')
    } else if e == seq!['s', 'z', 'l', 'i', 'g'] {
        Some('\u{00df}')
    } else if e == seq!['u', 'u', 'm', 'l'] {
        Some('\u{00fc}')
    } else if e == seq!['U', 'u', 'm', 'l'] {
        Some('\u{00dc}')
    } else {
        None
    }
}

/// `char::from_u32(v)`.
pub open spec fn scalar_char(v: u32) -> Option<char> {
    if vstd::utf8::is_scalar(v) {
        Some(v as char)
    } else {
        None
    }
}

/// The character an entity name (what stands between `&` and `;`) decodes
/// to: a known name, `#x`/`#X` and hexadecimal digits, or `#` and decimal
/// digits.
pub open spec fn entity_char(e: Seq<char>) -> Option<char> {
    if named_entity(e) is Some {
        named_entity(e)
    } else if e.len() >= 2 && e[0] == '#' && (e[1] == 'x' || e[1] == 'X') {
        match parse_u32_radix(e.skip(2), 16) {
            Some(v) => scalar_char(v),
            None => None,
        }
    } else if e.len() >= 1 && e[0] == '#' {
        match parse_u32_radix(e.skip(1), 10) {
            Some(v) => scalar_char(v),
            None => None,
        }
    } else {
        None
    }
}

/// `s` with HTML entities decoded. An entity that is unknown, or not closed
/// by `;` within 12 bytes, is kept as written.
pub open spec fn decode_entities(s: Seq<char>) -> Seq<char>
    decreases s.len(),
{
    if s.len() == 0 {
        seq![]
    } else if s[0] != '&' {
        seq![s[0]] + decode_entities(s.drop_first())
    } else {
        let t = s.drop_first();
        let (n, term) = scan_entity(t, 0, 0);
        proof {
            lemma_scan_entity(t, 0, 0);
        }
        let ent = t.take(n);
        let consumed = if term {
            n + 1
        } else {
            n
        };
        let piece = if term && entity_char(ent) is Some {
            seq![entity_char(ent).unwrap()]
        } else if term {
            seq!['&'] + ent + seq![';']
        } else {
            seq!['&'] + ent
        };
        piece + decode_entities(t.skip(consumed))
    }
}

/// Decoding changes only what follows a `&`: text without one stays as it
/// is.
pub proof fn decoding_without_ampersand_changes_nothing(s: Seq<char>)
    requires
        !has_char(s, '&'),
    ensures
        decode_entities(s) == s,
    decreases s.len(),
{
    if s.len() > 0 {
        assert(s[0] != '&');
        let rest = s.drop_first();
        assert(!has_char(rest, '&')) by {
            if has_char(rest, '&') {
                let k = choose|k: int| 0 <= k < rest.len() && rest[k] == '&';
                assert(s[k + 1] == '&');
            }
        }
        decoding_without_ampersand_changes_nothing(rest);
        assert(seq![s[0]] + rest =~= s);
    }
}

/// Escaped line breaks (`\r\n`, `\n`, `\r` written with a backslash) replaced
/// by real line breaks, in that order.
pub open spec fn unescape_newlines(s: Seq<char>) -> Seq<char> {
    replace_all(
        replace_all(
            replace_all(s, seq!['\\', 'r', '\\', 'n'], seq!['\n']),
            seq!['\\', 'n'],
            seq!['\n'],
        ),
        seq!['\\', 'r'],
        seq!['\n'],
    )
}

/// EPG display text: line breaks unescaped, entities decoded, trailing white
/// space of each line dropped, and the whole trimmed.
pub open spec fn normalized_text(s: Seq<char>) -> Seq<char> {
    trim(
        join(
            lines(decode_entities(unescape_newlines(s))).map_values(|l: Seq<char>| trim_end(l)),
            seq!['\n'],
        ),
    )
}

/// `text` without a first line that repeats the (trimmed) title.
pub open spec fn without_title_line(text: Seq<char>, title: Seq<char>) -> Seq<char> {
    let t = trim(title);
    let k = find_char(text, '\n');
    if t.len() > 0 && text.take(k) == t {
        if k < text.len() {
            trim(text.skip(k + 1))
        } else {
            seq![]
        }
    } else {
        text
    }
}

/// The description shown for an event: short and long text, each without a
/// repeated title line; one of them when the other is empty or both are the
/// same, else both with a blank line between.
pub open spec fn description_text(short: Seq<char>, long: Seq<char>, title: Seq<char>) -> Seq<
    char,
> {
    let s = without_title_line(normalized_text(short), title);
    let l = without_title_line(normalized_text(long), title);
    if s.len() == 0 && l.len() == 0 {
        seq![]
    } else if l.len() == 0 {
        s
    } else if s.len() == 0 {
        l
    } else if s == l {
        s
    } else {
        s + seq!['\n', '\n'] + l
    }
}

/// Converts a `u32` to the `char` it encodes (`char::from_u32`).
#[verifier::external_body]
fn char_from_u32(v: u32) -> (r: Option<char>)
    ensures
        r == scalar_char(v),
{
    char::from_u32(v)
}

fn utf8_len_of(c: char) -> (n: usize)
    ensures
        n as int == utf8_len(c),
{
    let u = c as u32;
    if u < 0x80 {
        1
    } else if u < 0x800 {
        2
    } else if u < 0x10000 {
        3
    } else {
        4
    }
}

/// Scans the entity name that starts at `v[start]`; returns the end of the
/// name and whether a `;` closes it.
fn scan_entity_at(v: &[char], start: usize) -> (r: (usize, bool))
    requires
        start <= v.len(),
    ensures
        start <= r.0 <= v.len(),
        (r.0 - start, r.1) == scan_entity(v@.subrange(start as int, v.len() as int), 0, 0),
        r.1 ==> r.0 < v.len() && v@[r.0 as int] == ';',
{
    let ghost t = v@.subrange(start as int, v.len() as int);
    let mut j = start;
    let mut b: usize = 0;
    while j < v.len()
        invariant
            start <= j <= v.len(),
            b <= 12,
            t == v@.subrange(start as int, v.len() as int),
            scan_entity(t, 0, 0) == scan_entity(t, j - start, b as int),
        decreases v.len() - j,
    {
        assert(t[j - start] == v@[j as int]);
        if v[j] == ';' {
            return (j, true);
        }
        let n = utf8_len_of(v[j]);
        if b + n > 12 {
            return (j + 1, false);
        }
        b = b + n;
        j = j + 1;
    }
    (v.len(), false)
}

fn range_is2(v: &[char], lo: usize, hi: usize, a: char, b: char) -> (r: bool)
    requires
        lo <= hi <= v.len(),
    ensures
        r == (v@.subrange(lo as int, hi as int) == seq![a, b]),
{
    let r = hi - lo == 2 && v[lo] == a && v[lo + 1] == b;
    let ghost w = seq![a, b];
    let ghost e = v@.subrange(lo as int, hi as int);
    assert(r == (e =~= w)) by {
        if hi - lo == 2 {
            assert(e[0] == v@[lo + 0] && w[0] == a);
            assert(e[1] == v@[lo + 1] && w[1] == b);
        }
    }
    r
}

fn range_is3(v: &[char], lo: usize, hi: usize, a: char, b: char, c: char) -> (r: bool)
    requires
        lo <= hi <= v.len(),
    ensures
        r == (v@.subrange(lo as int, hi as int) == seq![a, b, c]),
{
    let r = hi - lo == 3 && v[lo] == a && v[lo + 1] == b && v[lo + 2] == c;
    let ghost w = seq![a, b, c];
    let ghost e = v@.subrange(lo as int, hi as int);
    assert(r == (e =~= w)) by {
        if hi - lo == 3 {
            assert(e[0] == v@[lo + 0] && w[0] == a);
            assert(e[1] == v@[lo + 1] && w[1] == b);
            assert(e[2] == v@[lo + 2] && w[2] == c);
        }
    }
    r
}

fn range_is4(v: &[char], lo: usize, hi: usize, a: char, b: char, c: char, d: char) -> (r: bool)
    requires
        lo <= hi <= v.len(),
    ensures
        r == (v@.subrange(lo as int, hi as int) == seq![a, b, c, d]),
{
    let r = hi - lo == 4 && v[lo] == a && v[lo + 1] == b && v[lo + 2] == c && v[lo + 3] == d;
    let ghost w = seq![a, b, c, d];
    let ghost e = v@.subrange(lo as int, hi as int);
    assert(r == (e =~= w)) by {
        if hi - lo == 4 {
            assert(e[0] == v@[lo + 0] && w[0] == a);
            assert(e[1] == v@[lo + 1] && w[1] == b);
            assert(e[2] == v@[lo + 2] && w[2] == c);
            assert(e[3] == v@[lo + 3] && w[3] == d);
        }
    }
    r
}

fn range_is5(v: &[char], lo: usize, hi: usize, a: char, b: char, c: char, d: char, e: char) -> (r:
    bool)
    requires
        lo <= hi <= v.len(),
    ensures
        r == (v@.subrange(lo as int, hi as int) == seq![a, b, c, d, e]),
{
    let r = hi - lo == 5 && v[lo] == a && v[lo + 1] == b && v[lo + 2] == c && v[lo + 3] == d
        && v[lo + 4] == e;
    let ghost w = seq![a, b, c, d, e];
    let ghost x = v@.subrange(lo as int, hi as int);
    assert(r == (x =~= w)) by {
        if hi - lo == 5 {
            assert(x[0] == v@[lo + 0] && w[0] == a);
            assert(x[1] == v@[lo + 1] && w[1] == b);
            assert(x[2] == v@[lo + 2] && w[2] == c);
            assert(x[3] == v@[lo + 3] && w[3] == d);
            assert(x[4] == v@[lo + 4] && w[4] == e);
        }
    }
    r
}

fn named_entity_at(v: &[char], lo: usize, hi: usize) -> (r: Option<char>)
    requires
        lo <= hi <= v.len(),
    ensures
        r == named_entity(v@.subrange(lo as int, hi as int)),
{
    if range_is3(v, lo, hi, 'a', 'm', 'p') {
        Some('&')
    } else if range_is4(v, lo, hi, 'a', 'p', 'o', 's') {
        Some('\'')
    } else if range_is4(v, lo, hi, 'a', 'u', 'm', 'l') {
        Some('\u{00e4}')
    } else if range_is4(v, lo, hi, 'A', 'u', 'm', 'l') {
        Some('\u{00c4}')
    } else if range_is2(v, lo, hi, 'g', 't') {
        Some('>')
    } else if range_is2(v, lo, hi, 'l', 't') {
        Some('<')
    } else if range_is4(v, lo, hi, 'n', 'b', 's', 'p') {
        Some(' ')
    } else if range_is4(v, lo, hi, 'o', 'u', 'm', 'l') {
        Some('\u{00f6}')
    } else if range_is4(v, lo, hi, 'O', 'u', 'm', 'l') {
        Some('\u{00d6}')
    } else if range_is4(v, lo, hi, 'q', 'u', 'o', 't') {
        Some('"')
    } else if range_is5(v, lo, hi, 's', 'z', 'l', 'i', 'g') {
        Some('\u{00df}')
    } else if range_is4(v, lo, hi, 'u', 'u', 'm', 'l') {
        Some('\u{00fc}')
    } else if range_is4(v, lo, hi, 'U', 'u', 'm', 'l') {
        Some('\u{00dc}')
    } else {
        None
    }
}

/// The character that the entity name `v[lo..hi]` decodes to.
fn entity_char_at(v: &[char], lo: usize, hi: usize) -> (r: Option<char>)
    requires
        lo <= hi <= v.len(),
    ensures
        r == entity_char(v@.subrange(lo as int, hi as int)),
{
    let ghost e = v@.subrange(lo as int, hi as int);
    let named = named_entity_at(v, lo, hi);
    if named.is_some() {
        return named;
    }
    if hi - lo >= 2 && v[lo] == '#' && (v[lo + 1] == 'x' || v[lo + 1] == 'X') {
        assert(e[0] == v@[lo as int] && e[1] == v@[lo + 1]);
        assert(e.skip(2) =~= v@.subrange(lo + 2, hi as int));
        match parse_u32_radix_range(v, lo + 2, hi, 16) {
            Some(x) => char_from_u32(x),
            None => None,
        }
    } else if hi - lo >= 1 && v[lo] == '#' {
        assert(e[0] == v@[lo as int]);
        assert(hi - lo >= 2 ==> e[1] == v@[lo + 1]);
        assert(e.skip(1) =~= v@.subrange(lo + 1, hi as int));
        match parse_u32_radix_range(v, lo + 1, hi, 10) {
            Some(x) => char_from_u32(x),
            None => None,
        }
    } else {
        assert(hi - lo >= 1 ==> e[0] == v@[lo as int]);
        assert(hi - lo >= 2 ==> e[1] == v@[lo + 1]);
        None
    }
}

/// `decode_entities` over a slice of characters.
#[verifier::spinoff_prover]
#[verifier::rlimit(40)]
pub fn decode_entities_chars(v: &[char]) -> (r: Vec<char>)
    ensures
        r@ == decode_entities(v@),
{
    let mut out: Vec<char> = Vec::new();
    let mut i: usize = 0;
    assert(v@.subrange(0, v.len() as int) =~= v@);
    assert(out@ + decode_entities(v@) =~= decode_entities(v@));
    while i < v.len()
        invariant
            i <= v.len(),
            decode_entities(v@) == out@ + decode_entities(v@.subrange(i as int, v.len() as int)),
        decreases v.len() - i,
    {
        let ghost rest = v@.subrange(i as int, v.len() as int);
        let ghost old_out = out@;
        assert(rest[0] == v@[i as int]);
        if v[i] != '&' {
            out.push(v[i]);
            assert(rest.drop_first() =~= v@.subrange(i + 1, v.len() as int));
            assert(old_out + (seq![rest[0]] + decode_entities(rest.drop_first())) =~= out@
                + decode_entities(rest.drop_first()));
            i = i + 1;
        } else {
            let ghost t = rest.drop_first();
            assert(t =~= v@.subrange(i + 1, v.len() as int));
            let (end, term) = scan_entity_at(v, i + 1);
            let n = end - (i + 1);
            proof {
                lemma_scan_entity(t, 0, 0);
            }
            assert(t.take(n as int) =~= v@.subrange(i + 1, end as int));
            let decoded = if term {
                entity_char_at(v, i + 1, end)
            } else {
                None
            };
            match decoded {
                Some(c) => {
                    out.push(c);
                },
                None => {
                    out.push('&');
                    let mut k = i + 1;
                    while k < end
                        invariant
                            i + 1 <= k <= end <= v.len(),
                            out@ == old_out + seq!['&'] + v@.subrange(i + 1, k as int),
                        decreases end - k,
                    {
                        out.push(v[k]);
                        assert(v@.subrange(i + 1, k + 1) =~= v@.subrange(i + 1, k as int).push(
                            v@[k as int],
                        ));
                        assert(out@ =~= old_out + seq!['&'] + v@.subrange(i + 1, k + 1));
                        k = k + 1;
                    }
                    if term {
                        out.push(';');
                    }
                },
            }
            let next = if term {
                end + 1
            } else {
                end
            };
            let consumed = if term {
                n + 1
            } else {
                n
            };
            assert(t.skip(consumed as int) =~= v@.subrange(next as int, v.len() as int));
            let ghost piece = if term && entity_char(t.take(n as int)) is Some {
                seq![entity_char(t.take(n as int)).unwrap()]
            } else if term {
                seq!['&'] + t.take(n as int) + seq![';']
            } else {
                seq!['&'] + t.take(n as int)
            };
            assert(out@ =~= old_out + piece);
            assert(decode_entities(rest) == piece + decode_entities(t.skip(consumed as int)));
            assert(old_out + (piece + decode_entities(t.skip(consumed as int))) =~= out@
                + decode_entities(t.skip(consumed as int)));
            i = next;
        }
    }
    assert(decode_entities(v@.subrange(i as int, v.len() as int)) =~= Seq::<char>::empty());
    assert(out@ + Seq::<char>::empty() =~= out@);
    out
}

/// `value` with its HTML entities decoded; an unknown entity, or one not
/// closed by `;` within 12 bytes, stays as written.
pub fn decode_html_entities(value: &str) -> (r: String)
    ensures
        r@ == decode_entities(value@),
{
    let v = chars_of(value);
    let d = decode_entities_chars(v.as_slice());
    string_from(d.as_slice())
}

/// The character that an entity name (the text between `&` and `;`) stands
/// for, if it is known.
pub fn decode_entity(entity: &str) -> (r: Option<char>)
    ensures
        r == entity_char(entity@),
{
    let v = chars_of(entity);
    assert(v@.subrange(0, v@.len() as int) =~= v@);
    entity_char_at(v.as_slice(), 0, v.len())
}

fn backslash_pair(c: char) -> (r: Vec<char>)
    ensures
        r@ == seq!['\\', c],
{
    let mut r: Vec<char> = Vec::new();
    r.push('\\');
    r.push(c);
    assert(r@ =~= seq!['\\', c]);
    r
}

fn one_char(c: char) -> (r: Vec<char>)
    ensures
        r@ == seq![c],
{
    let mut r: Vec<char> = Vec::new();
    r.push(c);
    assert(r@ =~= seq![c]);
    r
}

/// `unescape_newlines` over a slice of characters.
pub fn unescape_newlines_chars(v: &[char]) -> (r: Vec<char>)
    ensures
        r@ == unescape_newlines(v@),
{
    let nl = one_char('\n');
    let mut crlf = backslash_pair('r');
    append_chars(&mut crlf, backslash_pair('n').as_slice());
    assert(crlf@ =~= seq!['\\', 'r', '\\', 'n']);
    let a = replace_all_chars(v, crlf.as_slice(), nl.as_slice());
    let b = replace_all_chars(a.as_slice(), backslash_pair('n').as_slice(), nl.as_slice());
    replace_all_chars(b.as_slice(), backslash_pair('r').as_slice(), nl.as_slice())
}

/// `normalized_text` over a slice of characters.
pub fn normalize_chars(v: &[char]) -> (r: Vec<char>)
    ensures
        r@ == normalized_text(v@),
{
    let a = unescape_newlines_chars(v);
    let b = decode_entities_chars(a.as_slice());
    let ls = split_lines(b.as_slice());
    let trimmed = trim_end_each(&ls);
    let joined = join_with(&trimmed, '\n');
    let (lo, hi) = trim_bounds(joined.as_slice(), 0, joined.len());
    assert(joined@.subrange(0, joined@.len() as int) =~= joined@);
    copy_range(joined.as_slice(), lo, hi)
}

/// `without_title_line` over slices of characters.
pub fn without_title_line_chars(text: &[char], title: &[char]) -> (r: Vec<char>)
    ensures
        r@ == without_title_line(text@, title@),
{
    let (tlo, thi) = trim_bounds(title, 0, title.len());
    assert(title@.subrange(0, title@.len() as int) =~= title@);
    let k = find_char_from(text, 0, '\n');
    assert(text@.subrange(0, text@.len() as int) =~= text@);
    if thi > tlo {
        let first = copy_range(text, 0, k);
        let t = copy_range(title, tlo, thi);
        assert(first@ =~= text@.take(k as int));
        if chars_eq(first.as_slice(), t.as_slice()) {
            if k < text.len() {
                let (lo, hi) = trim_bounds(text, k + 1, text.len());
                assert(text@.subrange(k + 1, text@.len() as int) =~= text@.skip(k + 1));
                return copy_range(text, lo, hi);
            } else {
                let r: Vec<char> = Vec::new();
                assert(r@ =~= Seq::<char>::empty());
                return r;
            }
        }
    }
    copy_range(text, 0, text.len())
}

/// `description_text` over slices of characters.
pub fn description_chars(short: &[char], long: &[char], title: &[char]) -> (r: Vec<char>)
    ensures
        r@ == description_text(short@, long@, title@),
{
    let s0 = normalize_chars(short);
    let l0 = normalize_chars(long);
    let s = without_title_line_chars(s0.as_slice(), title);
    let l = without_title_line_chars(l0.as_slice(), title);
    if s.len() == 0 && l.len() == 0 {
        let r: Vec<char> = Vec::new();
        assert(r@ =~= Seq::<char>::empty());
        r
    } else if l.len() == 0 {
        s
    } else if s.len() == 0 {
        l
    } else if chars_eq(s.as_slice(), l.as_slice()) {
        s
    } else {
        let mut r = s;
        r.push('\n');
        r.push('\n');
        append_chars(&mut r, l.as_slice());
        assert(r@ =~= s@ + seq!['\n', '\n'] + l@);
        r
    }
}

/// Decoding never makes text longer: a decoded entity is one character in
/// place of its name and delimiters, and what is not decoded stays as it is.
pub proof fn decoding_never_lengthens(s: Seq<char>)
    ensures
        decode_entities(s).len() <= s.len(),
    decreases s.len(),
{
    if s.len() > 0 {
        if s[0] != '&' {
            decoding_never_lengthens(s.drop_first());
        } else {
            let t = s.drop_first();
            lemma_scan_entity(t, 0, 0);
            let (n, term) = scan_entity(t, 0, 0);
            let consumed = if term {
                n + 1
            } else {
                n
            };
            decoding_never_lengthens(t.skip(consumed));
        }
    }
}

/// Text without a `;` closes no entity, so decoding leaves it as it is.
pub proof fn decoding_without_semicolon_changes_nothing(s: Seq<char>)
    requires
        !has_char(s, ';'),
    ensures
        decode_entities(s) == s,
    decreases s.len(),
{
    if s.len() > 0 {
        let t = s.drop_first();
        assert(!has_char(t, ';')) by {
            if has_char(t, ';') {
                let k = choose|k: int| 0 <= k < t.len() && t[k] == ';';
                assert(s[k + 1] == ';');
            }
        }
        if s[0] != '&' {
            decoding_without_semicolon_changes_nothing(t);
            assert(seq![s[0]] + t =~= s);
        } else {
            lemma_scan_entity(t, 0, 0);
            let (n, term) = scan_entity(t, 0, 0);
            assert(!term) by {
                if term {
                    assert(t[n] == ';');
                }
            }
            let rest = t.skip(n);
            assert(!has_char(rest, ';')) by {
                if has_char(rest, ';') {
                    let k = choose|k: int| 0 <= k < rest.len() && rest[k] == ';';
                    assert(t[n + k] == ';');
                }
            }
            decoding_without_semicolon_changes_nothing(rest);
            assert(seq!['&'] + t.take(n) + rest =~= s);
        }
    }
}

/// Replacing a pattern changes nothing in text where the pattern's first
/// character does not occur.
proof fn lemma_replace_absent(s: Seq<char>, pat: Seq<char>, rep: Seq<char>)
    requires
        pat.len() > 0,
        !has_char(s, pat[0]),
    ensures
        replace_all(s, pat, rep) == s,
    decreases s.len(),
{
    if s.len() > 0 {
        assert(s[0] != pat[0]);
        assert(!starts_with(s, pat)) by {
            if starts_with(s, pat) {
                assert(s.take(pat.len() as int)[0] == s[0]);
            }
        }
        let t = s.drop_first();
        assert(!has_char(t, pat[0])) by {
            if has_char(t, pat[0]) {
                let k = choose|k: int| 0 <= k < t.len() && t[k] == pat[0];
                assert(s[k + 1] == pat[0]);
            }
        }
        lemma_replace_absent(t, pat, rep);
        assert(seq![s[0]] + t =~= s);
    }
}

/// Joining `a` in front of further parts puts one separator after it.
proof fn lemma_join_front(a: Seq<char>, parts: Seq<Seq<char>>, sep: Seq<char>)
    requires
        parts.len() > 0,
    ensures
        join(seq![a] + parts, sep) == a + sep + join(parts, sep),
    decreases parts.len(),
{
    let q = seq![a] + parts;
    assert(q.drop_last() =~= seq![a] + parts.drop_last());
    assert(q.last() == parts.last());
    assert(join(q, sep) == join(q.drop_last(), sep) + sep + q.last());
    if parts.len() == 1 {
        assert(q.drop_last() =~= seq![a]);
        assert(join(seq![a], sep) == a);
        assert(join(parts, sep) == parts[0]);
        assert(join(q, sep) =~= a + sep + join(parts, sep));
    } else {
        lemma_join_front(a, parts.drop_last(), sep);
        assert(join(parts, sep) == join(parts.drop_last(), sep) + sep + parts.last());
        assert(join(q, sep) =~= a + sep + join(parts, sep));
    }
}

/// Text without `'\r'` that does not end with a line break is its lines
/// joined with line breaks.
proof fn lemma_join_lines(s: Seq<char>)
    requires
        !has_char(s, '\r'),
        s.len() == 0 || s.last() != '\n',
    ensures
        join(lines(s), seq!['\n']) == s,
    decreases s.len(),
{
    if s.len() > 0 {
        let k = find_char(s, '\n');
        lemma_find_char(s, '\n');
        if k < s.len() {
            let head = s.take(k);
            let rest = s.skip(k + 1);
            assert(strip_cr(head) == head) by {
                if head.len() > 0 {
                    assert(head.last() == s[k - 1]);
                }
            }
            assert(k + 1 < s.len());
            assert(!has_char(rest, '\r')) by {
                if has_char(rest, '\r') {
                    let j = choose|j: int| 0 <= j < rest.len() && rest[j] == '\r';
                    assert(s[k + 1 + j] == '\r');
                }
            }
            assert(rest.last() == s.last());
            lemma_join_lines(rest);
            assert(lines(rest).len() > 0);
            assert(lines(s) == seq![head] + lines(rest));
            lemma_join_front(head, lines(rest), seq!['\n']);
            assert(head + seq!['\n'] + rest =~= s);
        }
    }
}

/// Text that is already clean normalizes to itself: with no `&`, `\` or
/// `'\r'` in it, no white space at either end, and none at the end of any
/// line.
pub proof fn clean_text_normalizes_to_itself(s: Seq<char>)
    requires
        !has_char(s, '&'),
        !has_char(s, '\\'),
        !has_char(s, '\r'),
        trim(s) == s,
        forall|i: int| 0 <= i < lines(s).len() ==> #[trigger] trim_end(lines(s)[i]) == lines(s)[i],
    ensures
        normalized_text(s) == s,
{
    lemma_replace_absent(s, seq!['\\', 'r', '\\', 'n'], seq!['\n']);
    lemma_replace_absent(s, seq!['\\', 'n'], seq!['\n']);
    lemma_replace_absent(s, seq!['\\', 'r'], seq!['\n']);
    assert(unescape_newlines(s) == s);
    decoding_without_ampersand_changes_nothing(s);
    assert(lines(s).map_values(|l: Seq<char>| trim_end(l)) =~= lines(s));
    assert(s.len() == 0 || s.last() != '\n') by {
        if s.len() > 0 && s.last() == '\n' {
            assert(is_ws(s.last()));
            lemma_trim_end_ends_clean(trim_start(s));
        }
    }
    lemma_join_lines(s);
}

/// What `trim_end` leaves does not end with white space.
proof fn lemma_trim_end_ends_clean(s: Seq<char>)
    ensures
        trim_end(s).len() == 0 || !is_ws(trim_end(s).last()),
    decreases s.len(),
{
    if s.len() > 0 && is_ws(s.last()) {
        lemma_trim_end_ends_clean(s.drop_last());
    }
}

/// Scanning a name of one-byte characters closed by `';'` stops at the `';'`.
proof fn lemma_scan_short_name(t: Seq<char>, n: int, j: int, b: int)
    requires
        0 <= j <= n < t.len(),
        t[n] == ';',
        forall|k: int| j <= k < n ==> #[trigger] t[k] != ';' && utf8_len(t[k]) == 1,
        b + (n - j) <= 12,
    ensures
        scan_entity(t, j, b) == (n, true),
    decreases n - j,
{
    if j < n {
        lemma_scan_short_name(t, n, j + 1, b + 1);
    }
}

/// `&name;` with a known name decodes to its character, wherever it stands.
proof fn lemma_decode_entity_at_front(name: Seq<char>, c: char, rest: Seq<char>)
    requires
        name.len() <= 12,
        forall|k: int| 0 <= k < name.len() ==> #[trigger] name[k] != ';' && utf8_len(name[k]) == 1,
        entity_char(name) == Some(c),
    ensures
        decode_entities(seq!['&'] + name + seq![';'] + rest) == seq![c] + decode_entities(rest),
{
    let s = seq!['&'] + name + seq![';'] + rest;
    let t = s.drop_first();
    assert(t =~= name + seq![';'] + rest);
    let n = name.len() as int;
    assert forall|k: int| 0 <= k < n implies #[trigger] t[k] != ';' && utf8_len(t[k]) == 1 by {
        assert(t[k] == name[k]);
    }
    lemma_scan_short_name(t, n, 0, 0);
    assert(t.take(n) =~= name);
    assert(t.skip(n + 1) =~= rest);
}

/// The named entities decode to their characters wherever they stand:
/// `&amp;` `&`, `&apos;` `'`, `&auml;` `ä`, `&Auml;` `Ä`, `&gt;` `>`, `&lt;`
/// `<`, `&nbsp;` a space, `&ouml;` `ö`, `&Ouml;` `Ö`, `&quot;` `"`,
/// `&szlig;` `ß`, `&uuml;` `ü`, `&Uuml;` `Ü`.
pub proof fn named_entities_decode(rest: Seq<char>)
    ensures
        decode_entities(seq!['&', 'a', 'm', 'p', ';'] + rest) == seq!['&'] + decode_entities(rest),
        decode_entities(seq!['&', 'a', 'p', 'o', 's', ';'] + rest) == seq!['\''] + decode_entities(rest),
        decode_entities(seq!['&', 'a', 'u', 'm', 'l', ';'] + rest) == seq!['\u{e4}'] + decode_entities(rest),
        decode_entities(seq!['&', 'A', 'u', 'm', 'l', ';'] + rest) == seq!['\u{c4}'] + decode_entities(rest),
        decode_entities(seq!['&', 'g', 't', ';'] + rest) == seq!['>'] + decode_entities(rest),
        decode_entities(seq!['&', 'l', 't', ';'] + rest) == seq!['<'] + decode_entities(rest),
        decode_entities(seq!['&', 'n', 'b', 's', 'p', ';'] + rest) == seq![' '] + decode_entities(rest),
        decode_entities(seq!['&', 'o', 'u', 'm', 'l', ';'] + rest) == seq!['\u{f6}'] + decode_entities(rest),
        decode_entities(seq!['&', 'O', 'u', 'm', 'l', ';'] + rest) == seq!['\u{d6}'] + decode_entities(rest),
        decode_entities(seq!['&', 'q', 'u', 'o', 't', ';'] + rest) == seq!['"'] + decode_entities(rest),
        decode_entities(seq!['&', 's', 'z', 'l', 'i', 'g', ';'] + rest) == seq!['\u{df}'] + decode_entities(rest),
        decode_entities(seq!['&', 'u', 'u', 'm', 'l', ';'] + rest) == seq!['\u{fc}'] + decode_entities(rest),
        decode_entities(seq!['&', 'U', 'u', 'm', 'l', ';'] + rest) == seq!['\u{dc}'] + decode_entities(rest),
{
    decode_amp(rest);
    decode_apos(rest);
    decode_auml(rest);
    decode_upper_auml(rest);
    decode_gt(rest);
    decode_lt(rest);
    decode_nbsp(rest);
    decode_ouml(rest);
    decode_upper_ouml(rest);
    decode_quot(rest);
    decode_szlig(rest);
    decode_uuml(rest);
    decode_upper_uuml(rest);
}

proof fn decode_amp(rest: Seq<char>)
    ensures
        decode_entities(seq!['&', 'a', 'm', 'p', ';'] + rest) == seq!['&'] + decode_entities(rest),
{
    assert(named_entity(seq!['a', 'm', 'p']) == Some('&'));
    named_entity_decodes(seq!['a', 'm', 'p'], '&', rest);
    assert(seq!['&', 'a', 'm', 'p', ';'] + rest =~= seq!['&'] + seq!['a', 'm', 'p'] + seq![';'] + rest);
}

proof fn decode_apos(rest: Seq<char>)
    ensures
        decode_entities(seq!['&', 'a', 'p', 'o', 's', ';'] + rest) == seq!['\''] + decode_entities(rest),
{
    assert(seq!['a', 'p', 'o', 's'].len() != seq!['a', 'm', 'p'].len());
    assert(named_entity(seq!['a', 'p', 'o', 's']) == Some('\''));
    named_entity_decodes(seq!['a', 'p', 'o', 's'], '\'', rest);
    assert(seq!['&', 'a', 'p', 'o', 's', ';'] + rest =~= seq!['&'] + seq!['a', 'p', 'o', 's'] + seq![';'] + rest);
}

proof fn decode_auml(rest: Seq<char>)
    ensures
        decode_entities(seq!['&', 'a', 'u', 'm', 'l', ';'] + rest) == seq!['\u{e4}'] + decode_entities(rest),
{
    assert(seq!['a', 'u', 'm', 'l'].len() != seq!['a', 'm', 'p'].len());
    assert(seq!['a', 'u', 'm', 'l'][1] != seq!['a', 'p', 'o', 's'][1]);
    assert(named_entity(seq!['a', 'u', 'm', 'l']) == Some('\u{e4}'));
    named_entity_decodes(seq!['a', 'u', 'm', 'l'], '\u{e4}', rest);
    assert(seq!['&', 'a', 'u', 'm', 'l', ';'] + rest =~= seq!['&'] + seq!['a', 'u', 'm', 'l'] + seq![';'] + rest);
}

proof fn decode_upper_auml(rest: Seq<char>)
    ensures
        decode_entities(seq!['&', 'A', 'u', 'm', 'l', ';'] + rest) == seq!['\u{c4}'] + decode_entities(rest),
{
    assert(seq!['A', 'u', 'm', 'l'].len() != seq!['a', 'm', 'p'].len());
    assert(seq!['A', 'u', 'm', 'l'][0] != seq!['a', 'p', 'o', 's'][0]);
    assert(seq!['A', 'u', 'm', 'l'][0] != seq!['a', 'u', 'm', 'l'][0]);
    assert(named_entity(seq!['A', 'u', 'm', 'l']) == Some('\u{c4}'));
    named_entity_decodes(seq!['A', 'u', 'm', 'l'], '\u{c4}', rest);
    assert(seq!['&', 'A', 'u', 'm', 'l', ';'] + rest =~= seq!['&'] + seq!['A', 'u', 'm', 'l'] + seq![';'] + rest);
}

proof fn decode_gt(rest: Seq<char>)
    ensures
        decode_entities(seq!['&', 'g', 't', ';'] + rest) == seq!['>'] + decode_entities(rest),
{
    assert(seq!['g', 't'].len() != seq!['a', 'm', 'p'].len());
    assert(seq!['g', 't'].len() != seq!['a', 'p', 'o', 's'].len());
    assert(seq!['g', 't'].len() != seq!['a', 'u', 'm', 'l'].len());
    assert(seq!['g', 't'].len() != seq!['A', 'u', 'm', 'l'].len());
    assert(named_entity(seq!['g', 't']) == Some('>'));
    named_entity_decodes(seq!['g', 't'], '>', rest);
    assert(seq!['&', 'g', 't', ';'] + rest =~= seq!['&'] + seq!['g', 't'] + seq![';'] + rest);
}

proof fn decode_lt(rest: Seq<char>)
    ensures
        decode_entities(seq!['&', 'l', 't', ';'] + rest) == seq!['<'] + decode_entities(rest),
{
    assert(seq!['l', 't'].len() != seq!['a', 'm', 'p'].len());
    assert(seq!['l', 't'].len() != seq!['a', 'p', 'o', 's'].len());
    assert(seq!['l', 't'].len() != seq!['a', 'u', 'm', 'l'].len());
    assert(seq!['l', 't'].len() != seq!['A', 'u', 'm', 'l'].len());
    assert(seq!['l', 't'][0] != seq!['g', 't'][0]);
    assert(named_entity(seq!['l', 't']) == Some('<'));
    named_entity_decodes(seq!['l', 't'], '<', rest);
    assert(seq!['&', 'l', 't', ';'] + rest =~= seq!['&'] + seq!['l', 't'] + seq![';'] + rest);
}

proof fn decode_nbsp(rest: Seq<char>)
    ensures
        decode_entities(seq!['&', 'n', 'b', 's', 'p', ';'] + rest) == seq![' '] + decode_entities(rest),
{
    assert(seq!['n', 'b', 's', 'p'].len() != seq!['a', 'm', 'p'].len());
    assert(seq!['n', 'b', 's', 'p'][0] != seq!['a', 'p', 'o', 's'][0]);
    assert(seq!['n', 'b', 's', 'p'][0] != seq!['a', 'u', 'm', 'l'][0]);
    assert(seq!['n', 'b', 's', 'p'][0] != seq!['A', 'u', 'm', 'l'][0]);
    assert(seq!['n', 'b', 's', 'p'].len() != seq!['g', 't'].len());
    assert(seq!['n', 'b', 's', 'p'].len() != seq!['l', 't'].len());
    assert(named_entity(seq!['n', 'b', 's', 'p']) == Some(' '));
    named_entity_decodes(seq!['n', 'b', 's', 'p'], ' ', rest);
    assert(seq!['&', 'n', 'b', 's', 'p', ';'] + rest =~= seq!['&'] + seq!['n', 'b', 's', 'p'] + seq![';'] + rest);
}

proof fn decode_ouml(rest: Seq<char>)
    ensures
        decode_entities(seq!['&', 'o', 'u', 'm', 'l', ';'] + rest) == seq!['\u{f6}'] + decode_entities(rest),
{
    assert(seq!['o', 'u', 'm', 'l'].len() != seq!['a', 'm', 'p'].len());
    assert(seq!['o', 'u', 'm', 'l'][0] != seq!['a', 'p', 'o', 's'][0]);
    assert(seq!['o', 'u', 'm', 'l'][0] != seq!['a', 'u', 'm', 'l'][0]);
    assert(seq!['o', 'u', 'm', 'l'][0] != seq!['A', 'u', 'm', 'l'][0]);
    assert(seq!['o', 'u', 'm', 'l'].len() != seq!['g', 't'].len());
    assert(seq!['o', 'u', 'm', 'l'].len() != seq!['l', 't'].len());
    assert(seq!['o', 'u', 'm', 'l'][0] != seq!['n', 'b', 's', 'p'][0]);
    assert(named_entity(seq!['o', 'u', 'm', 'l']) == Some('\u{f6}'));
    named_entity_decodes(seq!['o', 'u', 'm', 'l'], '\u{f6}', rest);
    assert(seq!['&', 'o', 'u', 'm', 'l', ';'] + rest =~= seq!['&'] + seq!['o', 'u', 'm', 'l'] + seq![';'] + rest);
}

proof fn decode_upper_ouml(rest: Seq<char>)
    ensures
        decode_entities(seq!['&', 'O', 'u', 'm', 'l', ';'] + rest) == seq!['\u{d6}'] + decode_entities(rest),
{
    assert(seq!['O', 'u', 'm', 'l'].len() != seq!['a', 'm', 'p'].len());
    assert(seq!['O', 'u', 'm', 'l'][0] != seq!['a', 'p', 'o', 's'][0]);
    assert(seq!['O', 'u', 'm', 'l'][0] != seq!['a', 'u', 'm', 'l'][0]);
    assert(seq!['O', 'u', 'm', 'l'][0] != seq!['A', 'u', 'm', 'l'][0]);
    assert(seq!['O', 'u', 'm', 'l'].len() != seq!['g', 't'].len());
    assert(seq!['O', 'u', 'm', 'l'].len() != seq!['l', 't'].len());
    assert(seq!['O', 'u', 'm', 'l'][0] != seq!['n', 'b', 's', 'p'][0]);
    assert(seq!['O', 'u', 'm', 'l'][0] != seq!['o', 'u', 'm', 'l'][0]);
    assert(named_entity(seq!['O', 'u', 'm', 'l']) == Some('\u{d6}'));
    named_entity_decodes(seq!['O', 'u', 'm', 'l'], '\u{d6}', rest);
    assert(seq!['&', 'O', 'u', 'm', 'l', ';'] + rest =~= seq!['&'] + seq!['O', 'u', 'm', 'l'] + seq![';'] + rest);
}

proof fn decode_quot(rest: Seq<char>)
    ensures
        decode_entities(seq!['&', 'q', 'u', 'o', 't', ';'] + rest) == seq!['"'] + decode_entities(rest),
{
    assert(seq!['q', 'u', 'o', 't'].len() != seq!['a', 'm', 'p'].len());
    assert(seq!['q', 'u', 'o', 't'][0] != seq!['a', 'p', 'o', 's'][0]);
    assert(seq!['q', 'u', 'o', 't'][0] != seq!['a', 'u', 'm', 'l'][0]);
    assert(seq!['q', 'u', 'o', 't'][0] != seq!['A', 'u', 'm', 'l'][0]);
    assert(seq!['q', 'u', 'o', 't'].len() != seq!['g', 't'].len());
    assert(seq!['q', 'u', 'o', 't'].len() != seq!['l', 't'].len());
    assert(seq!['q', 'u', 'o', 't'][0] != seq!['n', 'b', 's', 'p'][0]);
    assert(seq!['q', 'u', 'o', 't'][0] != seq!['o', 'u', 'm', 'l'][0]);
    assert(seq!['q', 'u', 'o', 't'][0] != seq!['O', 'u', 'm', 'l'][0]);
    assert(named_entity(seq!['q', 'u', 'o', 't']) == Some('"'));
    named_entity_decodes(seq!['q', 'u', 'o', 't'], '"', rest);
    assert(seq!['&', 'q', 'u', 'o', 't', ';'] + rest =~= seq!['&'] + seq!['q', 'u', 'o', 't'] + seq![';'] + rest);
}

proof fn decode_szlig(rest: Seq<char>)
    ensures
        decode_entities(seq!['&', 's', 'z', 'l', 'i', 'g', ';'] + rest) == seq!['\u{df}'] + decode_entities(rest),
{
    assert(seq!['s', 'z', 'l', 'i', 'g'].len() != seq!['a', 'm', 'p'].len());
    assert(seq!['s', 'z', 'l', 'i', 'g'].len() != seq!['a', 'p', 'o', 's'].len());
    assert(seq!['s', 'z', 'l', 'i', 'g'].len() != seq!['a', 'u', 'm', 'l'].len());
    assert(seq!['s', 'z', 'l', 'i', 'g'].len() != seq!['A', 'u', 'm', 'l'].len());
    assert(seq!['s', 'z', 'l', 'i', 'g'].len() != seq!['g', 't'].len());
    assert(seq!['s', 'z', 'l', 'i', 'g'].len() != seq!['l', 't'].len());
    assert(seq!['s', 'z', 'l', 'i', 'g'].len() != seq!['n', 'b', 's', 'p'].len());
    assert(seq!['s', 'z', 'l', 'i', 'g'].len() != seq!['o', 'u', 'm', 'l'].len());
    assert(seq!['s', 'z', 'l', 'i', 'g'].len() != seq!['O', 'u', 'm', 'l'].len());
    assert(seq!['s', 'z', 'l', 'i', 'g'].len() != seq!['q', 'u', 'o', 't'].len());
    assert(named_entity(seq!['s', 'z', 'l', 'i', 'g']) == Some('\u{df}'));
    named_entity_decodes(seq!['s', 'z', 'l', 'i', 'g'], '\u{df}', rest);
    assert(seq!['&', 's', 'z', 'l', 'i', 'g', ';'] + rest =~= seq!['&'] + seq!['s', 'z', 'l', 'i', 'g'] + seq![';'] + rest);
}

proof fn decode_uuml(rest: Seq<char>)
    ensures
        decode_entities(seq!['&', 'u', 'u', 'm', 'l', ';'] + rest) == seq!['\u{fc}'] + decode_entities(rest),
{
    assert(seq!['u', 'u', 'm', 'l'].len() != seq!['a', 'm', 'p'].len());
    assert(seq!['u', 'u', 'm', 'l'][0] != seq!['a', 'p', 'o', 's'][0]);
    assert(seq!['u', 'u', 'm', 'l'][0] != seq!['a', 'u', 'm', 'l'][0]);
    assert(seq!['u', 'u', 'm', 'l'][0] != seq!['A', 'u', 'm', 'l'][0]);
    assert(seq!['u', 'u', 'm', 'l'].len() != seq!['g', 't'].len());
    assert(seq!['u', 'u', 'm', 'l'].len() != seq!['l', 't'].len());
    assert(seq!['u', 'u', 'm', 'l'][0] != seq!['n', 'b', 's', 'p'][0]);
    assert(seq!['u', 'u', 'm', 'l'][0] != seq!['o', 'u', 'm', 'l'][0]);
    assert(seq!['u', 'u', 'm', 'l'][0] != seq!['O', 'u', 'm', 'l'][0]);
    assert(seq!['u', 'u', 'm', 'l'][0] != seq!['q', 'u', 'o', 't'][0]);
    assert(seq!['u', 'u', 'm', 'l'].len() != seq!['s', 'z', 'l', 'i', 'g'].len());
    assert(named_entity(seq!['u', 'u', 'm', 'l']) == Some('\u{fc}'));
    named_entity_decodes(seq!['u', 'u', 'm', 'l'], '\u{fc}', rest);
    assert(seq!['&', 'u', 'u', 'm', 'l', ';'] + rest =~= seq!['&'] + seq!['u', 'u', 'm', 'l'] + seq![';'] + rest);
}

proof fn decode_upper_uuml(rest: Seq<char>)
    ensures
        decode_entities(seq!['&', 'U', 'u', 'm', 'l', ';'] + rest) == seq!['\u{dc}'] + decode_entities(rest),
{
    assert(seq!['U', 'u', 'm', 'l'].len() != seq!['a', 'm', 'p'].len());
    assert(seq!['U', 'u', 'm', 'l'][0] != seq!['a', 'p', 'o', 's'][0]);
    assert(seq!['U', 'u', 'm', 'l'][0] != seq!['a', 'u', 'm', 'l'][0]);
    assert(seq!['U', 'u', 'm', 'l'][0] != seq!['A', 'u', 'm', 'l'][0]);
    assert(seq!['U', 'u', 'm', 'l'].len() != seq!['g', 't'].len());
    assert(seq!['U', 'u', 'm', 'l'].len() != seq!['l', 't'].len());
    assert(seq!['U', 'u', 'm', 'l'][0] != seq!['n', 'b', 's', 'p'][0]);
    assert(seq!['U', 'u', 'm', 'l'][0] != seq!['o', 'u', 'm', 'l'][0]);
    assert(seq!['U', 'u', 'm', 'l'][0] != seq!['O', 'u', 'm', 'l'][0]);
    assert(seq!['U', 'u', 'm', 'l'][0] != seq!['q', 'u', 'o', 't'][0]);
    assert(seq!['U', 'u', 'm', 'l'].len() != seq!['s', 'z', 'l', 'i', 'g'].len());
    assert(seq!['U', 'u', 'm', 'l'][0] != seq!['u', 'u', 'm', 'l'][0]);
    assert(named_entity(seq!['U', 'u', 'm', 'l']) == Some('\u{dc}'));
    named_entity_decodes(seq!['U', 'u', 'm', 'l'], '\u{dc}', rest);
    assert(seq!['&', 'U', 'u', 'm', 'l', ';'] + rest =~= seq!['&'] + seq!['U', 'u', 'm', 'l'] + seq![';'] + rest);
}

proof fn named_entity_decodes(name: Seq<char>, c: char, rest: Seq<char>)
    requires
        1 <= name.len() <= 5,
        forall|k: int| 0 <= k < name.len() ==> 'A' <= #[trigger] name[k] <= 'z',
        named_entity(name) == Some(c),
    ensures
        decode_entities(seq!['&'] + name + seq![';'] + rest) == seq![c] + decode_entities(rest),
{
    assert forall|k: int| 0 <= k < name.len() implies #[trigger] name[k] != ';' && utf8_len(name[k]) == 1 by {
        assert('A' <= name[k] <= 'z');
    }
    lemma_decode_entity_at_front(name, c, rest);
    assert(seq!['&'] + name + seq![';'] + rest =~= seq!['&'] + name + seq![';'] + rest);
}

} // verus!
