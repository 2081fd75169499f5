//! Extraction of raw front matter from content.
//!
//! Front matter is recognised by its delimiters: `---` lines for YAML,
//! `+++` lines for TOML, and a balanced `{ ... }` object for JSON. All
//! positions are byte positions in the UTF-8 text, as `str` slicing uses.

use crate::error::Error;
use crate::text::{
    trim_start_chars,
    contains_byte, find_from, find_bytes, find_spec, has_byte, lemma_ascii_boundaries,
    lemma_find_from, lemma_occurrence_boundary, lemma_prefix_boundary, lemma_str_valid,
    matches_at, occurs_at, part_of, slice_between, starts_with, suffix_of, trimmed_bytes,
};
use crate::types::Format;
use vstd::prelude::*;
use vstd::string::StringSliceAdditionalSpecFns;
use vstd::utf8::{
    decode_utf8, encode_scalar, encode_utf8, has_width_1_encoding, is_char_boundary,
    is_char_boundary_start_end_of_seq, partial_valid_utf8,
    partial_valid_utf8_extend_ascii_block, valid_utf8,
};

verus! {

broadcast use vstd::utf8::encode_utf8_valid_utf8, vstd::utf8::encode_utf8_decode_utf8;

/// Maximum nesting of braces accepted in JSON front matter.
pub const JSON_MAX_DEPTH: usize = 100;

/// `d`, `d`, `d` and a newline: opens front matter delimited by `d`.
pub open spec fn open_line(d: u8) -> Seq<u8> {
    seq![d, d, d, 0x0Au8]
}

/// A newline and `d`, `d`, `d`: closes front matter delimited by `d`.
pub open spec fn close_mark(d: u8) -> Seq<u8> {
    seq![0x0Au8, d, d, d]
}

/// A line of `d`, `d`, `d`: where the body begins.
pub open spec fn end_line(d: u8) -> Seq<u8> {
    seq![0x0Au8, d, d, d, 0x0Au8]
}

/// The byte of the YAML delimiter `---`.
pub open spec fn yaml_mark() -> u8 {
    0x2D
}

/// The byte of the TOML delimiter `+++`.
pub open spec fn toml_mark() -> u8 {
    0x2B
}

/// The front matter between `open` at the start of `c` and the first
/// `close` after it; `None` when `c` does not begin with `open` or no
/// `close` follows.
pub open spec fn delimited_spec(c: Seq<u8>, open: Seq<u8>, close: Seq<u8>) -> Option<Seq<u8>> {
    if starts_with(c, open) {
        match find_spec(c.skip(open.len() as int), close) {
            Some(j) => Some(c.skip(open.len() as int).take(j)),
            None => None,
        }
    } else {
        None
    }
}

/// The front matter of `c` framed by lines of `d`: what follows the
/// opening line, up to the first closing mark. The closing mark may share
/// the opening line's newline, and the block is then empty. `None` when
/// `c` does not begin with an opening line or no closing mark follows.
pub open spec fn framed_spec(c: Seq<u8>, d: u8) -> Option<Seq<u8>> {
    if starts_with(c, open_line(d)) {
        match find_spec(c.skip(3), close_mark(d)) {
            Some(j) => Some(
                if j == 0 {
                    Seq::<u8>::empty()
                } else {
                    c.subrange(4, 3 + j)
                },
            ),
            None => None,
        }
    } else {
        None
    }
}

/// What follows the first `end` line in `c`; nothing when there is none.
pub open spec fn after_end(c: Seq<u8>, end: Seq<u8>) -> Seq<u8> {
    match find_spec(c, end) {
        Some(i) => c.skip(i + end.len()),
        None => Seq::empty(),
    }
}

/// How a scan for a balanced JSON object ends.
pub enum JsonEnd {
    /// The object closes after this many bytes.
    Closed(nat),
    /// Braces nest deeper than the limit before the object closes.
    TooDeep,
    /// The text ends before the object closes.
    Unclosed,
}

/// Scans `t` from byte `i` for the brace that balances the first one,
/// skipping braces inside strings and the byte after a backslash in a string.
pub open spec fn json_scan(
    t: Seq<u8>,
    i: int,
    count: int,
    depth: int,
    in_string: bool,
    escape: bool,
) -> JsonEnd
    decreases t.len() - i,
{
    if i < 0 || i >= t.len() {
        JsonEnd::Unclosed
    } else if escape {
        json_scan(t, i + 1, count, depth, in_string, false)
    } else if t[i] == 0x22 {
        json_scan(t, i + 1, count, depth, !in_string, false)
    } else if t[i] == 0x5C && in_string {
        json_scan(t, i + 1, count, depth, in_string, true)
    } else if t[i] == 0x7B && !in_string {
        if depth + 1 > JSON_MAX_DEPTH {
            JsonEnd::TooDeep
        } else {
            json_scan(t, i + 1, count + 1, depth + 1, in_string, false)
        }
    } else if t[i] == 0x7D && !in_string {
        if count - 1 == 0 {
            JsonEnd::Closed((i + 1) as nat)
        } else {
            json_scan(
                t,
                i + 1,
                count - 1,
                if depth > 0 { depth - 1 } else { depth },
                in_string,
                false,
            )
        }
    } else {
        json_scan(t, i + 1, count, depth, in_string, false)
    }
}

/// A closed object lies within the scanned bytes.
pub proof fn lemma_json_scan_within(
    t: Seq<u8>,
    i: int,
    count: int,
    depth: int,
    in_string: bool,
    escape: bool,
)
    ensures
        json_scan(t, i, count, depth, in_string, escape) matches JsonEnd::Closed(n) ==> 0 < n
            <= t.len() && t[n - 1] == 0x7D,
    decreases t.len() - i,
{
    if i < 0 || i >= t.len() {
    } else if escape {
        lemma_json_scan_within(t, i + 1, count, depth, in_string, false);
    } else if t[i] == 0x22 {
        lemma_json_scan_within(t, i + 1, count, depth, !in_string, false);
    } else if t[i] == 0x5C && in_string {
        lemma_json_scan_within(t, i + 1, count, depth, in_string, true);
    } else if t[i] == 0x7B && !in_string {
        lemma_json_scan_within(t, i + 1, count + 1, depth + 1, in_string, false);
    } else if t[i] == 0x7D && !in_string {
        lemma_json_scan_within(
            t,
            i + 1,
            count - 1,
            if depth > 0 { depth - 1 } else { depth },
            in_string,
            false,
        );
    } else {
        lemma_json_scan_within(t, i + 1, count, depth, in_string, false);
    }
}

/// How JSON front matter at the start of the trimmed bytes `t` ends.
pub open spec fn json_end(t: Seq<u8>) -> JsonEnd {
    if t.len() > 0 && t[0] == 0x7B {
        json_scan(t, 0, 0, 0, false, false)
    } else {
        JsonEnd::Unclosed
    }
}

/// The format that the trimmed bytes `t` of raw front matter are taken to be in.
pub open spec fn format_of(t: Seq<u8>) -> Format {
    if t.len() > 0 && t[0] == 0x7B {
        Format::Json
    } else if has_byte(t, 0x3D) {
        Format::Toml
    } else {
        Format::Yaml
    }
}

/// The raw front matter and the remaining content of `s`, by bytes;
/// `None` when no front matter is recognised.
///
/// YAML front matter is framed by `---` lines and TOML front matter by
/// `+++` lines; the remaining content follows the first full delimiter
/// line. Otherwise the content, after leading whitespace, may open with a
/// balanced JSON object; the remaining content is the text after that
/// object, without its leading whitespace.
pub open spec fn raw_frontmatter_spec(s: &str) -> Option<(Seq<u8>, Seq<u8>)> {
    let c = s.spec_bytes();
    match framed_spec(c, yaml_mark()) {
        Some(f) => Some((f, after_end(c, end_line(yaml_mark())))),
        None => match framed_spec(c, toml_mark()) {
            Some(f) => Some((f, after_end(c, end_line(toml_mark())))),
            None => {
                let t = trimmed_bytes(s@);
                match json_end(t) {
                    JsonEnd::Closed(n) => Some(
                        (t.take(n as int), trimmed_bytes(decode_utf8(t.skip(n as int)))),
                    ),
                    _ => None,
                }
            },
        },
    }
}

/// All bytes are ASCII, so the sequence is valid UTF-8.
proof fn lemma_ascii_valid(s: Seq<u8>)
    requires
        forall|i: int| 0 <= i < s.len() ==> s[i] < 0x80,
    ensures
        valid_utf8(s),
{
    assert(s.subrange(0, 0) =~= Seq::<u8>::empty());
    assert(partial_valid_utf8(s, 0));
    partial_valid_utf8_extend_ascii_block(s, 0, s.len() as int);
    assert(s.subrange(0, s.len() as int) =~= s);
}

/// Front matter enclosed by `start` at the beginning of `content` and the first `end` after it.
fn delimited<'a>(content: &'a str, start: &[u8], end: &[u8]) -> (r: Option<&'a str>)
    requires
        valid_utf8(start@),
        valid_utf8(end@),
    ensures
        match delimited_spec(content.spec_bytes(), start@, end@) {
            Some(f) => r matches Some(x) && x.spec_bytes() == f,
            None => r is None,
        },
{
    let c = content.as_bytes();
    proof {
        lemma_str_valid(content);
    }
    if !matches_at(c, start, 0) {
        return None;
    }
    proof {
        assert(c@ =~= start@ + c@.skip(start@.len() as int));
        lemma_prefix_boundary(start@, c@.skip(start@.len() as int));
    }
    let (_, rest) = content.split_at(start.len());
    let rb = rest.as_bytes();
    proof {
        lemma_str_valid(rest);
        assert(rb@ =~= c@.skip(start@.len() as int));
    }
    match find_bytes(rb, end) {
        Some(j) => {
            proof {
                lemma_find_from(rb@, end@, 0);
                if end@.len() > 0 {
                    lemma_occurrence_boundary(rb@, end@, j as int);
                } else {
                    assert(j == 0) by {
                        assert(rb@.subrange(0, 0) =~= end@);
                    }
                }
            }
            let (piece, _) = rest.split_at(j);
            proof {
                assert(piece.spec_bytes() =~= rb@.take(j as int));
            }
            Some(piece)
        },
        None => None,
    }
}

/// Extracts frontmatter enclosed by the given start and end delimiters.
///
/// Returns the text after `start_delim` at the beginning of `content` up to
/// the first `end_delim` after it; `None` if the delimiters are not found.
pub fn extract_delimited_frontmatter<'a>(
    content: &'a str,
    start_delim: &str,
    end_delim: &str,
) -> (r: Option<&'a str>)
    ensures
        match delimited_spec(content.spec_bytes(), start_delim.spec_bytes(), end_delim.spec_bytes()) {
            Some(f) => r matches Some(x) && x.spec_bytes() == f,
            None => r is None,
        },
{
    proof {
        lemma_str_valid(start_delim);
        lemma_str_valid(end_delim);
    }
    delimited(content, start_delim.as_bytes(), end_delim.as_bytes())
}

/// The remaining content after the first `end` line of `content`.
fn after_end_line<'a>(content: &'a str, end: &[u8]) -> (r: &'a str)
    requires
        end@.len() == 5,
        end@[4] == 0x0A,
    ensures
        r.spec_bytes() == after_end(content.spec_bytes(), end@),
        suffix_of(r.spec_bytes(), content.spec_bytes()),
{
    let c = content.as_bytes();
    proof {
        lemma_str_valid(content);
    }
    match find_bytes(c, end) {
        Some(i) => {
            proof {
                lemma_find_from(c@, end@, 0);
                assert(c@[i + 4] == end@[4]) by {
                    assert(c@.subrange(i as int, i + 5)[4] == c@[i + 4]);
                }
                lemma_ascii_boundaries(c@, i + 4);
                assert(i + 5 <= c@.len());
                assert(c@.len() == c.len());
            }
            let (_, rest) = content.split_at(i + 5);
            proof {
                assert(rest.spec_bytes() =~= c@.skip(i + 5));
                assert(c@.skip(c@.len() - rest.spec_bytes().len()) =~= rest.spec_bytes());
            }
            rest
        },
        None => {
            proof {
                is_char_boundary_start_end_of_seq(c@);
            }
            let (_, rest) = content.split_at(c.len());
            proof {
                assert(rest.spec_bytes() =~= Seq::<u8>::empty());
                assert(c@.skip(c@.len() as int) =~= Seq::<u8>::empty());
            }
            rest
        },
    }
}

/// Front matter framed by lines of `d` at the start of `content`.
fn framed<'a>(content: &'a str, d: u8) -> (r: Option<&'a str>)
    requires
        d < 0x80,
        d != 0x0A,
    ensures
        match framed_spec(content.spec_bytes(), d) {
            Some(f) => r matches Some(x) && x.spec_bytes() == f,
            None => r is None,
        },
        r matches Some(x) ==> part_of(x.spec_bytes(), content.spec_bytes()),
{
    let c = content.as_bytes();
    let open: [u8; 4] = [d, d, d, 0x0A];
    let close: [u8; 4] = [0x0A, d, d, d];
    proof {
        assert(open@ =~= open_line(d));
        assert(close@ =~= close_mark(d));
        lemma_str_valid(content);
        assert(c@.len() == c.len());
    }
    if !matches_at(c, vstd::array::array_as_slice(&open), 0) {
        return None;
    }
    proof {
        assert(c@.subrange(0, 4)[3] == c@[3]);
    }
    let h = vstd::slice::slice_subrange(c, 3, c.len());
    proof {
        assert(h@ =~= c@.skip(3));
    }
    match find_bytes(h, vstd::array::array_as_slice(&close)) {
        Some(j) => {
            proof {
                lemma_find_from(h@, close@, 0);
                assert(h@.subrange(j as int, j + 4)[0] == h@[j as int]);
                assert(h@.subrange(j as int, j + 4)[1] == h@[j + 1]);
            }
            let x = if j == 0 {
                slice_between(content, 4, 4)
            } else {
                slice_between(content, 4, 3 + j)
            };
            proof {
                assert(c@.subrange(4, 4 + x.spec_bytes().len() as int) == x.spec_bytes());
            }
            Some(x)
        },
        None => None,
    }
}

/// The content after JSON front matter `json` that opens it after leading
/// whitespace, without its own leading whitespace.
fn after_json<'a>(content: &'a str, json: &str) -> (r: &'a str)
    requires
        json_end(trimmed_bytes(content@)) matches JsonEnd::Closed(n) && json.spec_bytes()
            == trimmed_bytes(content@).take(n as int),
    ensures
        r.spec_bytes() == trimmed_bytes(
            decode_utf8(trimmed_bytes(content@).skip(json.spec_bytes().len() as int)),
        ),
        part_of(json.spec_bytes(), content.spec_bytes()),
        suffix_of(r.spec_bytes(), content.spec_bytes()),
{
    let trimmed = crate::text::trim_start(content);
    let t = trimmed.as_bytes();
    proof {
        lemma_str_valid(trimmed);
        lemma_json_scan_within(t@, 0, 0, 0, false, false);
        let n = json_end(t@)->Closed_0;
        assert(json.spec_bytes().len() == n);
        assert(t@.len() == t.len());
        lemma_ascii_boundaries(t@, n - 1);
    }
    let (_, tail) = trimmed.split_at(json.len());
    let remaining = crate::text::trim_start(tail);
    proof {
        lemma_str_valid(tail);
        lemma_str_valid(remaining);
        lemma_str_valid(content);
        let n = json.spec_bytes().len() as int;
        let c = content.spec_bytes();
        assert(tail.spec_bytes() =~= t@.skip(n));
        let m1 = crate::text::lemma_trim_suffix(content@);
        let m2 = crate::text::lemma_trim_suffix(tail@);
        let a = encode_utf8(content@.take(m1));
        let bb = encode_utf8(tail@.take(m2));
        let rem = remaining.spec_bytes();
        assert(rem == trimmed_bytes(tail@));
        assert(c == a + t@);
        assert(t@ =~= t@.take(n) + tail.spec_bytes());
        assert(tail.spec_bytes() == bb + rem);
        assert(c =~= (a + t@.take(n) + bb) + rem);
        let p = c.len() - t@.len();
        assert(c.subrange(p, p + n) =~= json.spec_bytes());
        assert(c.skip(c.len() - rem.len()) =~= rem);
    }
    remaining
}

/// Extracts raw frontmatter from the content, detecting YAML, TOML, or JSON formats.
///
/// YAML front matter is framed by `---` lines, TOML front matter by `+++`
/// lines; otherwise the content, after leading whitespace, may open with a
/// JSON object. Returns the raw front matter and the remaining content, or
/// `Error::InvalidFormat`.
pub fn extract_raw_frontmatter(content: &str) -> (r: Result<(&str, &str), Error>)
    ensures
        match raw_frontmatter_spec(content) {
            Some((f, rest)) => r matches Ok((a, b)) && a.spec_bytes() == f && b.spec_bytes()
                == rest,
            None => r matches Err(Error::InvalidFormat),
        },
        r matches Ok((a, b)) ==> part_of(a.spec_bytes(), content.spec_bytes()) && suffix_of(
            b.spec_bytes(),
            content.spec_bytes(),
        ),
{
    let te: [u8; 5] = [0x0A, 0x2B, 0x2B, 0x2B, 0x0A];
    let ye: [u8; 5] = [0x0A, 0x2D, 0x2D, 0x2D, 0x0A];
    proof {
        assert(ye@ =~= end_line(yaml_mark()));
        assert(te@ =~= end_line(toml_mark()));
    }
    if let Some(yaml) = framed(content, 0x2D) {
        let remaining = after_end_line(content, vstd::array::array_as_slice(&ye));
        return Ok((yaml, remaining));
    }
    if let Some(toml) = framed(content, 0x2B) {
        let remaining = after_end_line(content, vstd::array::array_as_slice(&te));
        return Ok((toml, remaining));
    }
    if let Ok(json) = extract_json_frontmatter(content) {
        proof {
            lemma_json_scan_within(trimmed_bytes(content@), 0, 0, 0, false, false);
        }
        let remaining = after_json(content, json);
        proof {
            let n = json_end(trimmed_bytes(content@))->Closed_0;
            assert(json.spec_bytes().len() == n);
        }
        return Ok((json, remaining));
    }
    Err(Error::InvalidFormat)
}

/// Extracts JSON frontmatter from the content by detecting balanced curly braces (`{}`).
///
/// After leading whitespace the content must open with `{`; the object ends
/// at the brace that balances it. Braces inside strings do not count, and
/// nesting deeper than 100 levels is refused.
pub fn extract_json_frontmatter(content: &str) -> (r: Result<&str, Error>)
    ensures
        match json_end(trimmed_bytes(content@)) {
            JsonEnd::Closed(n) => r matches Ok(f) && f.spec_bytes() == trimmed_bytes(
                content@,
            ).take(n as int),
            JsonEnd::TooDeep => r matches Err(Error::JsonDepthLimitExceeded),
            JsonEnd::Unclosed => r matches Err(Error::InvalidJson),
        },
{
    let trimmed = crate::text::trim_start(content);
    let t = trimmed.as_bytes();
    proof {
        lemma_str_valid(trimmed);
    }
    if t.len() == 0 || t[0] != 0x7B {
        return Err(Error::InvalidJson);
    }
    let mut count: i32 = 0;
    let mut depth: usize = 0;
    let mut in_string = false;
    let mut escape_next = false;
    let mut i: usize = 0;
    while i < t.len()
        invariant
            t@ == trimmed_bytes(content@),
            t@ == trimmed.spec_bytes(),
            t@.len() > 0,
            t@[0] == 0x7B,
            i <= t@.len(),
            json_end(t@) == json_scan(
                t@,
                i as int,
                count as int,
                depth as int,
                in_string,
                escape_next,
            ),
            count as int == depth as int,
            depth <= JSON_MAX_DEPTH,
            i == 0 ==> depth == 0 && !in_string && !escape_next,
            i > 0 ==> depth >= 1,
        decreases t@.len() - i,
    {
        let b = t[i];
        if escape_next {
            escape_next = false;
        } else if b == 0x22 {
            in_string = !in_string;
        } else if b == 0x5C && in_string {
            escape_next = true;
        } else if b == 0x7B && !in_string {
            if depth + 1 > JSON_MAX_DEPTH {
                return Err(Error::JsonDepthLimitExceeded);
            }
            count = count + 1;
            depth = depth + 1;
        } else if b == 0x7D && !in_string {
            if count - 1 == 0 {
                proof {
                    lemma_ascii_boundaries(t@, i as int);
                }
                let (f, _) = trimmed.split_at(i + 1);
                proof {
                    assert(f.spec_bytes() =~= t@.take(i + 1));
                }
                return Ok(f);
            }
            count = count - 1;
            depth = depth - 1;
        }
        i = i + 1;
    }
    Err(Error::InvalidJson)
}

/// Detects the format of the extracted frontmatter.
///
/// After leading whitespace, a leading `{` means JSON, an `=` anywhere means
/// TOML, and anything else is taken as YAML.
pub fn detect_format(raw_frontmatter: &str) -> (r: Result<Format, Error>)
    ensures
        r == Ok::<Format, Error>(format_of(trimmed_bytes(raw_frontmatter@))),
{
    let trimmed = crate::text::trim_start(raw_frontmatter);
    let t = trimmed.as_bytes();
    proof {
        lemma_str_valid(trimmed);
    }
    if t.len() > 0 && t[0] == 0x7B {
        Ok(Format::Json)
    } else if contains_byte(t, 0x3D) {
        Ok(Format::Toml)
    } else {
        Ok(Format::Yaml)
    }
}

/// The first occurrence from `i` on is at `k` when `n` occurs at `k` and
/// nowhere between `i` and `k`.
proof fn lemma_find_at(h: Seq<u8>, n: Seq<u8>, i: int, k: int)
    requires
        0 <= i <= k,
        occurs_at(h, n, k),
        forall|j: int| i <= j < k ==> !occurs_at(h, n, j),
    ensures
        find_from(h, n, i) == Some(k),
    decreases k - i,
{
    if i < k {
        assert(!occurs_at(h, n, i));
        lemma_find_at(h, n, i + 1, k);
    }
}

/// Front matter `f` framed by lines of `d` is read back exactly, and so is
/// the body `b` after it, provided no line of `f` starts with `d`, `d`, `d`.
proof fn lemma_framed(d: u8, f: Seq<u8>, b: Seq<u8>)
    requires
        d != 0x0A,
        find_spec(seq![0x0Au8] + f, close_mark(d)) is None,
    ensures
        ({
            let c = open_line(d) + f + end_line(d) + b;
            &&& framed_spec(c, d) == Some(f)
            &&& after_end(c, end_line(d)) == b
        }),
{
    let c = open_line(d) + f + end_line(d) + b;
    let g = seq![0x0Au8] + f;
    let h = c.skip(3);
    assert(c.subrange(0, 4) =~= open_line(d));
    assert(h =~= g + end_line(d) + b);
    lemma_find_from(g, close_mark(d), 0);
    let k: int = g.len() as int;
    assert(h.subrange(k, k + 4) =~= close_mark(d));
    assert forall|j: int| 0 <= j < k implies !occurs_at(h, close_mark(d), j) by {
        if occurs_at(h, close_mark(d), j) {
            if j + 4 <= k {
                assert(g.subrange(j, j + 4) =~= h.subrange(j, j + 4));
                assert(occurs_at(g, close_mark(d), j));
                assert(false);
            } else {
                let m = k - j;
                assert(1 <= m < 4);
                assert(h.subrange(j, j + 4)[m] == h[k]);
                assert(h[k] == 0x0A);
                assert(close_mark(d)[m] == d);
                assert(false);
            }
        }
    }
    lemma_find_at(h, close_mark(d), 0, k);
    assert(k >= 1);
    assert(c.subrange(4, 3 + k) =~= f);
    let e: int = 3 + k;
    assert(c.subrange(e, e + 5) =~= end_line(d));
    assert forall|j: int| 0 <= j < e implies !occurs_at(c, end_line(d), j) by {
        if occurs_at(c, end_line(d), j) {
            assert(c.subrange(j, j + 5)[0] == c[j]);
            if j < 3 {
                assert(c[j] == d);
                assert(false);
            } else {
                assert(c.subrange(j, j + 4) =~= h.subrange(j - 3, j + 1));
                assert(c.subrange(j, j + 4) =~= close_mark(d)) by {
                    assert forall|q: int| 0 <= q < 4 implies c.subrange(j, j + 4)[q] == close_mark(
                        d,
                    )[q] by {
                        assert(c.subrange(j, j + 5)[q] == end_line(d)[q]);
                    }
                }
                assert(occurs_at(h, close_mark(d), j - 3));
                assert(false);
            }
        }
    }
    lemma_find_at(c, end_line(d), 0, e);
    assert(c.skip(e + 5) =~= b);
}

/// Front matter in which `d`, `d`, `d` never occurs holds no line that
/// starts with them.
proof fn lemma_no_mark_no_line(f: Seq<u8>, d: u8)
    requires
        find_spec(f, seq![d, d, d]) is None,
    ensures
        find_spec(seq![0x0Au8] + f, close_mark(d)) is None,
{
    let g = seq![0x0Au8] + f;
    lemma_find_from(f, seq![d, d, d], 0);
    lemma_find_from(g, close_mark(d), 0);
    if let Some(k) = find_spec(g, close_mark(d)) {
        assert(f.subrange(k, k + 3) =~= seq![d, d, d]) by {
            assert forall|q: int| 0 <= q < 3 implies f.subrange(k, k + 3)[q] == seq![d, d, d][q] by {
                assert(g.subrange(k, k + 4)[q + 1] == close_mark(d)[q + 1]);
                assert(g[k + q + 1] == f[k + q]);
            }
        }
        assert(occurs_at(f, seq![d, d, d], k));
        assert(false);
    }
}

/// YAML front matter written between `---` lines is extracted exactly,
/// and the body after it is returned unchanged, provided no line of the
/// front matter starts with `---`.
pub proof fn law_yaml_frontmatter_roundtrip(s: &str, f: Seq<u8>, b: Seq<u8>)
    requires
        s.spec_bytes() == open_line(yaml_mark()) + f + end_line(yaml_mark()) + b,
        find_spec(seq![0x0Au8] + f, close_mark(yaml_mark())) is None,
    ensures
        raw_frontmatter_spec(s) == Some((f, b)),
{
    lemma_framed(yaml_mark(), f, b);
}

/// TOML front matter written between `+++` lines is extracted exactly,
/// and the body after it is returned unchanged, provided no line of the
/// front matter starts with `+++`.
pub proof fn law_toml_frontmatter_roundtrip(s: &str, f: Seq<u8>, b: Seq<u8>)
    requires
        s.spec_bytes() == open_line(toml_mark()) + f + end_line(toml_mark()) + b,
        find_spec(seq![0x0Au8] + f, close_mark(toml_mark())) is None,
    ensures
        raw_frontmatter_spec(s) == Some((f, b)),
{
    lemma_framed(toml_mark(), f, b);
    let c = s.spec_bytes();
    assert(c.subrange(0, 4)[0] == 0x2B);
    assert(!starts_with(c, open_line(yaml_mark()))) by {
        assert(c.subrange(0, 4)[0] != open_line(yaml_mark())[0]);
    }
}

/// YAML front matter with no `---` in it, written between `---` lines,
/// is extracted exactly, and the body after it is returned unchanged.
pub proof fn law_yaml_roundtrip_without_dashes(s: &str, f: Seq<u8>, b: Seq<u8>)
    requires
        s.spec_bytes() == open_line(yaml_mark()) + f + end_line(yaml_mark()) + b,
        find_spec(f, seq![0x2Du8, 0x2D, 0x2D]) is None,
    ensures
        raw_frontmatter_spec(s) == Some((f, b)),
{
    lemma_no_mark_no_line(f, yaml_mark());
    law_yaml_frontmatter_roundtrip(s, f, b);
}

/// TOML front matter with no `+++` in it, written between `+++` lines,
/// is extracted exactly, and the body after it is returned unchanged.
pub proof fn law_toml_roundtrip_without_pluses(s: &str, f: Seq<u8>, b: Seq<u8>)
    requires
        s.spec_bytes() == open_line(toml_mark()) + f + end_line(toml_mark()) + b,
        find_spec(f, seq![0x2Bu8, 0x2B, 0x2B]) is None,
    ensures
        raw_frontmatter_spec(s) == Some((f, b)),
{
    lemma_no_mark_no_line(f, toml_mark());
    law_toml_frontmatter_roundtrip(s, f, b);
}

/// Raw front matter that, after its leading whitespace, does not open
/// with `{` and holds an `=` somewhere is detected as TOML, whatever else
/// it holds (`:` among them); one that opens with `{` is detected as JSON.
pub proof fn law_equals_sign_means_toml(raw: Seq<char>, j: int)
    requires
        0 <= j < trim_start_chars(raw).len(),
        trim_start_chars(raw)[j] == '=',
        trim_start_chars(raw)[0] != '{',
    ensures
        format_of(trimmed_bytes(raw)) == Format::Toml,
{
    let s = trim_start_chars(raw);
    let t = trimmed_bytes(raw);
    crate::text::lemma_encode_at(s, 0);
    crate::text::lemma_encode_at(s, j);
    assert(s.take(0) =~= Seq::<char>::empty());
    assert(encode_utf8(Seq::<char>::empty()).len() == 0);
    let k = encode_utf8(s.take(j)).len() as int;
    assert(t[k] == 0x3D) by {
        assert(encode_scalar('=' as u32)[0] as u32 == 0x3D) by {
            crate::text::lemma_lead_byte('=');
            assert(has_width_1_encoding('=' as u32));
            assert('=' as u32 == 0x3D);
            assert((0x3Du32 & 0x7F) as u8 == 0x3Du8) by (bit_vector);
        }
    }
    assert(t[0] != 0x7B) by {
        crate::text::lemma_lead_byte(s[0]);
        assert(encode_utf8(s.take(0)).len() == 0);
        assert('{' as u32 == 0x7B);
        vstd::utf8::char_u32_cast(s[0], s[0] as u32);
        vstd::utf8::char_u32_cast('{', 0x7B);
        assert(s[0] as u32 != 0x7B);
    }
}

/// Raw front matter that, after its leading whitespace, opens with `{`
/// is detected as JSON.
pub proof fn law_open_brace_means_json(raw: Seq<char>)
    requires
        trim_start_chars(raw).len() > 0,
        trim_start_chars(raw)[0] == '{',
    ensures
        format_of(trimmed_bytes(raw)) == Format::Json,
{
    let s = trim_start_chars(raw);
    crate::text::lemma_encode_at(s, 0);
    assert(s.take(0) =~= Seq::<char>::empty());
    assert(encode_utf8(Seq::<char>::empty()).len() == 0);
    assert('{' as u32 == 0x7B);
    assert((0x7Bu32 & 0x7F) as u8 == 0x7Bu8) by (bit_vector);
}

} // verus!
