//! # Frontmatter Gen
//!
//! A library for working with front matter in YAML, TOML and JSON:
//! recognising and extracting it from content, checking content against
//! security limits, validating parsed front matter, and the configuration
//! and command model of the static site generator built on it.

use vstd::prelude::*;
use vstd::string::StringSliceAdditionalSpecFns;

pub mod cli;
pub mod config;
pub mod document;
pub mod engine;
pub mod error;
pub mod extractor;
pub mod launch;
pub mod parser;
pub mod ssg;
pub mod text;
pub mod types;
pub mod utils;

pub use crate::config::Config;
pub use crate::error::Error;
pub use crate::extractor::{detect_format, extract_raw_frontmatter};
pub use crate::types::{Format, Frontmatter, Value};

use crate::text::{
    decimal,
    find_byte_from, find_bytes, find_spec, has_byte, lemma_ascii_boundaries, lemma_find_from,
    lemma_str_valid, starts_with, trimmed_bytes,
};
use vstd::utf8::{decode_utf8, is_char_boundary, is_char_boundary_start_end_of_seq};

verus! {

broadcast use vstd::utf8::encode_utf8_valid_utf8, vstd::utf8::encode_utf8_decode_utf8,
    vstd::string::group_string_axioms;

/// Maximum size allowed for frontmatter content (1MB).
pub const MAX_FRONTMATTER_SIZE: usize = 1048576;

/// Maximum allowed nesting depth for structured data.
pub const MAX_NESTING_DEPTH: usize = 32;

/// Configuration options for parsing operations.
///
/// Provides fine-grained control over parsing behaviour and security limits.
/// Both limits are positive.
#[derive(Debug, Clone, Copy)]
pub struct ParseOptions {
    /// Maximum allowed content size
    pub max_size: usize,
    /// Maximum allowed nesting depth
    pub max_depth: usize,
    /// Whether to validate content structure
    pub validate: bool,
}

/// The three backticks that open or close a fenced code block.
pub open spec fn backtick_fence() -> Seq<u8> {
    seq![0x60u8, 0x60, 0x60]
}

/// The three tildes that open or close a fenced code block.
pub open spec fn tilde_fence() -> Seq<u8> {
    seq![0x7Eu8, 0x7E, 0x7E]
}

/// `../`
pub open spec fn dotdot_slash() -> Seq<u8> {
    seq![0x2Eu8, 0x2E, 0x2F]
}

/// `..\`
pub open spec fn dotdot_backslash() -> Seq<u8> {
    seq![0x2Eu8, 0x2E, 0x5C]
}

/// After its leading whitespace, the line opens or closes a fenced code block.
pub open spec fn is_fence_line(line: Seq<u8>) -> bool {
    let t = trimmed_bytes(decode_utf8(line));
    starts_with(t, backtick_fence()) || starts_with(t, tilde_fence())
}

/// The line holds a path traversal pattern.
pub open spec fn has_traversal(line: Seq<u8>) -> bool {
    find_spec(line, dotdot_slash()) is Some || find_spec(line, dotdot_backslash()) is Some
}

/// The end of the line that starts at byte `start`: the next newline or the end.
pub open spec fn line_end(c: Seq<u8>, start: int) -> int
    decreases c.len() - start,
{
    if start < 0 || start >= c.len() {
        c.len() as int
    } else if c[start] == 0x0A {
        start
    } else {
        line_end(c, start + 1)
    }
}

/// What the line-by-line check of content finds.
pub enum LineFinding {
    /// A line outside fenced code holds a path traversal pattern.
    Traversal,
    /// A line outside fenced code holds a null byte.
    NullByte,
    /// No line outside fenced code is suspicious.
    Clean,
}

/// Checks the lines of `c` from the one starting at byte `start`; `inside`
/// tells whether that line is inside a fenced code block.
pub open spec fn scan_lines(c: Seq<u8>, start: int, inside: bool) -> LineFinding
    decreases c.len() + 1 - start,
{
    if start < 0 || start > c.len() {
        LineFinding::Clean
    } else {
        let end = line_end(c, start);
        let line = c.subrange(start, end);
        let next_inside = if is_fence_line(line) { !inside } else { inside };
        if !is_fence_line(line) && !inside && has_traversal(line) {
            LineFinding::Traversal
        } else if !is_fence_line(line) && !inside && has_byte(line, 0) {
            LineFinding::NullByte
        } else if end >= c.len() {
            LineFinding::Clean
        } else {
            proof {
                lemma_line_end_bounds(c, start);
            }
            scan_lines(c, end + 1, next_inside)
        }
    }
}

pub proof fn lemma_line_end_bounds(c: Seq<u8>, start: int)
    requires
        0 <= start <= c.len(),
    ensures
        start <= line_end(c, start) <= c.len(),
    decreases c.len() - start,
{
    if start < c.len() && c[start] != 0x0A {
        lemma_line_end_bounds(c, start + 1);
    }
}

proof fn lemma_line_end(c: Seq<u8>, start: int, j: int)
    requires
        0 <= start <= j <= c.len(),
        j < c.len() ==> c[j] == 0x0A,
        forall|k: int| start <= k < j ==> c[k] != 0x0A,
    ensures
        line_end(c, start) == j,
    decreases j - start,
{
    if start < j {
        lemma_line_end(c, start + 1, j);
    }
}

/// Validates input content against security constraints.
///
/// Outside fenced code blocks (opened and closed by a line that starts
/// with three backticks or three tildes after leading whitespace) no line
/// may hold `../`, `..\` or a null byte; and the content may not exceed
/// `options.max_size` bytes.
pub fn validate_input(content: &str, options: &ParseOptions) -> (r: Result<(), Error>)
    ensures
        match scan_lines(content.spec_bytes(), 0, false) {
            LineFinding::Traversal => r matches Err(Error::ValidationError(m)) && m@
                == "Content contains path traversal patterns"@,
            LineFinding::NullByte => r matches Err(Error::ValidationError(m)) && m@
                == "Content contains null bytes"@,
            LineFinding::Clean => if content.spec_bytes().len() > options.max_size {
                r matches Err(Error::ContentTooLarge { size, max }) && size
                    == content.spec_bytes().len() && max == options.max_size
            } else {
                r is Ok
            },
        },
{
    let c = content.as_bytes();
    proof {
        lemma_str_valid(content);
    }
    let slash: [u8; 3] = [0x2E, 0x2E, 0x2F];
    let backslash: [u8; 3] = [0x2E, 0x2E, 0x5C];
    let ticks: [u8; 3] = [0x60, 0x60, 0x60];
    let tildes: [u8; 3] = [0x7E, 0x7E, 0x7E];
    proof {
        assert(slash@ =~= dotdot_slash());
        assert(backslash@ =~= dotdot_backslash());
        assert(ticks@ =~= backtick_fence());
        assert(tildes@ =~= tilde_fence());
    }
    let mut inside = false;
    let mut start: usize = 0;
    loop
        invariant
            c@ == content.spec_bytes(),
            c@.len() == c.len(),
            start <= c@.len(),
            start == 0 || c@[start - 1] == 0x0A,
            scan_lines(c@, 0, false) == scan_lines(c@, start as int, inside),
            slash@ == dotdot_slash(),
            backslash@ == dotdot_backslash(),
            ticks@ == backtick_fence(),
            tildes@ == tilde_fence(),
        ensures
            scan_lines(c@, 0, false) == LineFinding::Clean,
        decreases c@.len() + 1 - start,
    {
        let end = match find_byte_from(c, 0x0A, start) {
            Some(j) => j,
            None => c.len(),
        };
        proof {
            lemma_line_end(c@, start as int, end as int);
            if start > 0 {
                lemma_ascii_boundaries(c@, start - 1);
            } else {
                is_char_boundary_start_end_of_seq(c@);
            }
            if end < c.len() {
                lemma_ascii_boundaries(c@, end as int);
            } else {
                is_char_boundary_start_end_of_seq(c@);
            }
        }
        let (_, from_start) = content.split_at(start);
        proof {
            lemma_str_valid(from_start);
            assert(from_start.spec_bytes() =~= c@.skip(start as int));
            assert(c@ =~= c@.take(start as int) + from_start.spec_bytes());
            if end < c.len() {
                assert(from_start.spec_bytes()[end - start] == c@[end as int]);
                lemma_ascii_boundaries(from_start.spec_bytes(), end - start);
            } else {
                is_char_boundary_start_end_of_seq(from_start.spec_bytes());
            }
        }
        let (line, _) = from_start.split_at(end - start);
        let lb = line.as_bytes();
        proof {
            lemma_str_valid(line);
            assert(lb@ =~= c@.subrange(start as int, end as int));
        }
        let trimmed = crate::text::trim_start(line);
        let tb = trimmed.as_bytes();
        proof {
            lemma_str_valid(trimmed);
            assert(tb@ == trimmed_bytes(decode_utf8(lb@)));
        }
        let fence = crate::text::matches_at(tb, vstd::array::array_as_slice(&ticks), 0)
            || crate::text::matches_at(tb, vstd::array::array_as_slice(&tildes), 0);
        if fence {
            inside = !inside;
        } else if !inside {
            let traversal = find_bytes(lb, vstd::array::array_as_slice(&slash)).is_some()
                || find_bytes(lb, vstd::array::array_as_slice(&backslash)).is_some();
            if traversal {
                return Err(Error::ValidationError("Content contains path traversal patterns".to_string()));
            }
            if crate::text::contains_byte(lb, 0) {
                return Err(Error::ValidationError("Content contains null bytes".to_string()));
            }
        }
        if end >= c.len() {
            break;
        }
        start = end + 1;
    }
    if c.len() > options.max_size {
        return Err(Error::ContentTooLarge { size: c.len(), max: options.max_size });
    }
    Ok(())
}

impl Default for ParseOptions {
    /// The default options: 1MB of content, 32 levels of nesting, validation on.
    fn default() -> (r: Self)
        ensures
            r.max_size == MAX_FRONTMATTER_SIZE,
            r.max_depth == MAX_NESTING_DEPTH,
            r.validate,
    {
        ParseOptions { max_size: MAX_FRONTMATTER_SIZE, max_depth: MAX_NESTING_DEPTH, validate: true }
    }
}

/// The value of a run of ASCII decimal digits.
pub open spec fn digits_value(d: Seq<char>) -> nat
    decreases d.len(),
{
    if d.len() == 0 {
        0
    } else {
        digits_value(d.drop_last()) * 10 + ((d.last() as u32) - 0x30) as nat
    }
}

/// Every character is an ASCII decimal digit.
pub open spec fn all_digits(d: Seq<char>) -> bool {
    forall|i: int| 0 <= i < d.len() ==> '0' <= #[trigger] d[i] <= '9'
}

/// The number that `s` spells as `usize::from_str` reads it: an optional
/// `+`, then one or more ASCII digits, of a value that fits in `usize`.
pub open spec fn usize_text(s: Seq<char>) -> Option<usize> {
    let d = if s.len() > 0 && s[0] == '+' {
        s.drop_first()
    } else {
        s
    };
    if d.len() > 0 && all_digits(d) && digits_value(d) <= usize::MAX {
        Some(digits_value(d) as usize)
    } else {
        None
    }
}

/// More digits never spell a smaller number.
proof fn lemma_digits_grow(d: Seq<char>, k: int)
    requires
        0 <= k <= d.len(),
        all_digits(d),
    ensures
        digits_value(d.take(k)) <= digits_value(d),
    decreases d.len() - k,
{
    if k < d.len() {
        let t = d.drop_last();
        assert(t.take(k) =~= d.take(k));
        assert(all_digits(t)) by {
            assert forall|i: int| 0 <= i < t.len() implies '0' <= #[trigger] t[i] <= '9' by {
                assert(t[i] == d[i]);
            }
        }
        lemma_digits_grow(t, k);
    } else {
        assert(d.take(k) =~= d);
    }
}

/// Reads a `usize` as `str::parse::<usize>` does: an optional `+`, then
/// one or more ASCII digits, of a value that fits.
pub fn parse_usize(s: &str) -> (r: Option<usize>)
    ensures
        r == usize_text(s@),
{
    let n = s.unicode_len();
    let mut i: usize = 0;
    if n > 0 && s.get_char(0) == '+' {
        i = 1;
    }
    let ghost start = i as int;
    let ghost d = s@.skip(start);
    proof {
        assert(d =~= if s@.len() > 0 && s@[0] == '+' { s@.drop_first() } else { s@ });
    }
    if i >= n {
        return None;
    }
    let mut value: usize = 0;
    while i < n
        invariant
            n == s@.len(),
            0 <= start <= i <= n,
            start < n,
            d == s@.skip(start),
            d == (if s@.len() > 0 && s@[0] == '+' {
                s@.drop_first()
            } else {
                s@
            }),
            forall|k: int| start <= k < i ==> '0' <= #[trigger] s@[k] <= '9',
            value == digits_value(s@.subrange(start, i as int)),
        decreases n - i,
    {
        let c = s.get_char(i);
        proof {
            assert(s@.subrange(start, i + 1).drop_last() =~= s@.subrange(start, i as int));
            assert(s@.subrange(start, i + 1).last() == c);
        }
        if c < '0' || c > '9' {
            proof {
                assert(d[i - start] == c);
                assert(!all_digits(d));
            }
            return None;
        }
        let digit = (c as u32 - 0x30) as usize;
        let next = match value.checked_mul(10) {
            Some(v) => v.checked_add(digit),
            None => None,
        };
        match next {
            Some(v) => {
                value = v;
            },
            None => {
                proof {
                    assert(digits_value(s@.subrange(start, i + 1)) > usize::MAX);
                    if all_digits(d) {
                        lemma_digits_grow(d, i + 1 - start);
                        assert(d.take(i + 1 - start) =~= s@.subrange(start, i + 1));
                    }
                }
                return None;
            },
        }
        i = i + 1;
    }
    proof {
        assert(s@.subrange(start, n as int) =~= d);
    }
    Some(value)
}

/// `true`, whatever the case of its letters.
pub open spec fn is_true_text(s: Seq<char>) -> bool {
    &&& s.len() == 4
    &&& s[0] == 't' || s[0] == 'T'
    &&& s[1] == 'r' || s[1] == 'R'
    &&& s[2] == 'u' || s[2] == 'U'
    &&& s[3] == 'e' || s[3] == 'E'
}

/// Compares with `true`, ignoring the case of ASCII letters, as
/// `str::eq_ignore_ascii_case` does.
fn is_true(s: &str) -> (r: bool)
    ensures
        r == is_true_text(s@),
{
    let b = s.as_bytes();
    proof {
        lemma_str_valid(s);
        if is_true_text(s@) {
            crate::text::lemma_encode_ascii(s@);
        }
    }
    if b.len() != 4 {
        return false;
    }
    let r = (b[0] == 0x74 || b[0] == 0x54) && (b[1] == 0x72 || b[1] == 0x52) && (b[2] == 0x75
        || b[2] == 0x55) && (b[3] == 0x65 || b[3] == 0x45);
    proof {
        if r {
            crate::text::lemma_ascii_decode(b@);
            assert(s@ == decode_utf8(b@));
        }
    }
    r
}

/// A limit read from text, or the default where the text is missing,
/// does not spell a number, or spells zero.
pub open spec fn limit_from(text: Option<&str>, default: usize) -> usize {
    match text {
        Some(t) => match usize_text(t@) {
            Some(n) => if n > 0 {
                n
            } else {
                default
            },
            None => default,
        },
        None => default,
    }
}

impl ParseOptions {
    /// The options that the environment sets, from the values of
    /// `MAX_FRONTMATTER_SIZE`, `MAX_NESTING_DEPTH` and `VALIDATE_STRUCTURE`
    /// (`None` where a variable is unset or not Unicode): a limit that does
    /// not spell a number, or spells zero, keeps its default, so both limits
    /// are positive; validation is on unless the variable is set to
    /// something other than `true` (in any case).
    pub fn from_env_values(
        max_size: Option<&str>,
        max_depth: Option<&str>,
        validate: Option<&str>,
    ) -> (r: Self)
        ensures
            r.max_size == limit_from(max_size, MAX_FRONTMATTER_SIZE),
            r.max_depth == limit_from(max_depth, MAX_NESTING_DEPTH),
            r.validate == match validate {
                Some(t) => is_true_text(t@),
                None => true,
            },
    {
        let size = match max_size {
            Some(t) => match parse_usize(t) {
                Some(n) => if n > 0 {
                    n
                } else {
                    MAX_FRONTMATTER_SIZE
                },
                None => MAX_FRONTMATTER_SIZE,
            },
            None => MAX_FRONTMATTER_SIZE,
        };
        let depth = match max_depth {
            Some(t) => match parse_usize(t) {
                Some(n) => if n > 0 {
                    n
                } else {
                    MAX_NESTING_DEPTH
                },
                None => MAX_NESTING_DEPTH,
            },
            None => MAX_NESTING_DEPTH,
        };
        let check = match validate {
            Some(t) => is_true(t),
            None => true,
        };
        ParseOptions { max_size: size, max_depth: depth, validate: check }
    }
}

/// The digits of `n` are digits, and spell `n`.
proof fn lemma_decimal_digits(n: nat)
    ensures
        decimal(n).len() > 0,
        all_digits(decimal(n)),
        digits_value(decimal(n)) == n,
    decreases n,
{
    if n >= 10 {
        lemma_decimal_digits(n / 10);
        let d = decimal(n);
        assert(d.drop_last() =~= decimal(n / 10));
        assert forall|i: int| 0 <= i < d.len() implies '0' <= #[trigger] d[i] <= '9' by {
            if i < d.len() - 1 {
                assert(d[i] == decimal(n / 10)[i]);
            }
        }
        assert(((d.last() as u32) - 0x30) as nat == n % 10);
        assert((n / 10) * 10 + n % 10 == n) by (nonlinear_arith);
        assert(digits_value(d.drop_last()) == n / 10);
        assert(digits_value(d) == digits_value(d.drop_last()) * 10 + ((d.last() as u32) - 0x30) as nat);
    } else {
        let d = decimal(n);
        assert(d.drop_last() =~= Seq::<char>::empty());
        assert(((d.last() as u32) - 0x30) as nat == n);
        assert(digits_value(d) == digits_value(d.drop_last()) * 10 + ((d.last() as u32) - 0x30) as nat);
    }
}

/// Reading back the decimal text of a number gives the number.
pub proof fn law_decimal_reads_back(n: usize)
    ensures
        usize_text(decimal(n as nat)) == Some(n),
{
    lemma_decimal_digits(n as nat);
    assert('0' <= decimal(n as nat)[0] <= '9');
}

/// Content passes [`validate_input`] under `options`.
pub open spec fn input_accepted(content: &str, options: ParseOptions) -> bool {
    scan_lines(content.spec_bytes(), 0, false) is Clean && content.spec_bytes().len()
        <= options.max_size
}

/// The steps of extraction that come before parsing: the content is
/// validated against `options`, its raw front matter and the rest of the
/// content are found, and the front matter's format is detected. The
/// first step that fails gives its error unchanged.
pub fn extract_parts<'a>(content: &'a str, options: &ParseOptions) -> (r: Result<
    (&'a str, Format, &'a str),
    Error,
>)
    ensures
        !input_accepted(content, *options) ==> r is Err && (r matches Err(e) ==> validate_input_result_is(e, content, *options)),
        input_accepted(content, *options) ==> match extractor::raw_frontmatter_spec(content) {
            Some((f, rest)) => r matches Ok((a, fmt, b)) && a.spec_bytes() == f && b.spec_bytes()
                == rest && fmt == extractor::format_of(trimmed_bytes(decode_utf8(f))),
            None => r matches Err(Error::InvalidFormat),
        },
        r matches Ok((a, _, b)) ==> crate::text::part_of(a.spec_bytes(), content.spec_bytes())
            && crate::text::suffix_of(b.spec_bytes(), content.spec_bytes()),
{
    match validate_input(content, options) {
        Ok(()) => {},
        Err(e) => {
            return Err(e);
        },
    }
    let (raw, rest) = match extract_raw_frontmatter(content) {
        Ok(parts) => parts,
        Err(e) => {
            return Err(e);
        },
    };
    proof {
        lemma_str_valid(raw);
    }
    let format = match detect_format(raw) {
        Ok(f) => f,
        Err(e) => {
            return Err(e);
        },
    };
    Ok((raw, format, rest))
}

/// Extracts and parses the front matter of `content`, with its format
/// detected, and returns it with the rest of the content.
///
/// The steps are those of [`extract_parts`], then [`parser::parse`] of the
/// raw front matter in the detected format with the default options; the
/// first step that fails gives its error unchanged.
pub fn extract<'a>(content: &'a str, options: &ParseOptions) -> (r: Result<(Frontmatter, &'a str), Error>)
    ensures
        !input_accepted(content, *options) ==> r is Err && (r matches Err(e) ==> validate_input_result_is(e, content, *options)),
        input_accepted(content, *options) ==> match extractor::raw_frontmatter_spec(content) {
            Some((f, rest)) => exists|p: Result<Frontmatter, Error>|
                #[trigger] parser::parse_result_is(
                    p,
                    decode_utf8(f),
                    extractor::format_of(trimmed_bytes(decode_utf8(f))),
                    None,
                ) && match p {
                    Ok(fm) => r matches Ok((g, b)) && g == fm && b.spec_bytes() == rest,
                    Err(e) => r == Err::<(Frontmatter, &str), Error>(e),
                },
            None => r matches Err(Error::InvalidFormat),
        },
        r matches Ok((_, b)) ==> crate::text::suffix_of(b.spec_bytes(), content.spec_bytes()),
{
    let (raw, format, rest) = match extract_parts(content, options) {
        Ok(parts) => parts,
        Err(e) => {
            return Err(e);
        },
    };
    proof {
        lemma_str_valid(raw);
    }
    let p = parser::parse(raw, format);
    match p {
        Ok(fm) => Ok((fm, rest)),
        Err(e) => Err(e),
    }
}

/// `e` is the error that [`validate_input`] gives for content it refuses.
pub open spec fn validate_input_result_is(e: Error, content: &str, options: ParseOptions) -> bool {
    match scan_lines(content.spec_bytes(), 0, false) {
        LineFinding::Traversal => e matches Error::ValidationError(m) && m@
            == "Content contains path traversal patterns"@,
        LineFinding::NullByte => e matches Error::ValidationError(m) && m@
            == "Content contains null bytes"@,
        LineFinding::Clean => e matches Error::ContentTooLarge { size, max } && size
            == content.spec_bytes().len() && max == options.max_size,
    }
}

/// A line that, after its leading whitespace, starts with three
/// backticks or three tildes, whatever follows them (a language tag among
/// others), opens or closes a fenced code block: checking goes on with the
/// next line, inside the block where it was outside and outside where it
/// was inside, and the line itself is never refused.
pub proof fn law_fence_line_toggles(c: Seq<u8>, start: int, inside: bool)
    requires
        0 <= start <= c.len(),
        starts_with(trimmed_bytes(decode_utf8(c.subrange(start, line_end(c, start)))), backtick_fence())
            || starts_with(trimmed_bytes(decode_utf8(c.subrange(start, line_end(c, start)))), tilde_fence()),
    ensures
        line_end(c, start) < c.len() ==> scan_lines(c, start, inside) == scan_lines(
            c,
            line_end(c, start) + 1,
            !inside,
        ),
        line_end(c, start) >= c.len() ==> scan_lines(c, start, inside) == LineFinding::Clean,
{
    lemma_line_end_bounds(c, start);
}

/// A line inside a fenced code block that does not close the block is not
/// checked, whatever it holds: checking goes on with the next line, still
/// inside the block, or finds nothing where it was the last line.
pub proof fn law_fenced_line_skipped(c: Seq<u8>, start: int)
    requires
        0 <= start <= c.len(),
        !is_fence_line(c.subrange(start, line_end(c, start))),
    ensures
        line_end(c, start) < c.len() ==> scan_lines(c, start, true) == scan_lines(
            c,
            line_end(c, start) + 1,
            true,
        ),
        line_end(c, start) >= c.len() ==> scan_lines(c, start, true) == LineFinding::Clean,
{
    lemma_line_end_bounds(c, start);
}

/// A line outside fenced code that holds `../` or `..\` and does not open
/// a block is refused as a path traversal, whatever follows it.
pub proof fn law_traversal_outside_fence_refused(c: Seq<u8>, start: int)
    requires
        0 <= start <= c.len(),
        !is_fence_line(c.subrange(start, line_end(c, start))),
        has_traversal(c.subrange(start, line_end(c, start))),
    ensures
        scan_lines(c, start, false) == LineFinding::Traversal,
{
}

} // verus!
