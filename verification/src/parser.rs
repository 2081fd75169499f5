//! Parsing support for front matter in YAML, TOML and JSON.
//!
//! The text of each format is read into a [`Frontmatter`] by its parser;
//! around that step this module decides what is accepted: which input a
//! format's parser is handed ([`validate_format_input`]), which parsed
//! front matter passes the configured limits ([`validate_frontmatter`],
//! [`validate_parsed`]), which formats can be written out
//! ([`check_output_format`]), and how large the JSON text of a front
//! matter is estimated to be ([`estimate_json_size`]).

use crate::document::{json_frontmatter_is, parse_json, parse_toml, parse_yaml, toml_frontmatter_is, yaml_frontmatter_is};
use crate::error::Error;
use crate::text::{has_byte, lemma_str_valid, starts_with, trim, trim_chars};
use crate::types::{
    entries_depth, entries_map, entries_size_estimate, keys_sorted, lemma_entries_depth_grows,
    lemma_entry_decreases, lemma_map_dom, lemma_map_index, lemma_values_depth_grows, string_bytes,
    value_depth, value_size_estimate, values_depth, values_size_estimate, Format, Frontmatter, Value,
};
use vstd::prelude::*;
use vstd::string::StringSliceAdditionalSpecFns;
use vstd::utf8::encode_utf8;

verus! {

broadcast use vstd::string::group_string_axioms;

/// Strings up to this many bytes are copied without reserving capacity first.
pub const SMALL_STRING_SIZE: usize = 24;

/// Default maximum nesting depth of parsed front matter.
pub const MAX_NESTING_DEPTH: usize = 32;

/// Default maximum number of top-level keys of parsed front matter.
pub const MAX_KEYS: usize = 1000;

/// Options for controlling parsing behaviour.
///
/// Provides configuration for maximum allowed nesting depth, maximum number of keys,
/// and whether to perform validation.
#[derive(Debug, Clone, Copy)]
pub struct ParseOptions {
    /// Maximum allowed nesting depth.
    pub max_depth: usize,
    /// Maximum allowed number of keys.
    pub max_keys: usize,
    /// Whether to validate the structure.
    pub validate: bool,
}

impl Default for ParseOptions {
    /// Depth 32, 1000 keys, validation on.
    fn default() -> (r: Self)
        ensures
            r.max_depth == MAX_NESTING_DEPTH,
            r.max_keys == MAX_KEYS,
            r.validate,
    {
        ParseOptions { max_depth: MAX_NESTING_DEPTH, max_keys: MAX_KEYS, validate: true }
    }
}

/// The options that apply when none are given.
pub open spec fn options_or_default(options: Option<ParseOptions>) -> ParseOptions {
    match options {
        Some(o) => o,
        None => ParseOptions { max_depth: MAX_NESTING_DEPTH, max_keys: MAX_KEYS, validate: true },
    }
}

/// Calls `String::with_capacity`, documented as creating an empty string.
#[verifier::external_body]
fn string_with_capacity(capacity: usize) -> (r: String)
    ensures
        r@ == Seq::<char>::empty(),
{
    String::with_capacity(capacity)
}

/// Copies a string slice into an owned `String`; longer strings get their
/// exact capacity reserved first.
pub fn optimise_string(s: &str) -> (r: String)
    ensures
        r@ == s@,
{
    if s.len() <= SMALL_STRING_SIZE {
        s.to_string()
    } else {
        let mut string = string_with_capacity(s.len());
        string.append(s);
        string
    }
}

/// What checking a front matter against `max_depth` and `max_keys` gives:
/// too many keys, then too deep a value (reported one level past the
/// limit), else success.
pub open spec fn validation_outcome(fm: Frontmatter, max_depth: usize, max_keys: usize) -> Result<
    (),
    Error,
> {
    if fm.map().dom().len() > max_keys {
        Err(Error::ContentTooLarge { size: fm.map().dom().len() as usize, max: max_keys })
    } else if forall|k: Seq<char>|
        fm.map().contains_key(k) ==> value_depth(#[trigger] fm.map()[k]) <= max_depth {
        Ok(())
    } else {
        Err(Error::NestingTooDeep { depth: (max_depth + 1) as usize, max: max_depth })
    }
}

/// Validates a front matter structure against configured limits: no more
/// than `max_keys` keys, and no value nested deeper than `max_depth`.
///
/// A value nested more than `usize::MAX` levels cannot be held in memory,
/// so `max_depth` is below `usize::MAX`.
pub fn validate_frontmatter(fm: &Frontmatter, max_depth: usize, max_keys: usize) -> (r: Result<
    (),
    Error,
>)
    requires
        max_depth < usize::MAX,
    ensures
        r == validation_outcome(*fm, max_depth, max_keys),
{
    let n = fm.len();
    if n > max_keys {
        return Err(Error::ContentTooLarge { size: n, max: max_keys });
    }
    let entries = fm.as_slice();
    let mut i: usize = 0;
    while i < entries.len()
        invariant
            i <= entries@.len(),
            max_depth < usize::MAX,
            keys_sorted(entries@),
            entries_map(entries@) == fm.map(),
            fm.map().dom().len() <= max_keys,
            forall|j: int| 0 <= j < i ==> value_depth(#[trigger] entries@[j].1) <= max_depth,
        decreases entries@.len() - i,
    {
        match check_depth(&entries[i].1, 1, max_depth) {
            Ok(()) => {},
            Err(e) => {
                proof {
                    lemma_map_index(entries@, i as int);
                    assert(value_depth(fm.map()[entries@[i as int].0@]) > max_depth);
                }
                return Err(e);
            },
        }
        i = i + 1;
    }
    proof {
        assert forall|k: Seq<char>| fm.map().contains_key(k) implies value_depth(
            #[trigger] fm.map()[k],
        ) <= max_depth by {
            lemma_map_dom(entries@, k);
            let j = choose|j: int| 0 <= j < entries@.len() && entries@[j].0@ == k;
            lemma_map_index(entries@, j);
        }
    }
    Ok(())
}

/// Recursively checks the nesting depth of a value found at level
/// `current_depth`.
fn check_depth(value: &Value, current_depth: usize, max_depth: usize) -> (r: Result<(), Error>)
    requires
        1 <= current_depth <= max_depth + 1,
        max_depth < usize::MAX,
    ensures
        r is Ok <==> current_depth - 1 + value_depth(*value) <= max_depth,
        r is Err ==> r == Err::<(), Error>(
            Error::NestingTooDeep { depth: (max_depth + 1) as usize, max: max_depth },
        ),
    decreases max_depth + 1 - current_depth,
{
    if current_depth > max_depth {
        return Err(Error::NestingTooDeep { depth: current_depth, max: max_depth });
    }
    match value {
        Value::Array(arr) => {
            let mut i: usize = 0;
            while i < arr.len()
                invariant
                    i <= arr@.len(),
                    1 <= current_depth <= max_depth,
                    max_depth < usize::MAX,
                    *value == Value::Array(*arr),
                    current_depth + values_depth(arr@, i as nat) <= max_depth,
                decreases arr@.len() - i,
            {
                match check_depth(&arr[i], current_depth + 1, max_depth) {
                    Ok(()) => {},
                    Err(e) => {
                        proof {
                            lemma_values_depth_grows(arr@, (i + 1) as nat, arr@.len());
                        }
                        return Err(e);
                    },
                }
                i = i + 1;
            }
        },
        Value::Object(obj) => {
            let entries = obj.as_slice();
            let mut i: usize = 0;
            while i < entries.len()
                invariant
                    i <= entries@.len(),
                    1 <= current_depth <= max_depth,
                    max_depth < usize::MAX,
                    *value == Value::Object(*obj),
                    entries@ == obj.entry_seq(),
                    current_depth + entries_depth(entries@, i as nat) <= max_depth,
                decreases entries@.len() - i,
            {
                match check_depth(&entries[i].1, current_depth + 1, max_depth) {
                    Ok(()) => {},
                    Err(e) => {
                        proof {
                            lemma_entries_depth_grows(entries@, (i + 1) as nat, entries@.len());
                        }
                        return Err(e);
                    },
                }
                i = i + 1;
            }
        },
        _ => {},
    }
    Ok(())
}

/// `n`, or `usize::MAX` where `n` does not fit.
pub open spec fn capped(n: nat) -> usize {
    if n > usize::MAX {
        usize::MAX
    } else {
        n as usize
    }
}

/// Estimates the JSON string size for a front matter object, for
/// pre-allocating buffers in serialisation; a total past `usize::MAX`
/// is reported as `usize::MAX`.
pub fn estimate_json_size(fm: &Frontmatter) -> (r: usize)
    ensures
        r == capped(entries_size_estimate(fm.entry_seq(), fm.entry_seq().len())),
    decreases fm,
{
    let entries = fm.as_slice();
    let mut size: usize = 2;
    let mut i: usize = 0;
    while i < entries.len()
        invariant
            i <= entries@.len(),
            entries@ == fm.entry_seq(),
            size == capped(entries_size_estimate(entries@, i as nat)),
        decreases entries@.len() - i,
    {
        let key = entries[i].0.as_str();
        proof {
            lemma_str_valid(key);
            lemma_entry_decreases(*fm, i as int);
        }
        let v = estimate_value_size(&entries[i].1);
        size = size.saturating_add(key.as_bytes().len());
        size = size.saturating_add(3);
        size = size.saturating_add(v);
        size = size.saturating_add(1);
        i = i + 1;
    }
    size
}

/// Estimates the serialised size of a value; a total past `usize::MAX`
/// is reported as `usize::MAX`.
pub fn estimate_value_size(value: &Value) -> (r: usize)
    ensures
        r == capped(value_size_estimate(*value)),
    decreases value,
{
    match value {
        Value::Null => 4,
        Value::String(s) => {
            let t = s.as_str();
            let b = t.as_bytes();
            proof {
                lemma_str_valid(t);
            }
            b.len().saturating_add(2)
        },
        Value::Number(_) => 8,
        Value::Boolean(_) => 5,
        Value::Array(arr) => estimate_values_size(arr).saturating_add(2),
        Value::Object(obj) => estimate_json_size(obj),
        Value::Tagged(tag, val) => {
            let t = tag.as_str();
            let b = t.as_bytes();
            proof {
                lemma_str_valid(t);
            }
            let inner = estimate_value_size(val);
            b.len().saturating_add(2).saturating_add(inner)
        },
    }
}

/// Estimates the serialised sizes of the items of an array, summed; a
/// total past `usize::MAX` is reported as `usize::MAX`.
fn estimate_values_size(arr: &Vec<Value>) -> (r: usize)
    ensures
        r == capped(values_size_estimate(arr@, arr@.len())),
    decreases arr,
{
    let mut size: usize = 0;
    let mut i: usize = 0;
    while i < arr.len()
        invariant
            i <= arr@.len(),
            size == capped(values_size_estimate(arr@, i as nat)),
        decreases arr@.len() - i,
    {
        assert(decreases_to!(arr => arr@[i as int]));
        size = size.saturating_add(estimate_value_size(&arr[i]));
        i = i + 1;
    }
    size
}

/// The message of the error for the unsupported format.
pub open spec fn unsupported_format_message() -> Seq<char> {
    "Unsupported format: Unsupported. Supported formats are YAML, TOML, and JSON."@
}

/// Checks raw front matter before it is handed to its format's parser and
/// returns the trimmed text to parse.
///
/// The unsupported format is refused; TOML must hold an `=` sign and JSON
/// must start with `{` once leading and trailing whitespace is trimmed.
pub fn validate_format_input(raw_front_matter: &str, format: Format) -> (r: Result<&str, Error>)
    ensures
        format == Format::Unsupported ==> (r matches Err(Error::ConversionError(m)) && m@
            == unsupported_format_message()),
        format != Format::Unsupported ==> {
            let t = encode_utf8(trim_chars(raw_front_matter@));
            if format == Format::Toml && !has_byte(t, 0x3D) {
                r matches Err(Error::ConversionError(m)) && m@
                    == "Format set to TOML but input does not contain '=' signs."@
            } else if format == Format::Json && !starts_with(t, seq![0x7Bu8]) {
                r matches Err(Error::ConversionError(m)) && m@
                    == "Format set to JSON but input does not start with '{'."@
            } else {
                r matches Ok(x) && x@ == trim_chars(raw_front_matter@)
            }
        },
{
    if format == Format::Unsupported {
        return Err(
            Error::ConversionError(
                "Unsupported format: Unsupported. Supported formats are YAML, TOML, and JSON.".to_string(),
            ),
        );
    }
    let trimmed = trim(raw_front_matter);
    let b = trimmed.as_bytes();
    proof {
        lemma_str_valid(trimmed);
    }
    match format {
        Format::Toml => {
            if !crate::text::contains_byte(b, 0x3D) {
                return Err(
                    Error::ConversionError(
                        "Format set to TOML but input does not contain '=' signs.".to_string(),
                    ),
                );
            }
        },
        Format::Json => {
            if b.len() == 0 || b[0] != 0x7B {
                proof {
                    assert(!starts_with(b@, seq![0x7Bu8])) by {
                        if b@.len() > 0 {
                            assert(b@.subrange(0, 1)[0] == b@[0]);
                        }
                    }
                }
                return Err(
                    Error::ConversionError(
                        "Format set to JSON but input does not start with '{'.".to_string(),
                    ),
                );
            }
            proof {
                assert(b@.subrange(0, 1) =~= seq![0x7Bu8]);
            }
        },
        _ => {},
    }
    Ok(trimmed)
}

/// What applying `options` to freshly parsed front matter gives: the
/// front matter itself, unless validation is on and refuses it.
pub open spec fn parsed_outcome(front_matter: Frontmatter, options: Option<ParseOptions>) -> Result<
    Frontmatter,
    Error,
> {
    let o = options_or_default(options);
    if !o.validate {
        Ok(front_matter)
    } else {
        match validation_outcome(front_matter, o.max_depth, o.max_keys) {
            Ok(()) => Ok(front_matter),
            Err(e) => Err(e),
        }
    }
}

/// Applies the parse options to freshly parsed front matter: with
/// validation on, the front matter must pass [`validate_frontmatter`]
/// under the options' limits (the defaults where none are given).
///
/// A value nested more than `usize::MAX` levels cannot be held in memory,
/// so a given `max_depth` is below `usize::MAX`.
pub fn validate_parsed(front_matter: Frontmatter, options: Option<ParseOptions>) -> (r: Result<
    Frontmatter,
    Error,
>)
    requires
        options_or_default(options).max_depth < usize::MAX,
    ensures
        r == parsed_outcome(front_matter, options),
{
    let options = match options {
        Some(o) => o,
        None => ParseOptions::default(),
    };
    if options.validate {
        match validate_frontmatter(&front_matter, options.max_depth, options.max_keys) {
            Ok(()) => {},
            Err(e) => {
                return Err(e);
            },
        }
    }
    Ok(front_matter)
}

/// `r` is the front matter that the trimmed text `t` gives in `format`,
/// before validation.
pub open spec fn document_is(r: Result<Frontmatter, Error>, t: Seq<char>, format: Format) -> bool {
    match format {
        Format::Yaml => yaml_frontmatter_is(r, t),
        Format::Toml => toml_frontmatter_is(r, t),
        _ => json_frontmatter_is(r, t),
    }
}

/// What parsing gives once the document is read: the reader's error, or
/// the front matter with `options` applied.
pub open spec fn parse_steps(read: Result<Frontmatter, Error>, options: Option<ParseOptions>) -> Result<
    Frontmatter,
    Error,
> {
    match read {
        Err(e) => Err(e),
        Ok(fm) => parsed_outcome(fm, options),
    }
}

/// `r` is what parsing the raw front matter `raw` in `format` under
/// `options` gives: the input check's error, else the parse of the
/// trimmed text with `options` applied.
pub open spec fn parse_result_is(
    r: Result<Frontmatter, Error>,
    raw: Seq<char>,
    format: Format,
    options: Option<ParseOptions>,
) -> bool {
    let b = encode_utf8(trim_chars(raw));
    if format == Format::Unsupported {
        r matches Err(Error::ConversionError(m)) && m@ == unsupported_format_message()
    } else if format == Format::Toml && !has_byte(b, 0x3D) {
        r matches Err(Error::ConversionError(m)) && m@
            == "Format set to TOML but input does not contain '=' signs."@
    } else if format == Format::Json && !starts_with(b, seq![0x7Bu8]) {
        r matches Err(Error::ConversionError(m)) && m@
            == "Format set to JSON but input does not start with '{'."@
    } else {
        exists|read: Result<Frontmatter, Error>|
            #[trigger] document_is(read, trim_chars(raw), format) && r == parse_steps(read, options)
    }
}

/// Parses raw front matter in `format` with the given options.
///
/// The input is checked ([`validate_format_input`]), the trimmed text is
/// parsed by its format's parser, and with validation on the front
/// matter must pass [`validate_frontmatter`]. A given `max_depth` is
/// below `usize::MAX`, as [`validate_parsed`] needs.
pub fn parse_with_options(
    raw_front_matter: &str,
    format: Format,
    options: Option<ParseOptions>,
) -> (r: Result<Frontmatter, Error>)
    requires
        options_or_default(options).max_depth < usize::MAX,
    ensures
        parse_result_is(r, raw_front_matter@, format, options),
{
    let trimmed = match validate_format_input(raw_front_matter, format) {
        Ok(t) => t,
        Err(e) => {
            return Err(e);
        },
    };
    let read = match format {
        Format::Yaml => parse_yaml(trimmed),
        Format::Toml => parse_toml(trimmed),
        _ => parse_json(trimmed),
    };
    let ghost copy = read;
    proof {
        assert(document_is(copy, trim_chars(raw_front_matter@), format));
    }
    let r = match read {
        Ok(fm) => validate_parsed(fm, options),
        Err(e) => Err(e),
    };
    proof {
        assert(r == parse_steps(copy, options));
    }
    r
}

/// Parses raw front matter in `format` with the default options.
pub fn parse(raw_front_matter: &str, format: Format) -> (r: Result<Frontmatter, Error>)
    ensures
        parse_result_is(r, raw_front_matter@, format, None),
{
    parse_with_options(raw_front_matter, format, None)
}

/// Parsing with validation on is parsing with it off and then
/// validating, whatever the document read: with it off, what was read
/// comes back as it is; with it on, the read front matter comes back
/// exactly when [`validate_frontmatter`] accepts it under the same limits,
/// or with that function's error.
pub proof fn law_parse_validation_is_a_later_step(read: Result<Frontmatter, Error>, o: ParseOptions)
    ensures
        parse_steps(read, Some(ParseOptions { validate: false, ..o })) == read,
        parse_steps(read, Some(ParseOptions { validate: true, ..o })) == (match read {
            Err(e) => Err::<Frontmatter, Error>(e),
            Ok(fm) => match validation_outcome(fm, o.max_depth, o.max_keys) {
                Ok(()) => Ok::<Frontmatter, Error>(fm),
                Err(e) => Err::<Frontmatter, Error>(e),
            },
        }),
{
}

/// Parsing without options is parsing with the default options.
pub proof fn law_parse_without_options_uses_defaults(read: Result<Frontmatter, Error>)
    ensures
        parse_steps(read, None) == parse_steps(
            read,
            Some(ParseOptions { max_depth: MAX_NESTING_DEPTH, max_keys: MAX_KEYS, validate: true }),
        ),
{
}

/// Checks that front matter can be written out in `format`: every format
/// but the unsupported one can.
pub fn check_output_format(format: Format) -> (r: Result<(), Error>)
    ensures
        format == Format::Unsupported <==> r is Err,
        r is Err ==> (r matches Err(Error::ConversionError(m)) && m@ == "Unsupported format"@),
{
    if format == Format::Unsupported {
        Err(Error::ConversionError("Unsupported format".to_string()))
    } else {
        Ok(())
    }
}

/// An integer that a YAML number holds is kept as a float only when its
/// magnitude is below 2^52, which a float holds exactly; larger ones are
/// read as zero.
pub fn integer_fits_float(i: i64) -> (r: bool)
    ensures
        r == (-0x10_0000_0000_0000 < i < 0x10_0000_0000_0000),
{
    -0x10_0000_0000_0000i64 < i && i < 0x10_0000_0000_0000i64
}

/// Front matter that passes validation under some limits passes under
/// any limits at least as large.
pub proof fn law_validation_monotone(
    fm: Frontmatter,
    max_depth: usize,
    max_keys: usize,
    more_depth: usize,
    more_keys: usize,
)
    requires
        max_depth <= more_depth,
        max_keys <= more_keys,
        validation_outcome(fm, max_depth, max_keys) is Ok,
    ensures
        validation_outcome(fm, more_depth, more_keys) is Ok,
{
    assert forall|k: Seq<char>| fm.map().contains_key(k) implies value_depth(
        #[trigger] fm.map()[k],
    ) <= more_depth by {
        assert(value_depth(fm.map()[k]) <= max_depth);
    }
}

/// Validation fails exactly when there are too many keys or some value
/// nests deeper than the limit, and a failure on depth always reports the
/// level just past the limit.
pub proof fn law_validation_failure(fm: Frontmatter, max_depth: usize, max_keys: usize)
    requires
        max_depth < usize::MAX,
    ensures
        validation_outcome(fm, max_depth, max_keys) is Err <==> (fm.map().dom().len() > max_keys
            || exists|k: Seq<char>|
            fm.map().contains_key(k) && value_depth(#[trigger] fm.map()[k]) > max_depth),
        validation_outcome(fm, max_depth, max_keys) matches Err(Error::NestingTooDeep { depth, max })
            ==> depth == max_depth + 1 && max == max_depth,
{
}

} // verus!
