//! The command-line interface: its commands, and the decisions its
//! commands make on what they read — which output format a name selects,
//! and whether extracted front matter holds the required fields.

use crate::text::str_eq;
use crate::types::{Format, Frontmatter};
use crate::utils::{lowercase, to_lowercase};
use vstd::prelude::*;

verus! {

broadcast use vstd::string::group_string_axioms;

/// Command-line interface for front matter processing.
#[derive(Debug)]
pub struct Cli {
    /// The command to run
    pub command: Commands,
}

/// The commands of the command-line interface.
#[derive(Debug)]
pub enum Commands {
    /// Extract front matter from a file.
    Extract {
        /// Input file path
        input: String,
        /// Output format (yaml, toml, json)
        format: String,
        /// Output file path (optional)
        output: Option<String>,
    },
    /// Validate front matter in a file.
    Validate {
        /// Input file path
        input: String,
        /// Required fields, separated by commas
        required: Option<String>,
    },
}

/// The format that a format name selects, whatever its case.
pub open spec fn format_for_name(name: Seq<char>) -> Option<Format> {
    let l = lowercase(name);
    if l == "yaml"@ {
        Some(Format::Yaml)
    } else if l == "toml"@ {
        Some(Format::Toml)
    } else if l == "json"@ {
        Some(Format::Json)
    } else {
        None
    }
}

/// Selects the output format for a format name, whatever its case:
/// `yaml`, `toml` or `json`; any other name is refused with
/// `Unsupported format: <name>`.
pub fn output_format(format: &str) -> (r: Result<Format, String>)
    ensures
        match format_for_name(format@) {
            Some(f) => r == Ok::<Format, String>(f),
            None => r matches Err(m) && m@ == "Unsupported format: "@ + format@,
        },
{
    let lower = to_lowercase(format);
    proof {
        reveal_strlit("yaml");
        reveal_strlit("toml");
        reveal_strlit("json");
    }
    if str_eq(lower.as_str(), "yaml") {
        Ok(Format::Yaml)
    } else if str_eq(lower.as_str(), "toml") {
        Ok(Format::Toml)
    } else if str_eq(lower.as_str(), "json") {
        Ok(Format::Json)
    } else {
        let mut m = "Unsupported format: ".to_string();
        m.append(format);
        Err(m)
    }
}

/// The pieces of `s` between the separators `sep`, as `str::split` yields
/// them: one more piece than there are separators.
pub open spec fn split_on(s: Seq<char>, sep: char) -> Seq<Seq<char>>
    decreases s.len(),
{
    if s.len() == 0 {
        seq![Seq::<char>::empty()]
    } else {
        let rest = split_on(s.drop_last(), sep);
        if s.last() == sep {
            rest.push(Seq::<char>::empty())
        } else {
            rest.update(rest.len() - 1, rest.last().push(s.last()))
        }
    }
}

/// Splitting never gives no piece.
proof fn lemma_split_nonempty(s: Seq<char>, sep: char)
    ensures
        split_on(s, sep).len() >= 1,
    decreases s.len(),
{
    if s.len() > 0 {
        lemma_split_nonempty(s.drop_last(), sep);
    }
}

/// Checks that front matter holds each of the fields named, separated by
/// commas, in `required`; the first one missing is reported as
/// `Missing required field: <field>`.
pub fn check_required_fields(fm: &Frontmatter, required: &str) -> (r: Result<(), String>)
    ensures
        ({
            let pieces = split_on(required@, ',');
            &&& r is Ok <==> forall|i: int|
                0 <= i < pieces.len() ==> fm.map().contains_key(#[trigger] pieces[i])
            &&& r matches Err(m) ==> exists|i: int|
                0 <= i < pieces.len() && !fm.map().contains_key(#[trigger] pieces[i]) && (forall|
                    j: int,
                | 0 <= j < i ==> fm.map().contains_key(#[trigger] pieces[j])) && m@
                    == "Missing required field: "@ + pieces[i]
        }),
{
    let n = required.unicode_len();
    let ghost s = required@;
    let mut start: usize = 0;
    let mut i: usize = 0;
    let ghost mut done: Seq<Seq<char>> = Seq::empty();
    proof {
        assert(s.take(0) =~= Seq::<char>::empty());
    }
    while i < n
        invariant
            n == s.len(),
            s == required@,
            start <= i <= n,
            split_on(s.take(i as int), ',') == done.push(s.subrange(start as int, i as int)),
            forall|j: int| 0 <= j < done.len() ==> fm.map().contains_key(#[trigger] done[j]),
        decreases n - i,
    {
        let c = required.get_char(i);
        proof {
            assert(s.take(i + 1).drop_last() =~= s.take(i as int));
            assert(s.take(i + 1).last() == c);
        }
        if c == ',' {
            let field = required.substring_char(start, i);
            if !fm.contains_key(field) {
                let mut m = "Missing required field: ".to_string();
                m.append(field);
                proof {
                    assert(split_on(s.take(i + 1), ',') =~= done.push(field@).push(
                        Seq::<char>::empty(),
                    ));
                    lemma_split_prefix(s, ',', (i + 1) as int, (done.len() + 1) as int);
                    assert(split_on(s, ',')[done.len() as int] == split_on(s.take(i + 1), ',')[done.len() as int]);
                    assert(split_on(s, ',')[done.len() as int] == field@);
                    assert forall|j: int| 0 <= j < done.len() implies fm.map().contains_key(
                        #[trigger] split_on(s, ',')[j],
                    ) by {
                        assert(split_on(s, ',')[j] == done[j]);
                    }
                }
                return Err(m);
            }
            proof {
                assert(split_on(s.take(i + 1), ',') =~= done.push(field@).push(
                    Seq::<char>::empty(),
                ));
                done = done.push(field@);
                assert(s.subrange(i + 1, i + 1) =~= Seq::<char>::empty());
            }
            start = i + 1;
        } else {
            proof {
                assert(s.subrange(start as int, i + 1) =~= s.subrange(start as int, i as int).push(c));
            }
        }
        i = i + 1;
    }
    let field = required.substring_char(start, n);
    proof {
        assert(s.take(n as int) =~= s);
    }
    if !fm.contains_key(field) {
        let mut m = "Missing required field: ".to_string();
        m.append(field);
        proof {
            assert(split_on(s, ',')[done.len() as int] == field@);
            assert forall|j: int| 0 <= j < done.len() implies fm.map().contains_key(
                #[trigger] split_on(s, ',')[j],
            ) by {
                assert(split_on(s, ',')[j] == done[j]);
            }
        }
        return Err(m);
    }
    proof {
        let pieces = split_on(s, ',');
        assert forall|j: int| 0 <= j < pieces.len() implies fm.map().contains_key(
            #[trigger] pieces[j],
        ) by {
            if j < done.len() {
                assert(pieces[j] == done[j]);
            }
        }
    }
    Ok(())
}

/// The pieces of a prefix that ends just after a separator are kept, in
/// order, as the first pieces of the whole.
proof fn lemma_split_prefix(s: Seq<char>, sep: char, k: int, count: int)
    requires
        0 < k <= s.len(),
        s[k - 1] == sep,
        split_on(s.take(k), sep).len() == count + 1,
    ensures
        split_on(s, sep).len() >= count + 1,
        forall|j: int| 0 <= j < count ==> split_on(s, sep)[j] == split_on(s.take(k), sep)[j],
    decreases s.len() - k,
{
    if k < s.len() {
        let t = s.drop_last();
        assert(t.take(k) =~= s.take(k));
        lemma_split_prefix(t, sep, k, count);
        lemma_split_nonempty(t, sep);
    } else {
        assert(s.take(k) =~= s);
    }
}

} // verus!
