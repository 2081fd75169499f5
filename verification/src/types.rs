//! Core types: the front matter [`Format`]s, the [`Value`]s that front
//! matter holds, and [`Frontmatter`], a map from keys to values.
//!
//! A number is held as the IEEE 754 bit pattern of its `f64`
//! (`f64::to_bits`), so that values compare and copy as integers.
//! [`Frontmatter`] keeps its entries sorted by the bytes of their keys, so
//! two front matters that map the same keys to the same values hold the
//! same entries.

use crate::text::{lemma_encode_concat, lemma_str_valid, slice_between};
use vstd::prelude::*;
use vstd::std_specs::iter::IteratorSpec;
use vstd::string::StringSliceAdditionalSpecFns;
use vstd::utf8::{decode_utf8, encode_utf8, is_char_boundary_start_end_of_seq, valid_utf8};

verus! {

broadcast use vstd::utf8::encode_utf8_valid_utf8, vstd::utf8::encode_utf8_decode_utf8,
    vstd::string::group_string_axioms;

/// Represents the different formats supported for frontmatter serialization/deserialization.
#[derive(Debug, Clone, Copy, PartialEq, Eq, Structural)]
#[non_exhaustive]
pub enum Format {
    /// YAML format.
    Yaml,
    /// TOML format.
    Toml,
    /// JSON format.
    Json,
    /// Unsupported format.
    Unsupported,
}

impl Default for Format {
    /// The default format is JSON.
    fn default() -> (r: Format)
        ensures
            r == Format::Json,
    {
        Format::Json
    }
}

impl Format {
    /// The name under which the format is displayed.
    pub open spec fn display_name(self) -> Seq<char> {
        match self {
            Format::Yaml => "YAML"@,
            Format::Toml => "TOML"@,
            Format::Json => "JSON"@,
            Format::Unsupported => "Unsupported"@,
        }
    }

    /// The name under which the format is displayed: `YAML`, `TOML`, `JSON`
    /// or `Unsupported`.
    pub fn to_string(&self) -> (r: String)
        ensures
            r@ == self.display_name(),
    {
        match self {
            Format::Yaml => "YAML".to_string(),
            Format::Toml => "TOML".to_string(),
            Format::Json => "JSON".to_string(),
            Format::Unsupported => "Unsupported".to_string(),
        }
    }
}

/// A flexible value type that can hold various types of data found in frontmatter.
#[derive(Debug, PartialEq)]
pub enum Value {
    /// Represents a null value.
    Null,
    /// Represents a string value.
    String(String),
    /// Represents a numeric value, by the bit pattern of its `f64`.
    Number(u64),
    /// Represents a boolean value.
    Boolean(bool),
    /// Represents an array of values.
    Array(Vec<Value>),
    /// Represents an object (frontmatter).
    Object(Box<Frontmatter>),
    /// Represents a tagged value, containing a tag and a value.
    Tagged(String, Box<Value>),
}

/// Represents the frontmatter, a collection of key-value pairs, kept
/// sorted by the bytes of the keys with no key twice.
#[derive(Debug, PartialEq)]
pub struct Frontmatter {
    entries: Vec<(String, Value)>,
}

/* Key order */

/// Lexicographic order on bytes, the order in which `str` values compare.
pub open spec fn bytes_lt(a: Seq<u8>, b: Seq<u8>) -> bool
    decreases a.len(),
{
    if b.len() == 0 {
        false
    } else if a.len() == 0 {
        true
    } else if a[0] != b[0] {
        a[0] < b[0]
    } else {
        bytes_lt(a.drop_first(), b.drop_first())
    }
}

/// No byte sequence comes before itself.
pub proof fn lemma_lt_irreflexive(a: Seq<u8>)
    ensures
        !bytes_lt(a, a),
    decreases a.len(),
{
    if a.len() > 0 {
        lemma_lt_irreflexive(a.drop_first());
    }
}

/// Of two different byte sequences exactly one comes first.
pub proof fn lemma_lt_trichotomy(a: Seq<u8>, b: Seq<u8>)
    ensures
        a != b ==> (bytes_lt(a, b) || bytes_lt(b, a)),
        !(bytes_lt(a, b) && bytes_lt(b, a)),
    decreases a.len(),
{
    if a.len() > 0 && b.len() > 0 && a[0] == b[0] {
        lemma_lt_trichotomy(a.drop_first(), b.drop_first());
        if a.drop_first() == b.drop_first() {
            assert(a =~= seq![a[0]] + a.drop_first());
            assert(b =~= seq![b[0]] + b.drop_first());
        }
    } else if a.len() == 0 && b.len() == 0 {
        assert(a =~= b);
    }
}

/// The order is transitive.
pub proof fn lemma_lt_transitive(a: Seq<u8>, b: Seq<u8>, c: Seq<u8>)
    requires
        bytes_lt(a, b),
        bytes_lt(b, c),
    ensures
        bytes_lt(a, c),
    decreases a.len(),
{
    if a.len() > 0 && a[0] == b[0] && b[0] == c[0] {
        lemma_lt_transitive(a.drop_first(), b.drop_first(), c.drop_first());
    }
}

/// Keys are ordered by their UTF-8 bytes.
pub open spec fn key_lt(a: Seq<char>, b: Seq<char>) -> bool {
    bytes_lt(encode_utf8(a), encode_utf8(b))
}

/// Distinct keys are ordered one way or the other; equal keys neither way.
pub proof fn lemma_key_order(a: Seq<char>, b: Seq<char>)
    ensures
        a != b ==> (key_lt(a, b) || key_lt(b, a)),
        !(key_lt(a, b) && key_lt(b, a)),
        a == b ==> !key_lt(a, b),
{
    lemma_lt_trichotomy(encode_utf8(a), encode_utf8(b));
    lemma_lt_irreflexive(encode_utf8(a));
    if encode_utf8(a) == encode_utf8(b) {
        assert(decode_utf8(encode_utf8(a)) == decode_utf8(encode_utf8(b)));
    }
}

/// How two keys compare.
pub enum KeyOrder {
    /// The first key comes first.
    Less,
    /// The keys are equal.
    Equal,
    /// The second key comes first.
    Greater,
}

/// Compares two keys by their bytes.
pub fn compare_keys(a: &str, b: &str) -> (r: KeyOrder)
    ensures
        r is Less <==> key_lt(a@, b@),
        r is Equal <==> a@ == b@,
        r is Greater <==> key_lt(b@, a@),
{
    let x = a.as_bytes();
    let y = b.as_bytes();
    proof {
        lemma_str_valid(a);
        lemma_str_valid(b);
        lemma_key_order(a@, b@);
        assert(x@.skip(0) =~= x@);
        assert(y@.skip(0) =~= y@);
    }
    let mut i: usize = 0;
    while i < x.len() && i < y.len()
        invariant
            x@ == a.spec_bytes(),
            y@ == b.spec_bytes(),
            i <= x@.len(),
            i <= y@.len(),
            forall|k: int| 0 <= k < i ==> x@[k] == y@[k],
            bytes_lt(x@, y@) == bytes_lt(x@.skip(i as int), y@.skip(i as int)),
            bytes_lt(y@, x@) == bytes_lt(y@.skip(i as int), x@.skip(i as int)),
        decreases x@.len() - i,
    {
        if x[i] < y[i] {
            return KeyOrder::Less;
        }
        if x[i] > y[i] {
            return KeyOrder::Greater;
        }
        proof {
            assert(x@.skip(i as int).drop_first() =~= x@.skip(i + 1));
            assert(y@.skip(i as int).drop_first() =~= y@.skip(i + 1));
        }
        i = i + 1;
    }
    if x.len() == y.len() {
        proof {
            assert(x@ =~= y@);
            assert(a@ == decode_utf8(x@));
            assert(b@ == decode_utf8(y@));
        }
        KeyOrder::Equal
    } else if x.len() < y.len() {
        KeyOrder::Less
    } else {
        KeyOrder::Greater
    }
}

/* The map that front matter holds */

/// Keys strictly increase along the entries.
pub open spec fn keys_sorted(s: Seq<(String, Value)>) -> bool {
    forall|i: int, j: int| 0 <= i < j < s.len() ==> key_lt(#[trigger] s[i].0@, #[trigger] s[j].0@)
}

/// The map from keys to values that the entries hold.
pub open spec fn entries_map(s: Seq<(String, Value)>) -> Map<Seq<char>, Value>
    decreases s.len(),
{
    if s.len() == 0 {
        Map::empty()
    } else {
        entries_map(s.drop_last()).insert(s.last().0@, s.last().1)
    }
}

/// Each entry is in the map.
pub proof fn lemma_map_index(s: Seq<(String, Value)>, i: int)
    requires
        keys_sorted(s),
        0 <= i < s.len(),
    ensures
        entries_map(s).contains_key(s[i].0@),
        entries_map(s)[s[i].0@] == s[i].1,
    decreases s.len(),
{
    if i < s.len() - 1 {
        let t = s.drop_last();
        assert(t[i] == s[i]);
        assert(keys_sorted(t));
        lemma_map_index(t, i);
        assert(key_lt(s[i].0@, s[s.len() - 1].0@));
        lemma_key_order(s[i].0@, s.last().0@);
    }
}

/// Every key of the map is the key of an entry.
pub proof fn lemma_map_dom(s: Seq<(String, Value)>, k: Seq<char>)
    requires
        entries_map(s).contains_key(k),
    ensures
        exists|i: int| 0 <= i < s.len() && s[i].0@ == k,
    decreases s.len(),
{
    if s.len() > 0 && k != s.last().0@ {
        lemma_map_dom(s.drop_last(), k);
        let i = choose|i: int| 0 <= i < s.drop_last().len() && s.drop_last()[i].0@ == k;
        assert(s[i] == s.drop_last()[i]);
    }
}

/// The map of sorted entries is `m` when the entries list exactly `m`.
pub proof fn lemma_map_eq(s: Seq<(String, Value)>, m: Map<Seq<char>, Value>)
    requires
        keys_sorted(s),
        forall|i: int| 0 <= i < s.len() ==> m.contains_key(#[trigger] s[i].0@) && m[s[i].0@] == s[i].1,
        forall|k: Seq<char>| m.contains_key(k) ==> exists|i: int| 0 <= i < s.len() && s[i].0@ == k,
    ensures
        entries_map(s) == m,
{
    assert forall|k: Seq<char>| entries_map(s).contains_key(k) <==> m.contains_key(k) by {
        if entries_map(s).contains_key(k) {
            lemma_map_dom(s, k);
        }
        if m.contains_key(k) {
            let i = choose|i: int| 0 <= i < s.len() && s[i].0@ == k;
            lemma_map_index(s, i);
        }
    }
    assert forall|k: Seq<char>| entries_map(s).contains_key(k) implies entries_map(s)[k] == m[k] by {
        lemma_map_dom(s, k);
        let i = choose|i: int| 0 <= i < s.len() && s[i].0@ == k;
        lemma_map_index(s, i);
    }
    assert(entries_map(s) =~= m);
}

/// Changing the value of an entry changes the map at its key alone.
pub proof fn lemma_map_update_value(s: Seq<(String, Value)>, p: int)
    requires
        keys_sorted(s),
        0 <= p < s.len(),
    ensures
        forall|w: Value|
            #[trigger] entries_map(s.update(p, (s[p].0, w))) == entries_map(s).insert(s[p].0@, w),
{
    assert forall|w: Value| #[trigger]
        entries_map(s.update(p, (s[p].0, w))) == entries_map(s).insert(s[p].0@, w) by {
        let t = s.update(p, (s[p].0, w));
        let m = entries_map(s).insert(s[p].0@, w);
        assert(keys_sorted(t)) by {
            assert forall|i: int, j: int| 0 <= i < j < t.len() implies key_lt(
                #[trigger] t[i].0@,
                #[trigger] t[j].0@,
            ) by {
                assert(t[i].0 == s[i].0);
                assert(t[j].0 == s[j].0);
            }
        }
        assert forall|i: int| 0 <= i < t.len() implies m.contains_key(#[trigger] t[i].0@)
            && m[t[i].0@] == t[i].1 by {
            if i != p {
                lemma_map_index(s, i);
                lemma_key_order(s[i].0@, s[p].0@);
            }
        }
        assert forall|k: Seq<char>| m.contains_key(k) implies exists|i: int|
            0 <= i < t.len() && t[i].0@ == k by {
            if k != s[p].0@ {
                lemma_map_dom(s, k);
                let i = choose|i: int| 0 <= i < s.len() && s[i].0@ == k;
                assert(t[i].0 == s[i].0);
            } else {
                assert(t[p].0@ == k);
            }
        }
        lemma_map_eq(t, m);
    }
}

/// The map has one key per entry.
pub proof fn lemma_map_len(s: Seq<(String, Value)>)
    requires
        keys_sorted(s),
    ensures
        entries_map(s).dom().finite(),
        entries_map(s).dom().len() == s.len(),
    decreases s.len(),
{
    if s.len() > 0 {
        let t = s.drop_last();
        assert(keys_sorted(t));
        lemma_map_len(t);
        if entries_map(t).contains_key(s.last().0@) {
            lemma_map_dom(t, s.last().0@);
            let i = choose|i: int| 0 <= i < t.len() && t[i].0@ == s.last().0@;
            assert(key_lt(s[i].0@, s[s.len() - 1].0@));
            lemma_key_order(s[i].0@, s.last().0@);
        }
    }
}

impl Frontmatter {
    /// Keys strictly increase along the entries.
    #[verifier::type_invariant]
    spec fn sorted(self) -> bool {
        keys_sorted(self.entries@)
    }

    /// The keys and values, as a map.
    pub closed spec fn map(self) -> Map<Seq<char>, Value> {
        entries_map(self.entries@)
    }

    /// Creates a new, empty frontmatter.
    pub fn new() -> (r: Self)
        ensures
            r.map() == Map::<Seq<char>, Value>::empty(),
    {
        Frontmatter { entries: Vec::new() }
    }

    /// Where `key` is, or would be inserted, among the entries.
    fn position(&self, key: &str) -> (r: (usize, bool))
        ensures
            r.0 <= self.entries@.len(),
            forall|j: int| 0 <= j < r.0 ==> key_lt(self.entries@[j].0@, key@),
            r.1 <==> (r.0 < self.entries@.len() && self.entries@[r.0 as int].0@ == key@),
            !r.1 && r.0 < self.entries@.len() ==> key_lt(key@, self.entries@[r.0 as int].0@),
    {
        let mut p: usize = 0;
        while p < self.entries.len()
            invariant
                p <= self.entries@.len(),
                forall|j: int| 0 <= j < p ==> key_lt(self.entries@[j].0@, key@),
            decreases self.entries@.len() - p,
        {
            match compare_keys(self.entries[p].0.as_str(), key) {
                KeyOrder::Less => {},
                KeyOrder::Equal => {
                    return (p, true);
                },
                KeyOrder::Greater => {
                    return (p, false);
                },
            }
            p = p + 1;
        }
        (p, false)
    }

    /// Inserts a key-value pair into the frontmatter, returning the value it replaces.
    pub fn insert(&mut self, key: String, value: Value) -> (r: Option<Value>)
        ensures
            final(self).map() == old(self).map().insert(key@, value),
            r == (if old(self).map().contains_key(key@) {
                Some(old(self).map()[key@])
            } else {
                None
            }),
    {
        proof {
            use_type_invariant(&*self);
        }
        let ghost k = key@;
        let ghost m = self.map();
        let ghost s = self.entries@;
        let (p, found) = self.position(key.as_str());
        let mut entries: Vec<(String, Value)> = Vec::new();
        std::mem::swap(&mut entries, &mut self.entries);
        let r = if found {
            let old = entries.remove(p);
            entries.insert(p, (key, value));
            proof {
                lemma_map_index(s, p as int);
            }
            Some(old.1)
        } else {
            entries.insert(p, (key, value));
            proof {
                if m.contains_key(k) {
                    lemma_map_dom(s, k);
                    let i = choose|i: int| 0 <= i < s.len() && s[i].0@ == k;
                    lemma_key_order(s[i].0@, k);
                    if i >= p {
                        if i > p {
                            lemma_lt_transitive(
                                encode_utf8(k),
                                encode_utf8(s[p as int].0@),
                                encode_utf8(s[i].0@),
                            );
                        }
                    }
                }
            }
            None
        };
        proof {
            let t = entries@;
            assert forall|i: int, j: int| 0 <= i < j < t.len() implies key_lt(
                #[trigger] t[i].0@,
                #[trigger] t[j].0@,
            ) by {
                if found {
                } else {
                    if j == p {
                    } else if i == p {
                        if j - 1 > p {
                            lemma_lt_transitive(
                                encode_utf8(k),
                                encode_utf8(s[p as int].0@),
                                encode_utf8(s[j - 1].0@),
                            );
                        }
                    } else if i < p && j > p {
                        if j - 1 > p {
                            lemma_lt_transitive(
                                encode_utf8(k),
                                encode_utf8(s[p as int].0@),
                                encode_utf8(s[j - 1].0@),
                            );
                        }
                        lemma_lt_transitive(
                            encode_utf8(s[i].0@),
                            encode_utf8(k),
                            encode_utf8(s[j - 1].0@),
                        );
                    }
                }
            }
            let m2 = m.insert(k, value);
            assert forall|i: int| 0 <= i < t.len() implies m2.contains_key(#[trigger] t[i].0@)
                && m2[t[i].0@] == t[i].1 by {
                if i != p {
                    let si = if found || i < p { i } else { i - 1 };
                    assert(t[i] == s[si]);
                    if found {
                        if si < p {
                            assert(key_lt(s[si].0@, s[p as int].0@));
                        } else {
                            assert(key_lt(s[p as int].0@, s[si].0@));
                        }
                        lemma_key_order(s[si].0@, s[p as int].0@);
                    } else if si < p {
                        lemma_key_order(s[si].0@, k);
                    } else {
                        if si > p {
                            lemma_lt_transitive(
                                encode_utf8(k),
                                encode_utf8(s[p as int].0@),
                                encode_utf8(s[si].0@),
                            );
                        }
                        lemma_key_order(k, s[si].0@);
                    }
                    lemma_map_index(s, si);
                }
            }
            assert forall|kk: Seq<char>| m2.contains_key(kk) implies exists|i: int|
                0 <= i < t.len() && t[i].0@ == kk by {
                if kk == k {
                    assert(t[p as int].0@ == k);
                } else {
                    lemma_map_dom(s, kk);
                    let si = choose|i: int| 0 <= i < s.len() && s[i].0@ == kk;
                    let ti = if found || si < p { si } else { si + 1 };
                    assert(t[ti].0@ == kk);
                }
            }
            lemma_map_eq(t, m2);
        }
        self.entries = entries;
        r
    }

    /// Retrieves a reference to a value associated with a key.
    pub fn get(&self, key: &str) -> (r: Option<&Value>)
        ensures
            match r {
                Some(v) => self.map().contains_key(key@) && *v == self.map()[key@],
                None => !self.map().contains_key(key@),
            },
    {
        proof {
            use_type_invariant(self);
        }
        let (p, found) = self.position(key);
        if found {
            proof {
                lemma_map_index(self.entries@, p as int);
            }
            Some(&self.entries[p].1)
        } else {
            proof {
                self.lemma_absent(key@, p as int);
            }
            None
        }
    }

    /// A key that is not where `position` looks is not in the map.
    proof fn lemma_absent(&self, k: Seq<char>, p: int)
        requires
            keys_sorted(self.entries@),
            0 <= p <= self.entries@.len(),
            forall|j: int| 0 <= j < p ==> key_lt(self.entries@[j].0@, k),
            p < self.entries@.len() ==> key_lt(k, self.entries@[p].0@),
        ensures
            !self.map().contains_key(k),
    {
        let s = self.entries@;
        if entries_map(s).contains_key(k) {
            lemma_map_dom(s, k);
            let i = choose|i: int| 0 <= i < s.len() && s[i].0@ == k;
            if i < p {
                lemma_key_order(s[i].0@, k);
            } else {
                if i > p {
                    lemma_lt_transitive(encode_utf8(k), encode_utf8(s[p].0@), encode_utf8(s[i].0@));
                }
                lemma_key_order(k, s[i].0@);
            }
        }
    }

    /// Checks if the frontmatter contains a given key.
    pub fn contains_key(&self, key: &str) -> (r: bool)
        ensures
            r == self.map().contains_key(key@),
    {
        self.get(key).is_some()
    }

    /// Checks if a given key exists and its value is `null`.
    pub fn is_null(&self, key: &str) -> (r: bool)
        ensures
            r == (self.map().contains_key(key@) && self.map()[key@] is Null),
    {
        match self.get(key) {
            Some(Value::Null) => true,
            _ => false,
        }
    }

    /// Returns the number of entries in the frontmatter.
    pub fn len(&self) -> (r: usize)
        ensures
            r == self.map().dom().len(),
            self.map().dom().finite(),
    {
        proof {
            use_type_invariant(self);
            lemma_map_len(self.entries@);
        }
        self.entries.len()
    }

    /// Checks if the frontmatter is empty.
    pub fn is_empty(&self) -> (r: bool)
        ensures
            r == (self.map().dom().len() == 0),
    {
        self.len() == 0
    }

    /// Removes a key-value pair from the frontmatter, returning its value.
    pub fn remove(&mut self, key: &str) -> (r: Option<Value>)
        ensures
            final(self).map() == old(self).map().remove(key@),
            r == (if old(self).map().contains_key(key@) {
                Some(old(self).map()[key@])
            } else {
                None
            }),
    {
        proof {
            use_type_invariant(&*self);
        }
        let ghost s = self.entries@;
        let ghost m = self.map();
        let (p, found) = self.position(key);
        if !found {
            proof {
                self.lemma_absent(key@, p as int);
                assert(m.remove(key@) =~= m);
            }
            return None;
        }
        let mut entries: Vec<(String, Value)> = Vec::new();
        std::mem::swap(&mut entries, &mut self.entries);
        let old = entries.remove(p);
        proof {
            let t = entries@;
            let k = key@;
            lemma_map_index(s, p as int);
            assert forall|i: int, j: int| 0 <= i < j < t.len() implies key_lt(
                #[trigger] t[i].0@,
                #[trigger] t[j].0@,
            ) by {
                let si = if i < p { i } else { i + 1 };
                let sj = if j < p { j } else { j + 1 };
                assert(t[i] == s[si] && t[j] == s[sj]);
            }
            let m2 = m.remove(k);
            assert forall|i: int| 0 <= i < t.len() implies m2.contains_key(#[trigger] t[i].0@)
                && m2[t[i].0@] == t[i].1 by {
                let si = if i < p { i } else { i + 1 };
                assert(t[i] == s[si]);
                if si < p {
                    assert(key_lt(s[si].0@, s[p as int].0@));
                } else {
                    assert(key_lt(s[p as int].0@, s[si].0@));
                }
                lemma_key_order(s[si].0@, s[p as int].0@);
                lemma_map_index(s, si);
            }
            assert forall|kk: Seq<char>| m2.contains_key(kk) implies exists|i: int|
                0 <= i < t.len() && t[i].0@ == kk by {
                lemma_map_dom(s, kk);
                let si = choose|i: int| 0 <= i < s.len() && s[i].0@ == kk;
                let ti = if si < p { si } else { si - 1 };
                assert(t[ti] == s[si]);
            }
            lemma_map_eq(t, m2);
        }
        self.entries = entries;
        Some(old.1)
    }

    /// Merges another frontmatter into this one; its values win for keys in both.
    pub fn merge(&mut self, other: Frontmatter)
        ensures
            final(self).map() == old(self).map().union_prefer_right(other.map()),
    {
        proof {
            use_type_invariant(&other);
        }
        let ghost m0 = self.map();
        let ghost o = other.entries@;
        let Frontmatter { entries: mut rest } = other;
        while rest.len() > 0
            invariant
                o == other.entries@,
                keys_sorted(o),
                rest@ == o.take(rest@.len() as int),
                rest@.len() <= o.len(),
                self.map() == m0.union_prefer_right(entries_map(o.skip(rest@.len() as int))),
            decreases rest@.len(),
        {
            let ghost n = rest@.len() as int;
            let (k, v) = rest.pop().unwrap();
            proof {
                assert(o[n - 1] == (k, v));
            }
            let _ = self.insert(k, v);
            proof {
                let before = o.skip(n);
                let after = o.skip(n - 1);
                assert(keys_sorted(before));
                assert(keys_sorted(after));
                let mb = entries_map(before);
                assert forall|i: int| 0 <= i < after.len() implies mb.insert(k@, v).contains_key(
                    #[trigger] after[i].0@,
                ) && mb.insert(k@, v)[after[i].0@] == after[i].1 by {
                    if i > 0 {
                        assert(after[i] == before[i - 1]);
                        assert(key_lt(o[n - 1].0@, o[n - 1 + i].0@));
                        lemma_key_order(k@, after[i].0@);
                        lemma_map_index(before, i - 1);
                    }
                }
                assert forall|kk: Seq<char>| mb.insert(k@, v).contains_key(kk) implies exists|i: int|
                    0 <= i < after.len() && after[i].0@ == kk by {
                    if kk == k@ {
                        assert(after[0].0@ == kk);
                    } else {
                        lemma_map_dom(before, kk);
                        let j = choose|j: int| 0 <= j < before.len() && before[j].0@ == kk;
                        assert(after[j + 1] == before[j]);
                    }
                }
                lemma_map_eq(after, mb.insert(k@, v));
                assert(m0.union_prefer_right(mb).insert(k@, v) =~= m0.union_prefer_right(
                    mb.insert(k@, v),
                ));
                assert(rest@ =~= o.take(n - 1));
            }
        }
        proof {
            assert(o.skip(0) =~= o);
        }
    }

    /// Clears the frontmatter while preserving allocated capacity.
    pub fn clear(&mut self)
        ensures
            final(self).map() == Map::<Seq<char>, Value>::empty(),
    {
        let mut entries: Vec<(String, Value)> = Vec::new();
        std::mem::swap(&mut entries, &mut self.entries);
        entries.clear();
        self.entries = entries;
    }

    /// Returns the current capacity of the underlying storage.
    pub fn capacity(&self) -> (r: usize)
        ensures
            r >= self.map().dom().len(),
    {
        proof {
            use_type_invariant(self);
            lemma_map_len(self.entries@);
        }
        vec_capacity(&self.entries)
    }

    /// Reserves capacity for at least `additional` more elements.
    pub fn reserve(&mut self, additional: usize)
        ensures
            final(self).map() == old(self).map(),
    {
        proof {
            use_type_invariant(&*self);
        }
        let mut entries: Vec<(String, Value)> = Vec::new();
        std::mem::swap(&mut entries, &mut self.entries);
        entries.reserve(additional);
        self.entries = entries;
    }

    /// The value for a key, to change in place.
    pub fn get_mut(&mut self, key: &str) -> (r: Option<&mut Value>)
        ensures
            match r {
                Some(v) => old(self).map().contains_key(key@) && *v == old(self).map()[key@]
                    && final(self).map() == old(self).map().insert(key@, *final(v)),
                None => !old(self).map().contains_key(key@) && *final(self) == *old(self),
            },
    {
        proof {
            use_type_invariant(&*self);
        }
        let (p, found) = self.position(key);
        if found {
            proof {
                lemma_map_index(self.entries@, p as int);
                lemma_map_update_value(self.entries@, p as int);
            }
            let v = value_at_mut(&mut self.entries, p);
            Some(v)
        } else {
            proof {
                self.lemma_absent(key@, p as int);
            }
            None
        }
    }

    /// The entries, in order of their keys' bytes.
    pub fn iter(&self) -> (r: std::slice::Iter<'_, (String, Value)>)
        ensures
            r.remaining() == self.entry_seq().as_ref(),
    {
        proof {
            broadcast use vstd::std_specs::slice::axiom_spec_slice_iter;
        }
        self.entries.as_slice().iter()
    }

    /// The value of entry `i`, in the order of the keys' bytes, to change
    /// in place; one entry at a time, as iterating mutably visits them.
    pub fn value_at_index_mut(&mut self, i: usize) -> (r: &mut Value)
        requires
            i < old(self).entry_seq().len(),
        ensures
            *r == old(self).entry_seq()[i as int].1,
            final(self).entry_seq() == old(self).entry_seq().update(
                i as int,
                (old(self).entry_seq()[i as int].0, *final(r)),
            ),
            final(self).map() == old(self).map().insert(old(self).entry_seq()[i as int].0@, *final(r)),
    {
        proof {
            use_type_invariant(&*self);
            lemma_map_update_value(self.entries@, i as int);
        }
        value_at_mut(&mut self.entries, i)
    }

    /// The entries in the order of their keys' bytes.
    pub closed spec fn entry_seq(self) -> Seq<(String, Value)> {
        self.entries@
    }

    /// The entries as a slice, sorted by the bytes of their keys; they
    /// hold exactly the map.
    pub fn as_slice(&self) -> (r: &[(String, Value)])
        ensures
            r@ == self.entry_seq(),
            keys_sorted(r@),
            entries_map(r@) == self.map(),
    {
        proof {
            use_type_invariant(self);
        }
        self.entries.as_slice()
    }
}

/// An entry's value is smaller than the front matter that holds it.
pub proof fn lemma_entry_decreases(fm: Frontmatter, i: int)
    requires
        0 <= i < fm.entry_seq().len(),
    ensures
        decreases_to!(fm => fm.entry_seq()[i].1),
{
    assert(decreases_to!(fm => fm.entries));
    assert(decreases_to!(fm.entries => fm.entries@));
    assert(decreases_to!(fm.entries@ => fm.entries@[i]));
    assert(decreases_to!(fm.entries@[i] => fm.entries@[i].1));
}

/// How many levels a value nests: one for a scalar or a tagged value, and
/// one more than the deepest item for an array or an object.
pub open spec fn value_depth(v: Value) -> nat
    decreases v, 0nat,
{
    match v {
        Value::Array(a) => 1 + values_depth(a@, a@.len()),
        Value::Object(o) => 1 + entries_depth(o.entry_seq(), o.entry_seq().len()),
        _ => 1,
    }
}

/// The greatest depth among the first `n` values, 0 for none.
pub open spec fn values_depth(s: Seq<Value>, n: nat) -> nat
    decreases s, n,
{
    if n == 0 || n > s.len() {
        0
    } else {
        let a = values_depth(s, (n - 1) as nat);
        let b = value_depth(s[n - 1]);
        if a >= b {
            a
        } else {
            b
        }
    }
}

/// The greatest depth among the values of the first `n` entries, 0 for none.
pub open spec fn entries_depth(s: Seq<(String, Value)>, n: nat) -> nat
    decreases s, n,
{
    if n == 0 || n > s.len() {
        0
    } else {
        let a = entries_depth(s, (n - 1) as nat);
        let b = value_depth(s[n - 1].1);
        if a >= b {
            a
        } else {
            b
        }
    }
}

/// Taking more values never lowers the greatest depth.
pub proof fn lemma_values_depth_grows(s: Seq<Value>, i: nat, n: nat)
    requires
        i <= n <= s.len(),
    ensures
        values_depth(s, i) <= values_depth(s, n),
    decreases n - i,
{
    if i < n {
        lemma_values_depth_grows(s, i, (n - 1) as nat);
    }
}

/// Taking more entries never lowers the greatest depth.
pub proof fn lemma_entries_depth_grows(s: Seq<(String, Value)>, i: nat, n: nat)
    requires
        i <= n <= s.len(),
    ensures
        entries_depth(s, i) <= entries_depth(s, n),
    decreases n - i,
{
    if i < n {
        lemma_entries_depth_grows(s, i, (n - 1) as nat);
    }
}

/// The estimated size in bytes of a value serialised as JSON: `null` 4,
/// a string its bytes and two quotes, a number 8, a boolean 5, an array
/// its items and two brackets, an object as [`entries_size_estimate`]
/// counts it, and a tagged value its tag, two bytes and its value.
pub open spec fn value_size_estimate(v: Value) -> nat
    decreases v, 0nat,
{
    match v {
        Value::Null => 4,
        Value::String(s) => string_bytes(s).len() + 2,
        Value::Number(_) => 8,
        Value::Boolean(_) => 5,
        Value::Array(a) => 2 + values_size_estimate(a@, a@.len()),
        Value::Object(o) => entries_size_estimate(o.entry_seq(), o.entry_seq().len()),
        Value::Tagged(t, b) => string_bytes(t).len() + 2 + value_size_estimate(*b),
    }
}

/// The estimated sizes of the first `n` values, summed.
pub open spec fn values_size_estimate(s: Seq<Value>, n: nat) -> nat
    decreases s, n,
{
    if n == 0 || n > s.len() {
        0
    } else {
        values_size_estimate(s, (n - 1) as nat) + value_size_estimate(s[n - 1])
    }
}

/// The estimated JSON size of an object whose first `n` entries are those
/// of `s`: two braces, and for each entry its key's bytes, three bytes of
/// quotes and colon, its value, and one comma.
pub open spec fn entries_size_estimate(s: Seq<(String, Value)>, n: nat) -> nat
    decreases s, n,
{
    if n == 0 || n > s.len() {
        2
    } else {
        entries_size_estimate(s, (n - 1) as nat) + string_bytes(s[n - 1].0).len() + 3
            + value_size_estimate(s[n - 1].1) + 1
    }
}

/// The value of the entry at `p`, to change in place.
fn value_at_mut(entries: &mut Vec<(String, Value)>, p: usize) -> (r: &mut Value)
    requires
        p < old(entries)@.len(),
    ensures
        *r == old(entries)@[p as int].1,
        final(entries)@ == old(entries)@.update(p as int, (old(entries)@[p as int].0, *final(r))),
    no_unwind
{
    let slot = &mut entries[p];
    &mut slot.1
}

/// Calls `Vec::capacity`, which the standard library documents as never
/// less than the vector's length.
#[verifier::external_body]
fn vec_capacity<T>(v: &Vec<T>) -> (r: usize)
    ensures
        r >= v@.len(),
{
    v.capacity()
}

impl Default for Frontmatter {
    /// An empty frontmatter.
    fn default() -> (r: Self)
        ensures
            r.map() == Map::<Seq<char>, Value>::empty(),
    {
        Frontmatter { entries: Vec::with_capacity(8) }
    }
}

/// An ASCII upper-case letter as lower case; any other byte as it is.
pub open spec fn ascii_lower(b: u8) -> u8 {
    if 0x41 <= b <= 0x5A {
        (b + 0x20) as u8
    } else {
        b
    }
}

/// `a` and `b` are the same bytes when ASCII letter case is ignored.
pub open spec fn same_ignoring_case(a: Seq<u8>, b: Seq<u8>) -> bool {
    &&& a.len() == b.len()
    &&& forall|i: int| 0 <= i < a.len() ==> ascii_lower(#[trigger] a[i]) == ascii_lower(b[i])
}

/// The bytes of `null`.
pub open spec fn null_word() -> Seq<u8> {
    seq![0x6Eu8, 0x75, 0x6C, 0x6C]
}

/// The bytes of `true`.
pub open spec fn true_word() -> Seq<u8> {
    seq![0x74u8, 0x72, 0x75, 0x65]
}

/// The bytes of `false`.
pub open spec fn false_word() -> Seq<u8> {
    seq![0x66u8, 0x61, 0x6C, 0x73, 0x65]
}

/// Whether two byte strings are equal when ASCII letter case is ignored.
fn eq_ignore_case(a: &[u8], b: &[u8]) -> (r: bool)
    ensures
        r == same_ignoring_case(a@, b@),
{
    if a.len() != b.len() {
        return false;
    }
    let mut i: usize = 0;
    while i < a.len()
        invariant
            a@.len() == b@.len(),
            i <= a@.len(),
            forall|j: int| 0 <= j < i ==> ascii_lower(#[trigger] a@[j]) == ascii_lower(b@[j]),
        decreases a@.len() - i,
    {
        let x = if 0x41 <= a[i] && a[i] <= 0x5A { a[i] + 0x20 } else { a[i] };
        let y = if 0x41 <= b[i] && b[i] <= 0x5A { b[i] + 0x20 } else { b[i] };
        if x != y {
            return false;
        }
        i = i + 1;
    }
    true
}

impl Value {
    /// The value that a keyword stands for: `null`, `true` or `false`, in
    /// any ASCII letter case; `None` for any other text, which is then
    /// read as a number or kept as a string.
    pub fn parse_keyword(s: &str) -> (r: Option<Value>)
        ensures
            r == (if same_ignoring_case(s.spec_bytes(), null_word()) {
                Some(Value::Null)
            } else if same_ignoring_case(s.spec_bytes(), true_word()) {
                Some(Value::Boolean(true))
            } else if same_ignoring_case(s.spec_bytes(), false_word()) {
                Some(Value::Boolean(false))
            } else {
                None
            }),
    {
        let b = s.as_bytes();
        let n: [u8; 4] = [0x6E, 0x75, 0x6C, 0x6C];
        let t: [u8; 4] = [0x74, 0x72, 0x75, 0x65];
        let f: [u8; 5] = [0x66, 0x61, 0x6C, 0x73, 0x65];
        proof {
            assert(n@ =~= null_word());
            assert(t@ =~= true_word());
            assert(f@ =~= false_word());
        }
        if eq_ignore_case(b, vstd::array::array_as_slice(&n)) {
            Some(Value::Null)
        } else if eq_ignore_case(b, vstd::array::array_as_slice(&t)) {
            Some(Value::Boolean(true))
        } else if eq_ignore_case(b, vstd::array::array_as_slice(&f)) {
            Some(Value::Boolean(false))
        } else {
            None
        }
    }

    /// Returns the value as a string slice, if it is of type `String`.
    pub fn as_str(&self) -> (r: Option<&str>)
        ensures
            match self {
                Value::String(s) => r matches Some(x) && x@ == s@,
                _ => r is None,
            },
    {
        if let Value::String(s) = self {
            Some(s.as_str())
        } else {
            None
        }
    }

    /// Returns the value as a boolean, if it is of type `Boolean`.
    pub fn as_bool(&self) -> (r: Option<bool>)
        ensures
            match self {
                Value::Boolean(b) => r == Some(*b),
                _ => r is None,
            },
    {
        if let Value::Boolean(b) = self {
            Some(*b)
        } else {
            None
        }
    }

    /// Returns the value as an array, if it is of type `Array`.
    pub fn as_array(&self) -> (r: Option<&Vec<Value>>)
        ensures
            match self {
                Value::Array(a) => r matches Some(x) && *x == *a,
                _ => r is None,
            },
    {
        if let Value::Array(arr) = self {
            Some(arr)
        } else {
            None
        }
    }

    /// Returns the value as an object (frontmatter), if it is of type `Object`.
    pub fn as_object(&self) -> (r: Option<&Frontmatter>)
        ensures
            match self {
                Value::Object(o) => r matches Some(x) && *x == **o,
                _ => r is None,
            },
    {
        if let Value::Object(obj) = self {
            Some(obj)
        } else {
            None
        }
    }

    /// Returns the value as a tagged value, if it is of type `Tagged`.
    pub fn as_tagged(&self) -> (r: Option<(&str, &Value)>)
        ensures
            match self {
                Value::Tagged(t, v) => r matches Some((x, y)) && x@ == t@ && *y == **v,
                _ => r is None,
            },
    {
        if let Value::Tagged(tag, val) = self {
            Some((tag.as_str(), val))
        } else {
            None
        }
    }

    /// Checks if the value is of type `Null`.
    pub fn is_null(&self) -> (r: bool)
        ensures
            r == self is Null,
    {
        matches!(self, Value::Null)
    }

    /// Checks if the value is of type `String`.
    pub fn is_string(&self) -> (r: bool)
        ensures
            r == self is String,
    {
        matches!(self, Value::String(_))
    }

    /// Checks if the value is of type `Number`.
    pub fn is_number(&self) -> (r: bool)
        ensures
            r == self is Number,
    {
        matches!(self, Value::Number(_))
    }

    /// Checks if the value is of type `Boolean`.
    pub fn is_boolean(&self) -> (r: bool)
        ensures
            r == self is Boolean,
    {
        matches!(self, Value::Boolean(_))
    }

    /// Checks if the value is of type `Array`.
    pub fn is_array(&self) -> (r: bool)
        ensures
            r == self is Array,
    {
        matches!(self, Value::Array(_))
    }

    /// Checks if the value is of type `Object`.
    pub fn is_object(&self) -> (r: bool)
        ensures
            r == self is Object,
    {
        matches!(self, Value::Object(_))
    }

    /// Checks if the value is of type `Tagged`.
    pub fn is_tagged(&self) -> (r: bool)
        ensures
            r == self is Tagged,
    {
        matches!(self, Value::Tagged(_, _))
    }

    /// Returns the length of the array if the value is an array.
    pub fn array_len(&self) -> (r: Option<usize>)
        ensures
            match self {
                Value::Array(a) => r == Some(a@.len() as usize),
                _ => r is None,
            },
    {
        if let Value::Array(arr) = self {
            Some(arr.len())
        } else {
            None
        }
    }

    /// Attempts to convert the value into a `Frontmatter`.
    pub fn to_object(self) -> (r: Result<Frontmatter, String>)
        ensures
            match self {
                Value::Object(o) => r == Ok::<Frontmatter, String>(*o),
                _ => r matches Err(m) && m@ == "Value is not an object"@,
            },
    {
        if let Value::Object(obj) = self {
            Ok(*obj)
        } else {
            Err("Value is not an object".to_string())
        }
    }

    /// Attempts to convert the value into a `String`.
    pub fn into_string(self) -> (r: Result<String, String>)
        ensures
            match self {
                Value::String(s) => r == Ok::<String, String>(s),
                _ => r matches Err(m) && m@ == "Value is not a string"@,
            },
    {
        if let Value::String(s) = self {
            Ok(s)
        } else {
            Err("Value is not a string".to_string())
        }
    }

    /// Attempts to convert the value into a `bool`.
    pub fn into_bool(self) -> (r: Result<bool, String>)
        ensures
            match self {
                Value::Boolean(b) => r == Ok::<bool, String>(b),
                _ => r matches Err(m) && m@ == "Value is not a boolean"@,
            },
    {
        if let Value::Boolean(b) = self {
            Ok(b)
        } else {
            Err("Value is not a boolean".to_string())
        }
    }

    /// Attempts to get a mutable reference to the array if the value is an array.
    pub fn get_mut_array(&mut self) -> (r: Option<&mut Vec<Value>>)
        ensures
            match *old(self) {
                Value::Array(a) => r matches Some(x) && *x == a && *final(self) == Value::Array(
                    *final(x),
                ),
                _ => r is None && *final(self) == *old(self),
            },
    {
        if let Value::Array(arr) = self {
            Some(arr)
        } else {
            None
        }
    }
}

impl From<bool> for Value {
    /// A boolean value.
    fn from(b: bool) -> (r: Self) {
        Value::Boolean(b)
    }
}

impl vstd::std_specs::convert::FromSpecImpl<bool> for Value {
    open spec fn obeys_from_spec() -> bool {
        true
    }

    open spec fn from_spec(b: bool) -> Value {
        Value::Boolean(b)
    }
}

impl From<String> for Value {
    /// A string value.
    fn from(s: String) -> (r: Self) {
        Value::String(s)
    }
}

impl vstd::std_specs::convert::FromSpecImpl<String> for Value {
    open spec fn obeys_from_spec() -> bool {
        true
    }

    open spec fn from_spec(s: String) -> Value {
        Value::String(s)
    }
}

impl Default for Value {
    /// The default value is `Null`.
    fn default() -> (r: Self)
        ensures
            r == Value::Null,
    {
        Value::Null
    }
}

/// Two values hold the same content, level by level.
pub open spec fn same_value(a: Value, b: Value) -> bool
    decreases a,
{
    match (a, b) {
        (Value::Null, Value::Null) => true,
        (Value::String(x), Value::String(y)) => x@ == y@,
        (Value::Number(x), Value::Number(y)) => x == y,
        (Value::Boolean(x), Value::Boolean(y)) => x == y,
        (Value::Array(x), Value::Array(y)) => x@.len() == y@.len() && forall|i: int|
            0 <= i < x@.len() ==> same_value(#[trigger] x@[i], y@[i]),
        (Value::Object(x), Value::Object(y)) => same_frontmatter(*x, *y),
        (Value::Tagged(t, x), Value::Tagged(u, y)) => t@ == u@ && same_value(*x, *y),
        _ => false,
    }
}

/// Two front matters hold the same keys with the same content.
pub closed spec fn same_frontmatter(a: Frontmatter, b: Frontmatter) -> bool
    decreases a,
{
    a.entries@.len() == b.entries@.len() && forall|i: int|
        0 <= i < a.entries@.len() ==> a.entries@[i].0@ == b.entries@[i].0@ && same_value(
            #[trigger] a.entries@[i].1,
            b.entries@[i].1,
        )
}

/// Front matters that hold the same content have the same keys, each
/// with the same content.
proof fn lemma_same_frontmatter(a: Frontmatter, b: Frontmatter)
    requires
        same_frontmatter(a, b),
        keys_sorted(a.entries@),
        keys_sorted(b.entries@),
    ensures
        a.map().dom() == b.map().dom(),
        forall|k: Seq<char>| #[trigger]
            a.map().contains_key(k) ==> same_value(a.map()[k], b.map()[k]),
{
    let s = a.entries@;
    let t = b.entries@;
    assert forall|k: Seq<char>| a.map().contains_key(k) implies b.map().contains_key(k) && same_value(
        a.map()[k],
        b.map()[k],
    ) by {
        lemma_map_dom(s, k);
        let i = choose|i: int| 0 <= i < s.len() && s[i].0@ == k;
        lemma_map_index(s, i);
        assert(t[i].0@ == k);
        lemma_map_index(t, i);
        assert(same_value(s[i].1, t[i].1));
    }
    assert forall|k: Seq<char>| b.map().contains_key(k) implies a.map().contains_key(k) by {
        lemma_map_dom(t, k);
        let i = choose|i: int| 0 <= i < t.len() && t[i].0@ == k;
        assert(same_value(s[i].1, t[i].1));
        assert(s[i].0@ == k);
        lemma_map_index(s, i);
    }
    assert(a.map().dom() =~= b.map().dom());
}

/// A copy of a value.
fn clone_value(v: &Value) -> (r: Value)
    ensures
        same_value(*v, r),
    decreases v,
{
    match v {
        Value::Null => Value::Null,
        Value::String(s) => Value::String(s.clone()),
        Value::Number(n) => Value::Number(*n),
        Value::Boolean(b) => Value::Boolean(*b),
        Value::Array(a) => Value::Array(clone_values(a)),
        Value::Object(o) => Value::Object(Box::new(clone_frontmatter(o))),
        Value::Tagged(t, b) => Value::Tagged(t.clone(), Box::new(clone_value(b))),
    }
}

/// A copy of a list of values.
fn clone_values(vs: &Vec<Value>) -> (r: Vec<Value>)
    ensures
        r@.len() == vs@.len(),
        forall|i: int| 0 <= i < vs@.len() ==> same_value(#[trigger] vs@[i], r@[i]),
    decreases vs,
{
    let mut out: Vec<Value> = Vec::new();
    let mut i: usize = 0;
    while i < vs.len()
        invariant
            i <= vs@.len(),
            out@.len() == i,
            forall|k: int| 0 <= k < i ==> same_value(#[trigger] vs@[k], out@[k]),
        decreases vs@.len() - i,
    {
        assert(decreases_to!(vs => vs@[i as int]));
        out.push(clone_value(&vs[i]));
        i = i + 1;
    }
    out
}

/// A copy of a frontmatter.
fn clone_frontmatter(f: &Frontmatter) -> (r: Frontmatter)
    ensures
        same_frontmatter(*f, r),
        r.map().dom() == f.map().dom(),
        forall|k: Seq<char>| #[trigger]
            f.map().contains_key(k) ==> same_value(f.map()[k], r.map()[k]),
    decreases f,
{
    proof {
        use_type_invariant(f);
    }
    let mut out: Vec<(String, Value)> = Vec::new();
    let mut i: usize = 0;
    while i < f.entries.len()
        invariant
            i <= f.entries@.len(),
            out@.len() == i,
            keys_sorted(f.entries@),
            forall|k: int| 0 <= k < i ==> (#[trigger] out@[k]).0@ == f.entries@[k].0@,
            forall|k: int| 0 <= k < i ==> same_value(#[trigger] f.entries@[k].1, out@[k].1),
        decreases f.entries@.len() - i,
    {
        assert(decreases_to!(f => f.entries@[i as int].1));
        let v = clone_value(&f.entries[i].1);
        let key = f.entries[i].0.clone();
        out.push((key, v));
        proof {
            assert(out@[i as int].0@ == f.entries@[i as int].0@);
        }
        i = i + 1;
    }
    proof {
        let s = f.entries@;
        let t = out@;
        assert forall|a: int, b: int| 0 <= a < b < t.len() implies key_lt(
            #[trigger] t[a].0@,
            #[trigger] t[b].0@,
        ) by {
            assert(key_lt(s[a].0@, s[b].0@));
        }
        let r = Frontmatter { entries: out };
        lemma_same_frontmatter(*f, r);
    }
    Frontmatter { entries: out }
}

impl Clone for Value {
    /// A copy of the value.
    fn clone(&self) -> (r: Self)
        ensures
            same_value(*self, r),
    {
        clone_value(self)
    }
}

impl Clone for Frontmatter {
    /// A copy of the frontmatter.
    fn clone(&self) -> (r: Self)
        ensures
            same_frontmatter(*self, r),
            r.map().dom() == self.map().dom(),
            forall|k: Seq<char>| #[trigger]
                self.map().contains_key(k) ==> same_value(self.map()[k], r.map()[k]),
    {
        clone_frontmatter(self)
    }
}

/* Escaping */

/// A string's bytes with each `"` and `\` preceded by a backslash.
pub open spec fn escape_bytes(b: Seq<u8>) -> Seq<u8>
    decreases b.len(),
{
    if b.len() == 0 {
        Seq::empty()
    } else if b[0] == 0x22 {
        seq![0x5Cu8, 0x22u8] + escape_bytes(b.drop_first())
    } else if b[0] == 0x5C {
        seq![0x5Cu8, 0x5Cu8] + escape_bytes(b.drop_first())
    } else {
        seq![b[0]] + escape_bytes(b.drop_first())
    }
}

/// Escaping distributes over concatenation.
pub proof fn lemma_escape_concat(a: Seq<u8>, b: Seq<u8>)
    ensures
        escape_bytes(a + b) == escape_bytes(a) + escape_bytes(b),
    decreases a.len(),
{
    if a.len() == 0 {
        assert(a + b =~= b);
    } else {
        assert((a + b).drop_first() =~= a.drop_first() + b);
        lemma_escape_concat(a.drop_first(), b);
        assert(escape_bytes(a + b) =~= escape_bytes(a) + escape_bytes(b));
    }
}

/// Bytes without quotes or backslashes are their own escape.
pub proof fn lemma_escape_plain(b: Seq<u8>)
    requires
        forall|i: int| 0 <= i < b.len() ==> b[i] != 0x22 && b[i] != 0x5C,
    ensures
        escape_bytes(b) == b,
    decreases b.len(),
{
    if b.len() > 0 {
        lemma_escape_plain(b.drop_first());
        assert(escape_bytes(b) =~= b);
    }
}

/// The UTF-8 bytes of a `String`.
pub open spec fn string_bytes(s: String) -> Seq<u8> {
    encode_utf8(s@)
}

/// Appends `piece` to `out`, tracking the bytes.
fn append_str(out: &mut String, piece: &str)
    ensures
        final(out)@ == old(out)@ + piece@,
        string_bytes(*final(out)) == string_bytes(*old(out)) + piece.spec_bytes(),
{
    out.append(piece);
    proof {
        lemma_encode_concat(old(out)@, piece@);
    }
}

/// Escapes special characters in a string (backslashes and quotes).
///
/// Each `"` becomes `\"` and each `\` becomes `\\`; everything else is kept.
pub fn escape_str(s: &str) -> (r: String)
    ensures
        string_bytes(r) == escape_bytes(s.spec_bytes()),
{
    let b = s.as_bytes();
    proof {
        lemma_str_valid(s);
    }
    let quote = "\\\"";
    let backslash = "\\\\";
    proof {
        reveal_strlit("\\\"");
        reveal_strlit("\\\\");
        crate::text::lemma_encode_ascii(quote@);
        crate::text::lemma_encode_ascii(backslash@);
        assert(quote.spec_bytes() =~= seq![0x5Cu8, 0x22u8]);
        assert(backslash.spec_bytes() =~= seq![0x5Cu8, 0x5Cu8]);
    }
    let mut out = String::new();
    let mut seg: usize = 0;
    let mut i: usize = 0;
    while i < b.len()
        invariant
            b@ == s.spec_bytes(),
            b@.len() == b.len(),
            seg <= i <= b@.len(),
            seg == 0 || b@[seg - 1] == 0x22 || b@[seg - 1] == 0x5C,
            forall|k: int| seg <= k < i ==> b@[k] != 0x22 && b@[k] != 0x5C,
            string_bytes(out) == escape_bytes(b@.take(seg as int)),
            quote.spec_bytes() == seq![0x5Cu8, 0x22u8],
            backslash.spec_bytes() == seq![0x5Cu8, 0x5Cu8],
        decreases b@.len() - i,
    {
        if b[i] == 0x22 || b[i] == 0x5C {
            let piece = slice_between(s, seg, i);
            append_str(&mut out, piece);
            if b[i] == 0x22 {
                append_str(&mut out, quote);
            } else {
                append_str(&mut out, backslash);
            }
            proof {
                let mid = b@.subrange(seg as int, i as int);
                lemma_escape_plain(mid);
                assert(b@.take(i + 1) =~= b@.take(seg as int) + mid + seq![b@[i as int]]);
                lemma_escape_concat(b@.take(seg as int), mid);
                lemma_escape_concat(b@.take(seg as int) + mid, seq![b@[i as int]]);
                assert(escape_bytes(seq![b@[i as int]]) =~= if b@[i as int] == 0x22 {
                    seq![0x5Cu8, 0x22u8]
                } else {
                    seq![0x5Cu8, 0x5Cu8]
                }) by {
                    let x = seq![b@[i as int]];
                    assert(x.drop_first() =~= Seq::<u8>::empty());
                    assert(escape_bytes(x.drop_first()) == Seq::<u8>::empty());
                    assert(x[0] == b@[i as int]);
                }
            }
            seg = i + 1;
        }
        i = i + 1;
    }
    let piece = slice_between(s, seg, b.len());
    append_str(&mut out, piece);
    proof {
        let mid = b@.subrange(seg as int, b@.len() as int);
        lemma_escape_plain(mid);
        assert(b@ =~= b@.take(seg as int) + mid);
        lemma_escape_concat(b@.take(seg as int), mid);
        assert(b@.take(b@.len() as int) =~= b@);
    }
    out
}


/* Laws */

/// A key read after it is inserted gives the value inserted, and every
/// other key keeps what it had.
pub proof fn law_get_after_insert(
    m: Map<Seq<char>, Value>,
    k: Seq<char>,
    v: Value,
    j: Seq<char>,
)
    ensures
        m.insert(k, v).contains_key(k),
        m.insert(k, v)[k] == v,
        j != k ==> (m.insert(k, v).contains_key(j) == m.contains_key(j)),
        j != k && m.contains_key(j) ==> m.insert(k, v)[j] == m[j],
{
}

/// Removing a key that was just inserted, where it was absent before,
/// gives back the front matter as it was.
pub proof fn law_remove_undoes_insert(m: Map<Seq<char>, Value>, k: Seq<char>, v: Value)
    requires
        !m.contains_key(k),
    ensures
        m.insert(k, v).remove(k) == m,
{
    assert(m.insert(k, v).remove(k) =~= m);
}

/// Inserting adds one key where the key is new, and none where it is
/// already there.
pub proof fn law_len_after_insert(m: Map<Seq<char>, Value>, k: Seq<char>, v: Value)
    requires
        m.dom().finite(),
    ensures
        m.insert(k, v).dom().len() == if m.contains_key(k) {
            m.dom().len()
        } else {
            m.dom().len() + 1
        },
{
}

/// After a merge, each key of the merged-in front matter holds its value
/// there, and every other key keeps its value.
pub proof fn law_merge_prefers_other(
    m: Map<Seq<char>, Value>,
    o: Map<Seq<char>, Value>,
    k: Seq<char>,
)
    ensures
        o.contains_key(k) ==> m.union_prefer_right(o)[k] == o[k],
        !o.contains_key(k) && m.contains_key(k) ==> m.union_prefer_right(o)[k] == m[k],
        m.union_prefer_right(o).contains_key(k) == (m.contains_key(k) || o.contains_key(k)),
{
}

/// Undoes escaping: a backslash keeps the byte after it.
pub open spec fn unescape_bytes(b: Seq<u8>) -> Seq<u8>
    decreases b.len(),
{
    if b.len() == 0 {
        Seq::empty()
    } else if b[0] == 0x5C && b.len() >= 2 {
        seq![b[1]] + unescape_bytes(b.skip(2))
    } else {
        seq![b[0]] + unescape_bytes(b.drop_first())
    }
}

/// Unescaping what [`escape_str`] produces gives back the bytes escaped.
pub proof fn law_unescape_escape(b: Seq<u8>)
    ensures
        unescape_bytes(escape_bytes(b)) == b,
    decreases b.len(),
{
    if b.len() > 0 {
        law_unescape_escape(b.drop_first());
        let e = escape_bytes(b);
        let t = escape_bytes(b.drop_first());
        if b[0] == 0x22 || b[0] == 0x5C {
            assert(e.skip(2) =~= t);
            assert(e[0] == 0x5C);
            assert(e[1] == b[0]);
        } else {
            assert(e.drop_first() =~= t);
        }
        assert(unescape_bytes(e) =~= b);
    }
}

/// The number of quotes and backslashes in `b`.
pub open spec fn special_count(b: Seq<u8>) -> nat
    decreases b.len(),
{
    if b.len() == 0 {
        0
    } else {
        (if b[0] == 0x22 || b[0] == 0x5C {
            1nat
        } else {
            0nat
        }) + special_count(b.drop_first())
    }
}

/// Escaping adds exactly one byte per quote and per backslash, so it
/// never shortens a string and leaves a string with neither unchanged.
pub proof fn law_escape_length(b: Seq<u8>)
    ensures
        escape_bytes(b).len() == b.len() + special_count(b),
        (forall|i: int| 0 <= i < b.len() ==> b[i] != 0x22 && b[i] != 0x5C) ==> escape_bytes(b)
            == b,
    decreases b.len(),
{
    if b.len() > 0 {
        law_escape_length(b.drop_first());
        if forall|i: int| 0 <= i < b.len() ==> b[i] != 0x22 && b[i] != 0x5C {
            lemma_escape_plain(b);
        }
    }
}

} // verus!
