//! Building blocks of the site-generation engine: the bounded caches it
//! keeps its templates and content in, and the rules by which it picks
//! template and content files and splits a page into front matter and
//! body.

use crate::text::{
    find_bytes, find_spec, lemma_str_valid, occurs_at, slice_between, str_eq, trim, trim_chars,
};
use vstd::prelude::*;
use vstd::string::StringSliceAdditionalSpecFns;

verus! {

broadcast use vstd::string::group_string_axioms, vstd::utf8::encode_utf8_decode_utf8;

/// Maximum number of entries that each cache of the engine holds.
pub const MAX_CACHE_SIZE: usize = 1000;

/// The map that a list of key and value pairs holds, later pairs winning.
pub open spec fn pairs_map<V>(s: Seq<(String, V)>) -> Map<Seq<char>, V>
    decreases s.len(),
{
    if s.len() == 0 {
        Map::empty()
    } else {
        pairs_map(s.drop_last()).insert(s.last().0@, s.last().1)
    }
}

/// No key occurs twice.
pub open spec fn distinct_keys<V>(s: Seq<(String, V)>) -> bool {
    forall|i: int, j: int| 0 <= i < j < s.len() ==> #[trigger] s[i].0@ != #[trigger] s[j].0@
}

/// The keys of a list of key and value pairs, in order.
pub open spec fn pair_keys<V>(s: Seq<(String, V)>) -> Seq<Seq<char>> {
    s.map_values(|p: (String, V)| p.0@)
}

/// Each pair is in the map.
pub proof fn lemma_pairs_index<V>(s: Seq<(String, V)>, i: int)
    requires
        distinct_keys(s),
        0 <= i < s.len(),
    ensures
        pairs_map(s).contains_key(s[i].0@),
        pairs_map(s)[s[i].0@] == s[i].1,
    decreases s.len(),
{
    if i < s.len() - 1 {
        let t = s.drop_last();
        assert(t[i] == s[i]);
        lemma_pairs_index(t, i);
        assert(s[i].0@ != s[s.len() - 1].0@);
    }
}

/// Every key of the map is the key of a pair.
pub proof fn lemma_pairs_dom<V>(s: Seq<(String, V)>, k: Seq<char>)
    ensures
        pairs_map(s).contains_key(k) <==> exists|i: int| 0 <= i < s.len() && s[i].0@ == k,
    decreases s.len(),
{
    if s.len() > 0 {
        let t = s.drop_last();
        lemma_pairs_dom(t, k);
        if exists|i: int| 0 <= i < s.len() && s[i].0@ == k {
            let i = choose|i: int| 0 <= i < s.len() && s[i].0@ == k;
            if i < s.len() - 1 {
                assert(t[i] == s[i]);
            }
        }
        if exists|i: int| 0 <= i < t.len() && t[i].0@ == k {
            let i = choose|i: int| 0 <= i < t.len() && t[i].0@ == k;
            assert(s[i] == t[i]);
        }
    }
}

/// The map of distinct pairs is `m` when the pairs list exactly `m`.
proof fn lemma_pairs_eq<V>(s: Seq<(String, V)>, m: Map<Seq<char>, V>)
    requires
        distinct_keys(s),
        forall|i: int| 0 <= i < s.len() ==> m.contains_key(#[trigger] s[i].0@) && m[s[i].0@] == s[i].1,
        forall|k: Seq<char>| m.contains_key(k) ==> exists|i: int| 0 <= i < s.len() && s[i].0@ == k,
    ensures
        pairs_map(s) == m,
{
    assert forall|k: Seq<char>| pairs_map(s).contains_key(k) <==> m.contains_key(k) by {
        lemma_pairs_dom(s, k);
    }
    assert forall|k: Seq<char>| pairs_map(s).contains_key(k) implies pairs_map(s)[k] == m[k] by {
        lemma_pairs_dom(s, k);
        let i = choose|i: int| 0 <= i < s.len() && s[i].0@ == k;
        lemma_pairs_index(s, i);
    }
    assert(pairs_map(s) =~= m);
}

/// The map has one key per pair.
proof fn lemma_pairs_len<V>(s: Seq<(String, V)>)
    requires
        distinct_keys(s),
    ensures
        pairs_map(s).dom().finite(),
        pairs_map(s).dom().len() == s.len(),
    decreases s.len(),
{
    if s.len() > 0 {
        let t = s.drop_last();
        lemma_pairs_len(t);
        lemma_pairs_dom(t, s.last().0@);
        if pairs_map(t).contains_key(s.last().0@) {
            let i = choose|i: int| 0 <= i < t.len() && t[i].0@ == s.last().0@;
            assert(s[i] == t[i]);
        }
    }
}

/// A cache with entries `m` and limit `limit` is full: it holds at least
/// one entry and no fewer than its limit.
pub open spec fn is_full<V>(m: Map<Seq<char>, V>, limit: usize) -> bool {
    m.dom().len() >= limit && m.dom().len() > 0
}

/// The entries left once a full cache has evicted the entry for `evicted`;
/// a cache that is not full keeps them all.
pub open spec fn after_eviction<V>(m: Map<Seq<char>, V>, limit: usize, evicted: Seq<char>) -> Map<
    Seq<char>,
    V,
> {
    if is_full(m, limit) {
        m.remove(evicted)
    } else {
        m
    }
}

/// A cache holding at most a given number of entries, keyed by text.
/// When it is full, inserting first evicts an entry.
#[derive(Debug)]
pub struct SizeCache<V> {
    items: Vec<(String, V)>,
    max_size: usize,
}

impl<V> SizeCache<V> {
    /// No key occurs twice.
    #[verifier::type_invariant]
    spec fn keys_distinct(self) -> bool {
        distinct_keys(self.items@)
    }

    /// The entries, as a map.
    pub closed spec fn map(self) -> Map<Seq<char>, V> {
        pairs_map(self.items@)
    }

    /// The keys of the entries, oldest first.
    pub closed spec fn keys(self) -> Seq<Seq<char>> {
        pair_keys(self.items@)
    }

    /// The number of entries that makes the cache full.
    pub closed spec fn limit(self) -> usize {
        self.max_size
    }

    /// Creates an empty cache that holds at most `max_size` entries.
    pub fn new(max_size: usize) -> (r: Self)
        ensures
            r.map() == Map::<Seq<char>, V>::empty(),
            r.keys() == Seq::<Seq<char>>::empty(),
            r.limit() == max_size,
    {
        let r = SizeCache { items: Vec::new(), max_size };
        proof {
            assert(r.keys() =~= Seq::<Seq<char>>::empty());
        }
        r
    }

    /// The number of entries.
    pub fn len(&self) -> (r: usize)
        ensures
            r == self.map().dom().len(),
            self.map().dom().finite(),
    {
        proof {
            use_type_invariant(self);
            lemma_pairs_len(self.items@);
        }
        self.items.len()
    }

    /// The value for a key, if the cache holds it.
    pub fn get(&self, key: &str) -> (r: Option<&V>)
        ensures
            match r {
                Some(v) => self.map().contains_key(key@) && *v == self.map()[key@],
                None => !self.map().contains_key(key@),
            },
    {
        proof {
            use_type_invariant(self);
        }
        let mut i: usize = 0;
        while i < self.items.len()
            invariant
                i <= self.items@.len(),
                distinct_keys(self.items@),
                forall|j: int| 0 <= j < i ==> self.items@[j].0@ != key@,
            decreases self.items@.len() - i,
        {
            if str_eq(self.items[i].0.as_str(), key) {
                proof {
                    lemma_pairs_index(self.items@, i as int);
                }
                return Some(&self.items[i].1);
            }
            i = i + 1;
        }
        proof {
            lemma_pairs_dom(self.items@, key@);
        }
        None
    }

    /// Inserts a key and value, returning the value that the key held.
    ///
    /// If the cache is full (as many entries as its limit, and at least
    /// one), its oldest entry is evicted first; the value returned is then
    /// the key's value after the eviction. A new key becomes the newest
    /// entry; a key already held keeps its place.
    pub fn insert(&mut self, key: String, value: V) -> (r: Option<V>)
        ensures
            final(self).limit() == old(self).limit(),
            ({
                let m = old(self).map();
                let full = is_full(m, old(self).limit());
                let kept = after_eviction(m, old(self).limit(), old(self).keys()[0]);
                let ks = if full {
                    old(self).keys().drop_first()
                } else {
                    old(self).keys()
                };
                &&& full ==> old(self).keys().len() > 0 && m.contains_key(old(self).keys()[0])
                &&& final(self).map() == kept.insert(key@, value)
                &&& r == (if kept.contains_key(key@) {
                    Some(kept[key@])
                } else {
                    None
                })
                &&& final(self).keys() == (if kept.contains_key(key@) {
                    ks
                } else {
                    ks.push(key@)
                })
            }),
    {
        proof {
            use_type_invariant(&*self);
        }
        let ghost m = self.map();
        let ghost ks0 = self.keys();
        let mut items: Vec<(String, V)> = Vec::new();
        std::mem::swap(&mut items, &mut self.items);
        let (items, evicted) = evict_first(items, self.max_size);
        let ghost mid = items@;
        let (items, r) = upsert(items, key, value);
        self.items = items;
        proof {
            let ghost after = after_eviction(m, self.max_size, ks0[0]);
            assert(is_full(m, self.max_size) ==> evicted@ == ks0[0]);
            assert(after == pairs_map(mid));
            assert(self.map() == after.insert(key@, value));
            assert(r == (if after.contains_key(key@) { Some(after[key@]) } else { None }));
        }
        r
    }

    /// Removes every entry.
    pub fn clear(&mut self)
        ensures
            final(self).map() == Map::<Seq<char>, V>::empty(),
            final(self).keys() == Seq::<Seq<char>>::empty(),
            final(self).limit() == old(self).limit(),
    {
        self.items = Vec::new();
        proof {
            assert(self.keys() =~= Seq::<Seq<char>>::empty());
        }
    }
}

/// Evicts the first entry where the list, as a cache with limit `max`,
/// is full; also gives the evicted key.
fn evict_first<V>(items: Vec<(String, V)>, max: usize) -> (r: (Vec<(String, V)>, Ghost<Seq<char>>))
    requires
        distinct_keys(items@),
    ensures
        distinct_keys(r.0@),
        pairs_map(r.0@) == after_eviction(pairs_map(items@), max, r.1@),
        is_full(pairs_map(items@), max) ==> pairs_map(items@).contains_key(r.1@) && items@.len()
            > 0 && r.1@ == items@[0].0@ && pair_keys(r.0@) == pair_keys(items@).drop_first(),
        !is_full(pairs_map(items@), max) ==> r.0@ == items@,
{
    proof {
        lemma_pairs_len(items@);
    }
    let ghost m = pairs_map(items@);
    let ghost s0 = items@;
    let mut items = items;
    if items.len() >= max && items.len() > 0 {
        let gone = items.remove(0);
        let ghost evicted = gone.0@;
        proof {
            lemma_pairs_index(s0, 0);
            assert forall|i: int| 0 <= i < items@.len() implies m.remove(evicted).contains_key(
                #[trigger] items@[i].0@,
            ) && m.remove(evicted)[items@[i].0@] == items@[i].1 by {
                assert(items@[i] == s0[i + 1]);
                lemma_pairs_index(s0, i + 1);
            }
            assert forall|k: Seq<char>| m.remove(evicted).contains_key(k) implies exists|i: int|
                0 <= i < items@.len() && items@[i].0@ == k by {
                lemma_pairs_dom(s0, k);
                let i = choose|i: int| 0 <= i < s0.len() && s0[i].0@ == k;
                assert(i != 0);
                assert(items@[i - 1] == s0[i]);
            }
            assert forall|i: int, j: int| 0 <= i < j < items@.len() implies #[trigger] items@[i].0@
                != #[trigger] items@[j].0@ by {
                assert(items@[i] == s0[i + 1]);
                assert(items@[j] == s0[j + 1]);
            }
            lemma_pairs_eq(items@, m.remove(evicted));
        }
        (items, Ghost(evicted))
    } else {
        (items, Ghost(Seq::empty()))
    }
}

/// Sets the value of `key`, in place where the key is listed and at the
/// end otherwise; also gives the value it replaces.
fn upsert<V>(items: Vec<(String, V)>, key: String, value: V) -> (r: (Vec<(String, V)>, Option<V>))
    requires
        distinct_keys(items@),
    ensures
        distinct_keys(r.0@),
        pairs_map(r.0@) == pairs_map(items@).insert(key@, value),
        r.1 == (if pairs_map(items@).contains_key(key@) {
            Some(pairs_map(items@)[key@])
        } else {
            None
        }),
        pair_keys(r.0@) == (if pairs_map(items@).contains_key(key@) {
            pair_keys(items@)
        } else {
            pair_keys(items@).push(key@)
        }),
{
    let ghost s1 = items@;
    let ghost kept = pairs_map(s1);
    let mut items = items;
    let mut p: usize = 0;
    while p < items.len()
        invariant
            p <= items@.len(),
            items@ == s1,
            forall|j: int| 0 <= j < p ==> items@[j].0@ != key@,
        ensures
            p <= items@.len(),
            items@ == s1,
            forall|j: int| 0 <= j < p ==> items@[j].0@ != key@,
            p < items@.len() ==> items@[p as int].0@ == key@,
        decreases items@.len() - p,
    {
        if str_eq(items[p].0.as_str(), key.as_str()) {
            break;
        }
        p = p + 1;
    }
    let ghost k = key@;
    let r = if p < items.len() {
        let old_pair = items.remove(p);
        items.insert(p, (key, value));
        proof {
            lemma_pairs_index(s1, p as int);
        }
        Some(old_pair.1)
    } else {
        items.push((key, value));
        proof {
            lemma_pairs_dom(s1, k);
        }
        None
    };
    proof {
        let t = items@;
        let m2 = kept.insert(k, value);
        assert forall|i: int, j: int| 0 <= i < j < t.len() implies #[trigger] t[i].0@
            != #[trigger] t[j].0@ by {
            if i != p && j != p {
                assert(t[i] == s1[i]);
                assert(t[j] == s1[j]);
            }
            if i == p && j < s1.len() {
                assert(t[j] == s1[j]);
            }
            if j == p && i < s1.len() {
                assert(t[i] == s1[i]);
            }
        }
        assert forall|i: int| 0 <= i < t.len() implies m2.contains_key(#[trigger] t[i].0@)
            && m2[t[i].0@] == t[i].1 by {
            if i != p {
                assert(t[i] == s1[i]);
                lemma_pairs_index(s1, i);
            }
        }
        assert forall|q: Seq<char>| m2.contains_key(q) implies exists|i: int|
            0 <= i < t.len() && t[i].0@ == q by {
            if q == k {
                assert(t[p as int].0@ == k);
            } else {
                lemma_pairs_dom(s1, q);
                let i = choose|i: int| 0 <= i < s1.len() && s1[i].0@ == q;
                assert(t[i] == s1[i]);
            }
        }
        lemma_pairs_eq(t, m2);
    }
    (items, r)
}

/// Index of the last `.` in `b`, or -1.
pub open spec fn last_dot(b: Seq<u8>) -> int
    decreases b.len(),
{
    if b.len() == 0 {
        -1
    } else if b.last() == 0x2E {
        b.len() - 1
    } else {
        last_dot(b.drop_last())
    }
}

/// The stem and extension of a file name, as `Path::file_stem` and
/// `Path::extension` split it: at the last `.`, unless that is the first
/// byte or there is none.
pub open spec fn stem_and_extension(name: Seq<u8>) -> Option<(Seq<u8>, Seq<u8>)> {
    let i = last_dot(name);
    if i <= 0 {
        None
    } else {
        Some((name.take(i), name.skip(i + 1)))
    }
}

/// Finds the last `.` of a byte string.
fn find_last_dot(b: &[u8]) -> (r: Option<usize>)
    ensures
        match r {
            Some(i) => i == last_dot(b@) && i < b@.len() && b@[i as int] == 0x2E,
            None => last_dot(b@) == -1,
        },
{
    proof {
        assert(b@.take(b@.len() as int) =~= b@);
    }
    let mut j: usize = b.len();
    while j > 0 && b[j - 1] != 0x2E
        invariant
            j <= b@.len(),
            forall|k: int| j <= k < b@.len() ==> b@[k] != 0x2E,
            last_dot(b@) == last_dot(b@.take(j as int)),
        decreases j,
    {
        proof {
            assert(b@.take(j as int).drop_last() =~= b@.take(j - 1));
        }
        j = j - 1;
    }
    if j == 0 {
        proof {
            assert(b@.take(0) =~= Seq::<u8>::empty());
        }
        None
    } else {
        proof {
            assert(b@.take(j as int).last() == b@[j - 1]);
        }
        Some(j - 1)
    }
}

/// `html`
pub open spec fn html_ext() -> Seq<u8> {
    seq![0x68u8, 0x74, 0x6D, 0x6C]
}

/// `hbs`
pub open spec fn hbs_ext() -> Seq<u8> {
    seq![0x68u8, 0x62, 0x73]
}

/// `md`
pub open spec fn md_ext() -> Seq<u8> {
    seq![0x6Du8, 0x64]
}

/// `b` is exactly `n`.
fn bytes_equal(b: &[u8], n: &[u8]) -> (r: bool)
    ensures
        r == (b@ == n@),
{
    if b.len() != n.len() {
        return false;
    }
    let r = crate::text::matches_at(b, n, 0);
    proof {
        assert(b@.subrange(0, n@.len() as int) =~= b@);
    }
    r
}

/// The name under which a template file is loaded: the stem of a file
/// name whose extension is `html` or `hbs`.
pub fn template_name(file_name: &str) -> (r: Option<&str>)
    ensures
        match stem_and_extension(file_name.spec_bytes()) {
            Some((stem, ext)) => if ext == html_ext() || ext == hbs_ext() {
                r matches Some(x) && x.spec_bytes() == stem
            } else {
                r is None
            },
            None => r is None,
        },
{
    let b = file_name.as_bytes();
    proof {
        lemma_str_valid(file_name);
    }
    let html: [u8; 4] = [0x68, 0x74, 0x6D, 0x6C];
    let hbs: [u8; 3] = [0x68, 0x62, 0x73];
    proof {
        assert(html@ =~= html_ext());
        assert(hbs@ =~= hbs_ext());
    }
    let n = b.len();
    match find_last_dot(b) {
        Some(i) => {
            if i == 0 {
                return None;
            }
            let ext = slice_between(file_name, i + 1, n);
            let eb = ext.as_bytes();
            proof {
                assert(eb@ =~= b@.skip(i + 1));
            }
            if bytes_equal(eb, vstd::array::array_as_slice(&html)) || bytes_equal(
                eb,
                vstd::array::array_as_slice(&hbs),
            ) {
                let stem = slice_between(file_name, 0, i);
                proof {
                    assert(stem.spec_bytes() =~= b@.take(i as int));
                }
                Some(stem)
            } else {
                None
            }
        },
        None => None,
    }
}

/// A content file is a file whose extension is `md`.
pub fn is_markdown_file(file_name: &str) -> (r: bool)
    ensures
        r == (stem_and_extension(file_name.spec_bytes()) matches Some((_, ext)) && ext == md_ext()),
{
    let b = file_name.as_bytes();
    proof {
        lemma_str_valid(file_name);
    }
    let md: [u8; 2] = [0x6D, 0x64];
    proof {
        assert(md@ =~= md_ext());
    }
    let n = b.len();
    match find_last_dot(b) {
        Some(i) => {
            if i == 0 {
                return false;
            }
            let ext = slice_between(file_name, i + 1, n);
            let eb = ext.as_bytes();
            proof {
                assert(eb@ =~= b@.skip(i + 1));
            }
            bytes_equal(eb, vstd::array::array_as_slice(&md))
        },
        None => false,
    }
}

/// `---`
pub open spec fn page_fence() -> Seq<u8> {
    seq![0x2Du8, 0x2D, 0x2D]
}

/// How a page splits into front matter and body, as the three pieces of
/// `str::splitn(3, "---")` give them: the text between the first two
/// `---`, and what follows the second, trimmed. A page with fewer than
/// two `---` does not split.
pub open spec fn page_split(c: Seq<u8>) -> Option<(Seq<u8>, Seq<char>)> {
    match find_spec(c, page_fence()) {
        Some(i) => {
            let rest = c.skip(i + 3);
            match find_spec(rest, page_fence()) {
                Some(j) => Some(
                    (
                        rest.take(j),
                        trim_chars(vstd::utf8::decode_utf8(rest.skip(j + 3))),
                    ),
                ),
                None => None,
            }
        },
        None => None,
    }
}

/// Splits a page into its front matter text and its trimmed body, at the
/// first two `---`.
pub fn split_page(content: &str) -> (r: Option<(&str, &str)>)
    ensures
        match page_split(content.spec_bytes()) {
            Some((fm, body)) => r matches Some((x, y)) && x.spec_bytes() == fm && y@ == body,
            None => r is None,
        },
{
    let c = content.as_bytes();
    let clen = c.len();
    proof {
        lemma_str_valid(content);
    }
    let fence: [u8; 3] = [0x2D, 0x2D, 0x2D];
    proof {
        assert(fence@ =~= page_fence());
    }
    let i = match find_bytes(c, vstd::array::array_as_slice(&fence)) {
        Some(i) => i,
        None => {
            return None;
        },
    };
    proof {
        crate::text::lemma_find_from(c@, page_fence(), 0);
        assert(occurs_at(c@, page_fence(), i as int));
        assert(c@.subrange(i as int, i + 3)[2] == c@[i + 2]);
        crate::text::lemma_ascii_boundaries(c@, i + 2);
    }
    let (_, after) = content.split_at(i + 3);
    let a = after.as_bytes();
    proof {
        lemma_str_valid(after);
        assert(a@ =~= c@.skip(i + 3));
    }
    let j = match find_bytes(a, vstd::array::array_as_slice(&fence)) {
        Some(j) => j,
        None => {
            return None;
        },
    };
    proof {
        crate::text::lemma_find_from(a@, page_fence(), 0);
        assert(occurs_at(a@, page_fence(), j as int));
        assert(a@.subrange(j as int, j + 3)[0] == a@[j as int]);
        crate::text::lemma_ascii_boundaries(a@, j as int);
    }
    let (fm, tail) = after.split_at(j);
    proof {
        lemma_str_valid(tail);
        assert(tail.spec_bytes() =~= a@.skip(j as int));
        assert(a@.subrange(j as int, j + 3)[2] == a@[j + 2]);
        assert(tail.spec_bytes()[2] == a@[j + 2]);
        crate::text::lemma_ascii_boundaries(tail.spec_bytes(), 2);
    }
    let (_, body) = tail.split_at(3);
    proof {
        lemma_str_valid(fm);
        lemma_str_valid(body);
        assert(fm.spec_bytes() =~= a@.take(j as int));
        assert(body.spec_bytes() =~= a@.skip(j + 3));
    }
    Some((fm, trim(body)))
}

/// A cache never holds more entries than its limit, or one where the
/// limit is zero: an insertion into a cache within that bound keeps it
/// within the bound.
pub proof fn law_cache_stays_bounded<V>(
    m: Map<Seq<char>, V>,
    limit: usize,
    evicted: Seq<char>,
    key: Seq<char>,
    value: V,
)
    requires
        m.dom().finite(),
        m.dom().len() <= if limit == 0 {
            1
        } else {
            limit as nat
        },
        is_full(m, limit) ==> m.contains_key(evicted),
    ensures
        after_eviction(m, limit, evicted).insert(key, value).dom().len() <= if limit == 0 {
            1
        } else {
            limit as nat
        },
{
    let kept = after_eviction(m, limit, evicted);
    if is_full(m, limit) {
        assert(kept.dom().len() == m.dom().len() - 1);
    }
    assert(kept.dom().finite());
}

} // verus!
