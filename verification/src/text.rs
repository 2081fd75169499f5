//! Byte-level text helpers: substring search over UTF-8 bytes, the
//! character-boundary facts that slicing a `str` at an ASCII byte needs,
//! and Unicode leading-whitespace trimming.

use vstd::prelude::*;
use vstd::std_specs::iter::IteratorSpec;
use vstd::string::StringSliceAdditionalSpecFns;
use vstd::utf8::*;

verus! {

broadcast use vstd::utf8::encode_utf8_valid_utf8, vstd::utf8::encode_utf8_decode_utf8,
    vstd::string::group_string_axioms;

/// `n` occurs in `h` starting at byte `i`.
pub open spec fn occurs_at(h: Seq<u8>, n: Seq<u8>, i: int) -> bool {
    &&& 0 <= i
    &&& i + n.len() <= h.len()
    &&& h.subrange(i, i + n.len()) == n
}

/// Position of the first occurrence of `n` in `h` at or after `i`.
pub open spec fn find_from(h: Seq<u8>, n: Seq<u8>, i: int) -> Option<int>
    decreases h.len() + 1 - i,
{
    if i + n.len() > h.len() {
        None
    } else if occurs_at(h, n, i) {
        Some(i)
    } else {
        find_from(h, n, i + 1)
    }
}

/// Position of the first occurrence of `n` in `h`, as `str::find` reports it.
pub open spec fn find_spec(h: Seq<u8>, n: Seq<u8>) -> Option<int> {
    find_from(h, n, 0)
}

/// `h` begins with `p`.
pub open spec fn starts_with(h: Seq<u8>, p: Seq<u8>) -> bool {
    occurs_at(h, p, 0)
}

/// `x` is the last bytes of `y`.
pub open spec fn suffix_of(x: Seq<u8>, y: Seq<u8>) -> bool {
    x.len() <= y.len() && y.skip(y.len() - x.len()) == x
}

/// `x` stands somewhere in `y` as a run of consecutive bytes.
pub open spec fn part_of(x: Seq<u8>, y: Seq<u8>) -> bool {
    exists|i: int| 0 <= i && i + x.len() <= y.len() && #[trigger] y.subrange(i, i + x.len()) == x
}

/// `h` holds the byte `b` somewhere.
pub open spec fn has_byte(h: Seq<u8>, b: u8) -> bool {
    exists|i: int| 0 <= i < h.len() && h[i] == b
}

/// What a first occurrence means.
pub proof fn lemma_find_from(h: Seq<u8>, n: Seq<u8>, i: int)
    requires
        0 <= i,
    ensures
        find_from(h, n, i) matches Some(k) ==> i <= k && occurs_at(h, n, k) && forall|j: int|
            i <= j < k ==> !occurs_at(h, n, j),
        find_from(h, n, i) is None ==> forall|j: int| i <= j ==> !occurs_at(h, n, j),
    decreases h.len() + 1 - i,
{
    if i + n.len() > h.len() {
    } else if occurs_at(h, n, i) {
    } else {
        lemma_find_from(h, n, i + 1);
    }
}

/// Whether `n` occurs in `h` at byte `i`.
pub fn matches_at(h: &[u8], n: &[u8], i: usize) -> (r: bool)
    ensures
        r == occurs_at(h@, n@, i as int),
{
    if i > h.len() || n.len() > h.len() - i {
        return false;
    }
    let mut j: usize = 0;
    while j < n.len()
        invariant
            i + n@.len() <= h@.len(),
            i <= h@.len(),
            h@.len() == h.len(),
            n@.len() == n.len(),
            j <= n@.len(),
            forall|k: int| 0 <= k < j ==> h@[i + k] == n@[k],
        decreases n@.len() - j,
    {
        if h[i + j] != n[j] {
            assert(h@.subrange(i as int, i + n@.len())[j as int] != n@[j as int]);
            return false;
        }
        j = j + 1;
    }
    assert(h@.subrange(i as int, i + n@.len()) =~= n@);
    true
}

/// Finds the first occurrence of `n` in `h`, as `str::find` does.
pub fn find_bytes(h: &[u8], n: &[u8]) -> (r: Option<usize>)
    ensures
        match r {
            Some(i) => find_spec(h@, n@) == Some(i as int),
            None => find_spec(h@, n@) is None,
        },
{
    if n.len() > h.len() {
        return None;
    }
    let last = h.len() - n.len();
    let mut i: usize = 0;
    loop
        invariant
            last == h@.len() - n@.len(),
            i <= last,
            find_spec(h@, n@) == find_from(h@, n@, i as int),
        decreases last - i,
    {
        if matches_at(h, n, i) {
            return Some(i);
        }
        if i == last {
            assert(find_from(h@, n@, i + 1) is None);
            return None;
        }
        i = i + 1;
    }
}

/// Finds the first occurrence of the byte `b` in `h` at or after `from`.
pub fn find_byte_from(h: &[u8], b: u8, from: usize) -> (r: Option<usize>)
    requires
        from <= h@.len(),
    ensures
        match r {
            Some(i) => from <= i < h@.len() && h@[i as int] == b && forall|j: int|
                from <= j < i ==> h@[j] != b,
            None => forall|j: int| from <= j < h@.len() ==> h@[j] != b,
        },
{
    let mut i = from;
    while i < h.len()
        invariant
            from <= i <= h@.len(),
            forall|j: int| from <= j < i ==> h@[j] != b,
        decreases h@.len() - i,
    {
        if h[i] == b {
            return Some(i);
        }
        i = i + 1;
    }
    None
}

/// Whether `h` holds the byte `b`.
pub fn contains_byte(h: &[u8], b: u8) -> (r: bool)
    ensures
        r == has_byte(h@, b),
{
    match find_byte_from(h, b, 0) {
        Some(_) => true,
        None => false,
    }
}

/* UTF-8 facts */

/// Encoding distributes over concatenation.
pub proof fn lemma_encode_concat(a: Seq<char>, b: Seq<char>)
    ensures
        encode_utf8(a + b) == encode_utf8(a) + encode_utf8(b),
    decreases a.len(),
{
    if a.len() == 0 {
        assert(a + b =~= b);
    } else {
        assert((a + b).drop_first() =~= a.drop_first() + b);
        lemma_encode_concat(a.drop_first(), b);
        assert(encode_utf8(a + b) =~= encode_utf8(a) + encode_utf8(b));
    }
}

/// In valid UTF-8, the byte after an ASCII byte starts a new character.
pub proof fn lemma_ascii_next_not_continuation(bytes: Seq<u8>, i: int)
    requires
        valid_utf8(bytes),
        0 <= i,
        i + 1 < bytes.len(),
        bytes[i] < 0x80,
    ensures
        !is_continuation_byte(bytes[i + 1]),
    decreases bytes.len(),
{
    let w = length_of_first_scalar(bytes);
    let pop = pop_first_scalar(bytes);
    assert(valid_first_scalar(bytes) && valid_utf8(pop));
    if i < w {
        assert(i == 0);
        assert(w == 1);
        assert(pop[0] == bytes[1]);
        assert(valid_first_scalar(pop));
    } else {
        assert(pop[i - w] == bytes[i]);
        assert(pop[i - w + 1] == bytes[i + 1]);
        lemma_ascii_next_not_continuation(pop, i - w);
    }
}

/// Any index of valid UTF-8 that is the end or holds no continuation byte
/// is a character boundary.
pub proof fn lemma_boundary(bytes: Seq<u8>, i: int)
    requires
        valid_utf8(bytes),
        0 <= i <= bytes.len(),
        i < bytes.len() ==> !is_continuation_byte(bytes[i]),
    ensures
        is_char_boundary(bytes, i),
{
    if i == bytes.len() {
        is_char_boundary_start_end_of_seq(bytes);
    } else {
        is_char_boundary_iff_not_is_continuation_byte(bytes, i);
    }
}

/// Both sides of an ASCII byte are character boundaries.
pub proof fn lemma_ascii_boundaries(bytes: Seq<u8>, i: int)
    requires
        valid_utf8(bytes),
        0 <= i < bytes.len(),
        bytes[i] < 0x80,
    ensures
        is_char_boundary(bytes, i),
        is_char_boundary(bytes, i + 1),
{
    lemma_boundary(bytes, i);
    if i + 1 < bytes.len() {
        lemma_ascii_next_not_continuation(bytes, i);
    }
    lemma_boundary(bytes, i + 1);
}

/// The end of a valid prefix of valid UTF-8 is a character boundary.
pub proof fn lemma_prefix_boundary(p: Seq<u8>, q: Seq<u8>)
    requires
        valid_utf8(p),
        valid_utf8(p + q),
    ensures
        is_char_boundary(p + q, p.len() as int),
    decreases p.len(),
{
    if p.len() == 0 {
    } else {
        let w = length_of_first_scalar(p);
        assert(valid_first_scalar(p));
        assert(forall|k: int| 0 <= k < p.len() ==> (p + q)[k] == p[k]);
        assert(valid_first_scalar(p + q));
        assert(length_of_first_scalar(p + q) == w);
        assert(pop_first_scalar(p + q) =~= pop_first_scalar(p) + q);
        lemma_prefix_boundary(pop_first_scalar(p), q);
    }
}

/// A place where a non-empty valid UTF-8 sequence occurs is a character boundary.
pub proof fn lemma_occurrence_boundary(h: Seq<u8>, n: Seq<u8>, i: int)
    requires
        valid_utf8(h),
        valid_utf8(n),
        n.len() > 0,
        occurs_at(h, n, i),
    ensures
        is_char_boundary(h, i),
{
    assert(valid_first_scalar(n));
    assert(h.subrange(i, i + n.len())[0] == n[0]);
    lemma_boundary(h, i);
}

/* Whitespace */

/// The Unicode `White_Space` property, which `char::is_whitespace` tests.
pub open spec fn is_unicode_whitespace(c: char) -> bool {
    let u = c as u32;
    ||| 0x09 <= u <= 0x0D
    ||| u == 0x20
    ||| u == 0x85
    ||| u == 0xA0
    ||| u == 0x1680
    ||| 0x2000 <= u <= 0x200A
    ||| u == 0x2028
    ||| u == 0x2029
    ||| u == 0x202F
    ||| u == 0x205F
    ||| u == 0x3000
}

/// `s` without its leading whitespace.
pub open spec fn trim_start_chars(s: Seq<char>) -> Seq<char>
    decreases s.len(),
{
    if s.len() > 0 && is_unicode_whitespace(s[0]) {
        trim_start_chars(s.drop_first())
    } else {
        s
    }
}

/// The UTF-8 bytes of `s` without its leading whitespace.
pub open spec fn trimmed_bytes(s: Seq<char>) -> Seq<u8> {
    encode_utf8(trim_start_chars(s))
}

/// Trimming the start drops a prefix.
pub proof fn lemma_trim_suffix(s: Seq<char>) -> (m: int)
    ensures
        0 <= m <= s.len(),
        trim_start_chars(s) == s.skip(m),
        encode_utf8(s) == encode_utf8(s.take(m)) + trimmed_bytes(s),
    decreases s.len(),
{
    let m = if s.len() > 0 && is_unicode_whitespace(s[0]) {
        let k = lemma_trim_suffix(s.drop_first());
        assert(s.drop_first().skip(k) =~= s.skip(k + 1));
        k + 1
    } else {
        assert(s.skip(0) =~= s);
        0
    };
    assert(s =~= s.take(m) + s.skip(m));
    lemma_encode_concat(s.take(m), s.skip(m));
    m
}

/// Tells whether `c` has the Unicode `White_Space` property.
fn is_whitespace_char(c: char) -> (r: bool)
    ensures
        r == is_unicode_whitespace(c),
{
    let u = c as u32;
    (0x09 <= u && u <= 0x0D) || u == 0x20 || u == 0x85 || u == 0xA0 || u == 0x1680 || (0x2000
        <= u && u <= 0x200A) || u == 0x2028 || u == 0x2029 || u == 0x202F || u == 0x205F || u
        == 0x3000
}

/// The number of bytes in the UTF-8 encoding of `c`.
fn char_width(c: char) -> (r: usize)
    ensures
        r == encode_scalar(c as u32).len(),
        1 <= r <= 4,
{
    proof {
        char_is_scalar(c);
    }
    let u = c as u32;
    if u < 0x80 {
        1
    } else if u < 0x800 {
        2
    } else if u < 0x10000 {
        3
    } else {
        4
    }
}

/// The UTF-8 encoding of a character begins with a byte below 0x80 only
/// for a character below 0x80, and that byte is then the character.
pub proof fn lemma_lead_byte(c: char)
    ensures
        encode_scalar(c as u32)[0] < 0x80 ==> encode_scalar(c as u32)[0] as u32 == c as u32,
        encode_scalar(c as u32).len() >= 1,
{
    char_is_scalar(c);
    let v = c as u32;
    if has_width_1_encoding(v) {
        assert((v & 0x7F) as u8 as u32 == v) by (bit_vector)
            requires
                v <= 0x7F,
        ;
    } else if has_width_2_encoding(v) {
        assert((0xC0u8 | ((v >> 6) & 0x1F) as u8) >= 0xC0) by (bit_vector);
    } else if has_width_3_encoding(v) {
        assert((0xE0u8 | ((v >> 12) & 0x0F) as u8) >= 0xC0) by (bit_vector);
    } else {
        assert((0xF0u8 | ((v >> 18) & 0x7) as u8) >= 0xC0) by (bit_vector);
    }
}

/// The encoding of a sequence holds the encoding of each of its
/// characters, at the length of the encoding before it.
pub proof fn lemma_encode_at(s: Seq<char>, j: int)
    requires
        0 <= j < s.len(),
    ensures
        encode_utf8(s.take(j)).len() < encode_utf8(s).len(),
        encode_utf8(s)[encode_utf8(s.take(j)).len() as int] == encode_scalar(s[j] as u32)[0],
{
    lemma_encode_concat(s.take(j), s.skip(j));
    assert(s =~= s.take(j) + s.skip(j));
    let t = s.skip(j);
    assert(t[0] == s[j]);
    assert(encode_utf8(t) == encode_scalar(t[0] as u32) + encode_utf8(t.drop_first()));
    lemma_lead_byte(s[j]);
}

/// Encoding one more character appends its encoding.
proof fn lemma_encode_push(a: Seq<char>, c: char)
    ensures
        encode_utf8(a.push(c)) == encode_utf8(a) + encode_scalar(c as u32),
{
    let one = seq![c];
    lemma_encode_concat(a, one);
    assert(a.push(c) =~= a + one);
    assert(one[0] == c);
    assert(one.drop_first() =~= Seq::<char>::empty());
    assert(encode_utf8(Seq::<char>::empty()) =~= Seq::<u8>::empty());
    assert(encode_utf8(one) == encode_scalar(c as u32) + encode_utf8(one.drop_first()));
    assert(encode_utf8(one) =~= encode_scalar(c as u32));
}

/// Trimming the start drops exactly the leading run of whitespace.
proof fn lemma_trim_start_at(s: Seq<char>, k: int)
    requires
        0 <= k <= s.len(),
        forall|j: int| 0 <= j < k ==> is_unicode_whitespace(#[trigger] s[j]),
        k == s.len() || !is_unicode_whitespace(s[k]),
    ensures
        trim_start_chars(s) == s.skip(k),
    decreases k,
{
    if k == 0 {
        assert(s.skip(0) =~= s);
    } else {
        let t = s.drop_first();
        assert forall|j: int| 0 <= j < k - 1 implies is_unicode_whitespace(#[trigger] t[j]) by {
            assert(t[j] == s[j + 1]);
        }
        if k < s.len() {
            assert(t[k - 1] == s[k]);
        }
        lemma_trim_start_at(t, k - 1);
        assert(t.skip(k - 1) =~= s.skip(k));
    }
}

/// The number of characters in the leading whitespace of `s`, and the
/// number of bytes they take.
fn leading_whitespace(s: &str) -> (r: (Ghost<int>, usize))
    ensures
        0 <= r.0@ <= s@.len(),
        forall|j: int| 0 <= j < r.0@ ==> is_unicode_whitespace(#[trigger] s@[j]),
        r.0@ == s@.len() || !is_unicode_whitespace(s@[r.0@]),
        r.1 == encode_utf8(s@.take(r.0@)).len(),
{
    let ghost all = s@;
    let bytes = s.as_bytes();
    let mut it = s.chars();
    let ghost mut k: int = 0;
    let mut off: usize = 0;
    proof {
        lemma_str_valid(s);
        assert(all.take(0) =~= Seq::<char>::empty());
        assert(all.skip(0) =~= all);
    }
    loop
        invariant_except_break
            0 <= k <= all.len(),
            it.remaining() == all.skip(k),
            forall|j: int| 0 <= j < k ==> is_unicode_whitespace(#[trigger] all[j]),
            off == encode_utf8(all.take(k)).len(),
            s.spec_bytes() == encode_utf8(all),
            bytes@ == s.spec_bytes(),
            all == s@,
        ensures
            0 <= k <= all.len(),
            forall|j: int| 0 <= j < k ==> is_unicode_whitespace(#[trigger] all[j]),
            k == all.len() || !is_unicode_whitespace(all[k]),
            off == encode_utf8(all.take(k)).len(),
        decreases all.len() - k,
    {
        match it.next() {
            Some(c) => {
                assert(c == all[k]);
                if is_whitespace_char(c) {
                    let w = char_width(c);
                    proof {
                        lemma_encode_push(all.take(k), c);
                        assert(all.take(k).push(c) =~= all.take(k + 1));
                        lemma_encode_concat(all.take(k + 1), all.skip(k + 1));
                        assert(all =~= all.take(k + 1) + all.skip(k + 1));
                        assert(all.skip(k).drop_first() =~= all.skip(k + 1));
                        assert(bytes@.len() == bytes.len());
                        assert(off + w == encode_utf8(all.take(k + 1)).len());
                    }
                    off = off + w;
                    proof {
                        k = k + 1;
                    }
                } else {
                    break;
                }
            },
            None => {
                break;
            },
        }
    }
    (Ghost(k), off)
}

/// `s` without its leading whitespace, the characters that have the
/// Unicode `White_Space` property, as `str::trim_start` gives it.
pub(crate) fn trim_start(s: &str) -> (r: &str)
    ensures
        r@ == trim_start_chars(s@),
{
    let (k, off) = leading_whitespace(s);
    let ghost all = s@;
    proof {
        lemma_str_valid(s);
        lemma_encode_concat(all.take(k@), all.skip(k@));
        assert(all =~= all.take(k@) + all.skip(k@));
        lemma_prefix_boundary(encode_utf8(all.take(k@)), encode_utf8(all.skip(k@)));
        lemma_trim_start_at(all, k@);
    }
    let (_, tail) = s.split_at(off);
    proof {
        lemma_str_valid(tail);
        assert(tail.spec_bytes() =~= encode_utf8(all.skip(k@)));
        assert(decode_utf8(encode_utf8(tail@)) == tail@);
        assert(decode_utf8(encode_utf8(all.skip(k@))) == all.skip(k@));
        assert(tail@ == all.skip(k@));
    }
    tail
}

/// `s` without its trailing whitespace.
pub open spec fn trim_end_chars(s: Seq<char>) -> Seq<char>
    decreases s.len(),
{
    if s.len() > 0 && is_unicode_whitespace(s.last()) {
        trim_end_chars(s.drop_last())
    } else {
        s
    }
}

/// `s` without its leading and trailing whitespace.
pub open spec fn trim_chars(s: Seq<char>) -> Seq<char> {
    trim_end_chars(trim_start_chars(s))
}

/// Trimming the end of a sequence one character longer.
proof fn lemma_trim_end_push(p: Seq<char>, c: char)
    ensures
        trim_end_chars(p.push(c)) == (if is_unicode_whitespace(c) {
            trim_end_chars(p)
        } else {
            p.push(c)
        }),
{
    assert(p.push(c).drop_last() =~= p);
    assert(p.push(c).last() == c);
}

/// `s` without its leading and trailing whitespace, the characters that
/// have the Unicode `White_Space` property, as `str::trim` gives it.
pub(crate) fn trim(s: &str) -> (r: &str)
    ensures
        r@ == trim_chars(s@),
{
    let t = trim_start(s);
    let ghost all = t@;
    let bytes = t.as_bytes();
    let mut it = t.chars();
    let ghost mut i: int = 0;
    let ghost mut e: int = 0;
    let mut pos: usize = 0;
    let mut end: usize = 0;
    proof {
        lemma_str_valid(t);
        assert(all.take(0) =~= Seq::<char>::empty());
        assert(all.skip(0) =~= all);
    }
    loop
        invariant_except_break
            0 <= e <= i <= all.len(),
            it.remaining() == all.skip(i),
            trim_end_chars(all.take(i)) == all.take(e),
            pos == encode_utf8(all.take(i)).len(),
            end == encode_utf8(all.take(e)).len(),
            t.spec_bytes() == encode_utf8(all),
            bytes@ == t.spec_bytes(),
            all == t@,
        ensures
            0 <= e <= all.len(),
            trim_end_chars(all) == all.take(e),
            end == encode_utf8(all.take(e)).len(),
        decreases all.len() - i,
    {
        match it.next() {
            Some(c) => {
                assert(c == all[i]);
                let w = char_width(c);
                proof {
                    lemma_encode_push(all.take(i), c);
                    assert(all.take(i).push(c) =~= all.take(i + 1));
                    lemma_encode_concat(all.take(i + 1), all.skip(i + 1));
                    assert(all =~= all.take(i + 1) + all.skip(i + 1));
                    assert(all.skip(i).drop_first() =~= all.skip(i + 1));
                    assert(bytes@.len() == bytes.len());
                    lemma_trim_end_push(all.take(i), c);
                    assert(all.take(i + 1).take(e) =~= all.take(e));
                }
                pos = pos + w;
                if !is_whitespace_char(c) {
                    end = pos;
                    proof {
                        e = i + 1;
                    }
                }
                proof {
                    i = i + 1;
                }
            },
            None => {
                proof {
                    assert(all.take(i) =~= all);
                }
                break;
            },
        }
    }
    proof {
        lemma_encode_concat(all.take(e), all.skip(e));
        assert(all =~= all.take(e) + all.skip(e));
        lemma_prefix_boundary(encode_utf8(all.take(e)), encode_utf8(all.skip(e)));
    }
    let (head, _) = t.split_at(end);
    proof {
        lemma_str_valid(head);
        assert(head.spec_bytes() =~= encode_utf8(all.take(e)));
        assert(decode_utf8(encode_utf8(head@)) == head@);
        assert(decode_utf8(encode_utf8(all.take(e))) == all.take(e));
    }
    head
}

/// The UTF-8 bytes of a string slice are valid UTF-8.
pub proof fn lemma_str_valid(s: &str)
    ensures
        valid_utf8(s.spec_bytes()),
        s.spec_bytes() == encode_utf8(s@),
{
}

/// Each character below 0x80 encodes as the single byte of its value.
pub proof fn lemma_encode_ascii(cs: Seq<char>)
    requires
        forall|i: int| 0 <= i < cs.len() ==> (cs[i] as u32) < 0x80,
    ensures
        encode_utf8(cs) == Seq::new(cs.len(), |i: int| (cs[i] as u32) as u8),
    decreases cs.len(),
{
    if cs.len() > 0 {
        let x = cs[0] as u32;
        assert(x < 0x80);
        assert(((x & 0x7F) as u8) == (x as u8)) by (bit_vector)
            requires
                x < 0x80u32,
        ;
        lemma_encode_ascii(cs.drop_first());
        assert(encode_utf8(cs) =~= Seq::new(cs.len(), |i: int| (cs[i] as u32) as u8));
    }
}

/// ASCII bytes decode to the characters of their values.
pub proof fn lemma_ascii_decode(b: Seq<u8>)
    requires
        forall|i: int| 0 <= i < b.len() ==> b[i] < 0x80,
    ensures
        decode_utf8(b) == Seq::new(b.len(), |i: int| b[i] as char),
{
    let c = Seq::new(b.len(), |i: int| b[i] as char);
    assert forall|i: int| 0 <= i < c.len() implies (c[i] as u32) < 0x80 by {
        assert((b[i] as char) as u32 == b[i]);
    }
    lemma_encode_ascii(c);
    assert forall|i: int| 0 <= i < c.len() implies ((c[i] as u32) as u8) == b[i] by {
        assert((b[i] as char) as u32 == b[i]);
    }
    assert(encode_utf8(c) =~= b);
}

/// Compares the bytes of two string slices.
pub fn str_eq(a: &str, b: &str) -> (r: bool)
    ensures
        r == (a@ == b@),
{
    let x = a.as_bytes();
    let y = b.as_bytes();
    proof {
        lemma_str_valid(a);
        lemma_str_valid(b);
    }
    if x.len() != y.len() {
        return false;
    }
    let mut i: usize = 0;
    while i < x.len()
        invariant
            x@.len() == y@.len(),
            x@ == a.spec_bytes(),
            y@ == b.spec_bytes(),
            i <= x@.len(),
            forall|k: int| 0 <= k < i ==> x@[k] == y@[k],
        decreases x@.len() - i,
    {
        if x[i] != y[i] {
            return false;
        }
        i = i + 1;
    }
    assert(x@ =~= y@);
    assert(a@ == decode_utf8(x@));
    assert(b@ == decode_utf8(y@));
    true
}

/// The character of the decimal digit `d`.
pub open spec fn digit_char(d: nat) -> char {
    ((0x30 + d) as u32) as char
}

/// The decimal digits of `n`, most significant first, without leading zeros.
pub open spec fn decimal(n: nat) -> Seq<char>
    decreases n,
{
    if n < 10 {
        seq![digit_char(n)]
    } else {
        decimal(n / 10).push(digit_char(n % 10))
    }
}

/// The one-character string of the digit `d`.
fn digit_str(d: usize) -> (r: &'static str)
    requires
        d < 10,
    ensures
        r@ == seq![digit_char(d as nat)],
{
    proof {
        reveal_strlit("0");
        reveal_strlit("1");
        reveal_strlit("2");
        reveal_strlit("3");
        reveal_strlit("4");
        reveal_strlit("5");
        reveal_strlit("6");
        reveal_strlit("7");
        reveal_strlit("8");
        reveal_strlit("9");
    }
    match d {
        0 => "0",
        1 => "1",
        2 => "2",
        3 => "3",
        4 => "4",
        5 => "5",
        6 => "6",
        7 => "7",
        8 => "8",
        _ => "9",
    }
}

/// Writes `n` in decimal, as `usize`'s `Display` does.
pub fn decimal_string(n: usize) -> (r: String)
    ensures
        r@ == decimal(n as nat),
    decreases n,
{
    if n < 10 {
        digit_str(n).to_string()
    } else {
        let mut s = decimal_string(n / 10);
        s.append(digit_str(n % 10));
        s
    }
}

/// `a` with `b` appended.
pub fn cat(a: String, b: &str) -> (r: String)
    ensures
        r@ == a@ + b@,
{
    let mut a = a;
    a.append(b);
    a
}

/// The part of `s` between two byte positions that each are the end of `s`
/// or follow or hold an ASCII byte.
pub fn slice_between(s: &str, from: usize, to: usize) -> (r: &str)
    requires
        from <= to <= s.spec_bytes().len(),
        from == 0 || s.spec_bytes()[from - 1] < 0x80,
        to == s.spec_bytes().len() || s.spec_bytes()[to as int] < 0x80,
    ensures
        r.spec_bytes() == s.spec_bytes().subrange(from as int, to as int),
{
    proof {
        lemma_str_valid(s);
        let c = s.spec_bytes();
        if from > 0 {
            lemma_ascii_boundaries(c, from - 1);
        } else {
            is_char_boundary_start_end_of_seq(c);
        }
    }
    let (_, tail) = s.split_at(from);
    proof {
        lemma_str_valid(tail);
        let c = s.spec_bytes();
        assert(tail.spec_bytes() =~= c.skip(from as int));
        if to < c.len() {
            assert(tail.spec_bytes()[to - from] == c[to as int]);
            lemma_ascii_boundaries(tail.spec_bytes(), to - from);
        } else {
            is_char_boundary_start_end_of_seq(tail.spec_bytes());
        }
    }
    let (piece, _) = tail.split_at(to - from);
    proof {
        assert(piece.spec_bytes() =~= s.spec_bytes().subrange(from as int, to as int));
    }
    piece
}

} // verus!
