//! Byte-string primitives shared by the parsers: searching, slicing,
//! trimming, prefix tests, lexicographic order, and line splitting.
//!
//! All executable functions carry contracts phrased over `Seq<u8>` models,
//! so the parsers above them can state their behaviour exactly.

use vstd::prelude::*;

verus! {

/// Line feed.
pub const LF: u8 = 10;

/// Carriage return.
pub const CR: u8 = 13;

/// ASCII space.
pub const SP: u8 = 32;

/// ASCII colon.
pub const COLON: u8 = 58;

/// ASCII forward slash.
pub const SLASH: u8 = 47;

/// The bytes of an ASCII character sequence, one byte per character.
pub open spec fn ascii_seq(s: Seq<char>) -> Seq<u8> {
    Seq::new(s.len(), |i: int| s[i] as u8)
}

/// The UTF-8 bytes of an ASCII string slice, as a fresh vector.
pub fn str_bytes(s: &str) -> (r: Vec<u8>)
    requires
        s.is_ascii(),
    ensures
        r@ == ascii_seq(s@),
{
    let b = s.as_bytes();
    proof {
        vstd::string::is_ascii_spec_bytes(s);
        assert(b@ =~= ascii_seq(s@));
    }
    vstd::slice::slice_to_vec(b)
}

/// Whether the byte string `k` spells the ASCII string `s`.
pub fn key_is(k: &[u8], s: &str) -> (r: bool)
    requires
        s.is_ascii(),
    ensures
        r == (k@ == ascii_seq(s@)),
{
    let b = s.as_bytes();
    proof {
        vstd::string::is_ascii_spec_bytes(s);
        assert(b@ =~= ascii_seq(s@));
    }
    eq_bytes(k, b)
}

/// ASCII whitespace in the sense of `char::is_whitespace` restricted to one
/// byte: tab through carriage return, and space.
pub open spec fn is_ws(b: u8) -> bool {
    b == SP || (9 <= b && b <= 13)
}

/// An opening or closing parenthesis.
pub open spec fn is_paren(b: u8) -> bool {
    b == 40 || b == 41
}

/// Index of the first occurrence of `b` in `s`, or `s.len()` if absent.
pub open spec fn first_idx(s: Seq<u8>, b: u8) -> int
    decreases s.len(),
{
    if s.len() == 0 {
        0
    } else if s[0] == b {
        0
    } else {
        1 + first_idx(s.drop_first(), b)
    }
}

pub proof fn lemma_first_idx(s: Seq<u8>, b: u8)
    ensures
        0 <= first_idx(s, b) <= s.len(),
        first_idx(s, b) < s.len() ==> s[first_idx(s, b)] == b,
        forall|j: int| 0 <= j < first_idx(s, b) ==> s[j] != b,
    decreases s.len(),
{
    if s.len() == 0 {
    } else if s[0] == b {
    } else {
        lemma_first_idx(s.drop_first(), b);
        assert forall|j: int| 0 <= j < first_idx(s, b) implies s[j] != b by {
            if j > 0 {
                assert(s.drop_first()[j - 1] == s[j]);
            }
        }
    }
}

/// Index of the last occurrence of `b` in `s`, or `-1` if absent.
pub open spec fn last_idx(s: Seq<u8>, b: u8) -> int
    decreases s.len(),
{
    if s.len() == 0 {
        -1
    } else if s[s.len() - 1] == b {
        s.len() - 1
    } else {
        last_idx(s.drop_last(), b)
    }
}

pub proof fn lemma_last_idx(s: Seq<u8>, b: u8)
    ensures
        -1 <= last_idx(s, b) < s.len(),
        last_idx(s, b) >= 0 ==> s[last_idx(s, b)] == b,
        forall|j: int| last_idx(s, b) < j < s.len() ==> s[j] != b,
    decreases s.len(),
{
    if s.len() == 0 {
    } else if s[s.len() - 1] == b {
    } else {
        lemma_last_idx(s.drop_last(), b);
        assert forall|j: int| last_idx(s, b) < j < s.len() implies s[j] != b by {
            if j < s.len() - 1 {
                assert(s.drop_last()[j] == s[j]);
            }
        }
    }
}

/// Whether positions `i` and `i + 1` of `s` hold the bytes `a` then `b`.
pub open spec fn pair_at(s: Seq<u8>, a: u8, b: u8, i: int) -> bool {
    0 <= i && i + 1 < s.len() && s[i] == a && s[i + 1] == b
}

/// Index of the first occurrence of the byte pair `a b` in `s`, or `s.len()`
/// if the pair is absent.
pub open spec fn first_pair_idx(s: Seq<u8>, a: u8, b: u8) -> int
    decreases s.len(),
{
    if s.len() < 2 {
        s.len() as int
    } else if s[0] == a && s[1] == b {
        0
    } else {
        1 + first_pair_idx(s.drop_first(), a, b)
    }
}

pub proof fn lemma_first_pair_idx(s: Seq<u8>, a: u8, b: u8)
    ensures
        0 <= first_pair_idx(s, a, b) <= s.len(),
        first_pair_idx(s, a, b) < s.len() ==> pair_at(s, a, b, first_pair_idx(s, a, b)),
        forall|j: int| 0 <= j < first_pair_idx(s, a, b) ==> !pair_at(s, a, b, j),
    decreases s.len(),
{
    if s.len() < 2 {
    } else if s[0] == a && s[1] == b {
    } else {
        lemma_first_pair_idx(s.drop_first(), a, b);
        assert forall|j: int| 0 <= j < first_pair_idx(s, a, b) implies !pair_at(s, a, b, j) by {
            if j > 0 && pair_at(s, a, b, j) {
                assert(s.drop_first()[j - 1] == s[j]);
                assert(s.drop_first()[j] == s[j + 1]);
                assert(pair_at(s.drop_first(), a, b, j - 1));
                assert(false);
            }
        }
    }
}

/// First occurrence of `b` in `s`, or `s.len()` when `b` does not occur.
pub fn find_byte(s: &[u8], b: u8) -> (r: usize)
    ensures
        r == first_idx(s@, b),
{
    proof {
        lemma_first_idx(s@, b);
    }
    let n = s.len();
    let mut i: usize = 0;
    while i < n
        invariant
            0 <= i <= n,
            n == s@.len(),
            forall|j: int| 0 <= j < i ==> s@[j] != b,
            0 <= first_idx(s@, b) <= s@.len(),
            first_idx(s@, b) < s@.len() ==> s@[first_idx(s@, b)] == b,
            forall|j: int| 0 <= j < first_idx(s@, b) ==> s@[j] != b,
        decreases n - i,
    {
        if s[i] == b {
            return i;
        }
        i += 1;
    }
    i
}

/// Last occurrence of `b` in `s`, or `None` when `b` does not occur.
pub fn rfind_byte(s: &[u8], b: u8) -> (r: Option<usize>)
    ensures
        match r {
            Some(i) => i == last_idx(s@, b),
            None => last_idx(s@, b) == -1,
        },
{
    proof {
        lemma_last_idx(s@, b);
    }
    let n = s.len();
    let mut i: usize = n;
    while i > 0
        invariant
            0 <= i <= n,
            n == s@.len(),
            forall|j: int| i <= j < n ==> s@[j] != b,
            -1 <= last_idx(s@, b) < s@.len(),
            last_idx(s@, b) >= 0 ==> s@[last_idx(s@, b)] == b,
            forall|j: int| last_idx(s@, b) < j < s@.len() ==> s@[j] != b,
        decreases i,
    {
        i -= 1;
        if s[i] == b {
            return Some(i);
        }
    }
    None
}

/// First occurrence of the byte pair `a b` in `s`, or `s.len()` when absent.
pub fn find_pair(s: &[u8], a: u8, b: u8) -> (r: usize)
    ensures
        r == first_pair_idx(s@, a, b),
{
    proof {
        lemma_first_pair_idx(s@, a, b);
    }
    let n = s.len();
    if n < 2 {
        return n;
    }
    let mut i: usize = 0;
    while i + 1 < n
        invariant
            0 <= i < n,
            n == s@.len(),
            2 <= n,
            forall|j: int| 0 <= j < i ==> !pair_at(s@, a, b, j),
            0 <= first_pair_idx(s@, a, b) <= s@.len(),
            first_pair_idx(s@, a, b) < s@.len() ==> pair_at(s@, a, b, first_pair_idx(s@, a, b)),
            forall|j: int| 0 <= j < first_pair_idx(s@, a, b) ==> !pair_at(s@, a, b, j),
        decreases n - i,
    {
        if s[i] == a && s[i + 1] == b {
            assert(pair_at(s@, a, b, i as int));
            return i;
        }
        i += 1;
    }
    assert(forall|j: int| 0 <= j < s@.len() ==> !pair_at(s@, a, b, j));
    n
}

/// A fresh copy of `s[i..j]`.
pub fn subvec(s: &[u8], i: usize, j: usize) -> (r: Vec<u8>)
    requires
        i <= j <= s@.len(),
    ensures
        r@ == s@.subrange(i as int, j as int),
{
    vstd::slice::slice_to_vec(vstd::slice::slice_subrange(s, i, j))
}

/// Byte-for-byte equality of two slices.
pub fn eq_bytes(a: &[u8], b: &[u8]) -> (r: bool)
    ensures
        r == (a@ == b@),
{
    let n = a.len();
    if n != b.len() {
        assert(a@ != b@) by {
            assert(a@.len() != b@.len());
        }
        return false;
    }
    let mut i: usize = 0;
    while i < n
        invariant
            0 <= i <= n,
            n == a@.len() == b@.len(),
            forall|j: int| 0 <= j < i ==> a@[j] == b@[j],
        decreases n - i,
    {
        if a[i] != b[i] {
            return false;
        }
        i += 1;
    }
    proof {
        assert(a@ =~= b@);
    }
    true
}

/// Whether `p` is a prefix of `s`.
pub open spec fn has_prefix(s: Seq<u8>, p: Seq<u8>) -> bool {
    p.len() <= s.len() && s.take(p.len() as int) == p
}

/// Prefix test.
pub fn starts_with(s: &[u8], p: &[u8]) -> (r: bool)
    ensures
        r == has_prefix(s@, p@),
{
    let n = p.len();
    if n > s.len() {
        return false;
    }
    let mut i: usize = 0;
    while i < n
        invariant
            0 <= i <= n,
            n == p@.len() <= s@.len(),
            forall|j: int| 0 <= j < i ==> s@[j] == p@[j],
        decreases n - i,
    {
        if s[i] != p[i] {
            assert(s@.take(p@.len() as int)[i as int] != p@[i as int]);
            return false;
        }
        i += 1;
    }
    proof {
        assert(s@.take(p@.len() as int) =~= p@);
    }
    true
}

/// Whether the last byte of `s` is `b`.
pub open spec fn last_is(s: Seq<u8>, b: u8) -> bool {
    s.len() > 0 && s[s.len() - 1] == b
}

/// Test on the final byte.
pub fn ends_with_byte(s: &[u8], b: u8) -> (r: bool)
    ensures
        r == last_is(s@, b),
{
    let n = s.len();
    n > 0 && s[n - 1] == b
}

/// How many leading bytes of `s` are ASCII whitespace.
pub open spec fn ws_lead(s: Seq<u8>) -> int
    decreases s.len(),
{
    if s.len() == 0 {
        0
    } else if is_ws(s[0]) {
        1 + ws_lead(s.drop_first())
    } else {
        0
    }
}

/// Index where the trailing whitespace run of `s` begins (`s.len()` when the
/// last byte is not whitespace, `0` when every byte is).
pub open spec fn ws_trail(s: Seq<u8>) -> int
    decreases s.len(),
{
    if s.len() == 0 {
        0
    } else if is_ws(s[s.len() - 1]) {
        ws_trail(s.drop_last())
    } else {
        s.len() as int
    }
}

pub proof fn lemma_ws_lead(s: Seq<u8>)
    ensures
        0 <= ws_lead(s) <= s.len(),
        forall|j: int| 0 <= j < ws_lead(s) ==> is_ws(s[j]),
        ws_lead(s) < s.len() ==> !is_ws(s[ws_lead(s)]),
    decreases s.len(),
{
    if s.len() == 0 {
    } else if is_ws(s[0]) {
        lemma_ws_lead(s.drop_first());
        assert forall|j: int| 0 <= j < ws_lead(s) implies is_ws(s[j]) by {
            if j > 0 {
                assert(s.drop_first()[j - 1] == s[j]);
            }
        }
    }
}

pub proof fn lemma_ws_trail(s: Seq<u8>)
    ensures
        0 <= ws_trail(s) <= s.len(),
        forall|j: int| ws_trail(s) <= j < s.len() ==> is_ws(s[j]),
        ws_trail(s) > 0 ==> !is_ws(s[ws_trail(s) - 1]),
    decreases s.len(),
{
    if s.len() == 0 {
    } else if is_ws(s[s.len() - 1]) {
        lemma_ws_trail(s.drop_last());
        assert forall|j: int| ws_trail(s) <= j < s.len() implies is_ws(s[j]) by {
            if j < s.len() - 1 {
                assert(s.drop_last()[j] == s[j]);
            }
        }
    }
}

/// How many leading bytes of `s` are parentheses.
pub open spec fn paren_lead(s: Seq<u8>) -> int
    decreases s.len(),
{
    if s.len() == 0 {
        0
    } else if is_paren(s[0]) {
        1 + paren_lead(s.drop_first())
    } else {
        0
    }
}

/// Index where the trailing parenthesis run of `s` begins.
pub open spec fn paren_trail(s: Seq<u8>) -> int
    decreases s.len(),
{
    if s.len() == 0 {
        0
    } else if is_paren(s[s.len() - 1]) {
        paren_trail(s.drop_last())
    } else {
        s.len() as int
    }
}

pub proof fn lemma_paren_lead(s: Seq<u8>)
    ensures
        0 <= paren_lead(s) <= s.len(),
        forall|j: int| 0 <= j < paren_lead(s) ==> is_paren(s[j]),
        paren_lead(s) < s.len() ==> !is_paren(s[paren_lead(s)]),
    decreases s.len(),
{
    if s.len() == 0 {
    } else if is_paren(s[0]) {
        lemma_paren_lead(s.drop_first());
        assert forall|j: int| 0 <= j < paren_lead(s) implies is_paren(s[j]) by {
            if j > 0 {
                assert(s.drop_first()[j - 1] == s[j]);
            }
        }
    }
}

pub proof fn lemma_paren_trail(s: Seq<u8>)
    ensures
        0 <= paren_trail(s) <= s.len(),
        forall|j: int| paren_trail(s) <= j < s.len() ==> is_paren(s[j]),
        paren_trail(s) > 0 ==> !is_paren(s[paren_trail(s) - 1]),
    decreases s.len(),
{
    if s.len() == 0 {
    } else if is_paren(s[s.len() - 1]) {
        lemma_paren_trail(s.drop_last());
        assert forall|j: int| paren_trail(s) <= j < s.len() implies is_paren(s[j]) by {
            if j < s.len() - 1 {
                assert(s.drop_last()[j] == s[j]);
            }
        }
    }
}

/// `s` trimmed of ASCII whitespace on both sides.
pub open spec fn spec_trim_ws(s: Seq<u8>) -> Seq<u8> {
    if ws_lead(s) <= ws_trail(s) {
        s.subrange(ws_lead(s), ws_trail(s))
    } else {
        Seq::empty()
    }
}

/// `s` trimmed of parentheses on both sides.
pub open spec fn spec_trim_parens(s: Seq<u8>) -> Seq<u8> {
    if paren_lead(s) <= paren_trail(s) {
        s.subrange(paren_lead(s), paren_trail(s))
    } else {
        Seq::empty()
    }
}

/// Trim ASCII whitespace from both ends, as a fresh vector.
pub fn trim_ws(s: &[u8]) -> (r: Vec<u8>)
    ensures
        r@ == spec_trim_ws(s@),
{
    proof {
        lemma_ws_lead(s@);
        lemma_ws_trail(s@);
    }
    let n = s.len();
    let mut a: usize = 0;
    while a < n && (s[a] == SP || (9 <= s[a] && s[a] <= 13))
        invariant
            0 <= a <= n,
            n == s@.len(),
            forall|j: int| 0 <= j < a ==> is_ws(s@[j]),
            0 <= ws_lead(s@) <= s@.len(),
            forall|j: int| 0 <= j < ws_lead(s@) ==> is_ws(s@[j]),
            ws_lead(s@) < s@.len() ==> !is_ws(s@[ws_lead(s@)]),
        decreases n - a,
    {
        a += 1;
    }
    assert(a == ws_lead(s@));
    let mut b: usize = n;
    while b > 0 && (s[b - 1] == SP || (9 <= s[b - 1] && s[b - 1] <= 13))
        invariant
            0 <= b <= n,
            n == s@.len(),
            forall|j: int| b <= j < n ==> is_ws(s@[j]),
            0 <= ws_trail(s@) <= s@.len(),
            forall|j: int| ws_trail(s@) <= j < s@.len() ==> is_ws(s@[j]),
            ws_trail(s@) > 0 ==> !is_ws(s@[ws_trail(s@) - 1]),
        decreases b,
    {
        b -= 1;
    }
    assert(b == ws_trail(s@));
    if a <= b {
        subvec(s, a, b)
    } else {
        Vec::new()
    }
}

/// Trim parentheses from both ends, as a fresh vector.
pub fn trim_parens(s: &[u8]) -> (r: Vec<u8>)
    ensures
        r@ == spec_trim_parens(s@),
{
    proof {
        lemma_paren_lead(s@);
        lemma_paren_trail(s@);
    }
    let n = s.len();
    let mut a: usize = 0;
    while a < n && (s[a] == 40 || s[a] == 41)
        invariant
            0 <= a <= n,
            n == s@.len(),
            forall|j: int| 0 <= j < a ==> is_paren(s@[j]),
            0 <= paren_lead(s@) <= s@.len(),
            forall|j: int| 0 <= j < paren_lead(s@) ==> is_paren(s@[j]),
            paren_lead(s@) < s@.len() ==> !is_paren(s@[paren_lead(s@)]),
        decreases n - a,
    {
        a += 1;
    }
    assert(a == paren_lead(s@));
    let mut b: usize = n;
    while b > 0 && (s[b - 1] == 40 || s[b - 1] == 41)
        invariant
            0 <= b <= n,
            n == s@.len(),
            forall|j: int| b <= j < n ==> is_paren(s@[j]),
            0 <= paren_trail(s@) <= s@.len(),
            forall|j: int| paren_trail(s@) <= j < s@.len() ==> is_paren(s@[j]),
            paren_trail(s@) > 0 ==> !is_paren(s@[paren_trail(s@) - 1]),
        decreases b,
    {
        b -= 1;
    }
    assert(b == paren_trail(s@));
    if a <= b {
        subvec(s, a, b)
    } else {
        Vec::new()
    }
}

/// Append a copy of `src` to `dst`.
pub fn append_bytes(dst: &mut Vec<u8>, src: &[u8])
    ensures
        final(dst)@ == old(dst)@ + src@,
{
    let n = src.len();
    let mut i: usize = 0;
    while i < n
        invariant
            0 <= i <= n,
            n == src@.len(),
            dst@ == old(dst)@ + src@.take(i as int),
        decreases n - i,
    {
        dst.push(src[i]);
        i += 1;
        assert(dst@ =~= old(dst)@ + src@.take(i as int));
    }
    assert(dst@ =~= old(dst)@ + src@);
}

/// Lexicographic byte order: `a` is less than or equal to `b`.
pub open spec fn lex_le(a: Seq<u8>, b: Seq<u8>) -> bool
    decreases a.len(),
{
    if a.len() == 0 {
        true
    } else if b.len() == 0 {
        false
    } else if a[0] < b[0] {
        true
    } else if a[0] > b[0] {
        false
    } else {
        lex_le(a.drop_first(), b.drop_first())
    }
}

/// The order is total.
pub proof fn lemma_lex_le_total(a: Seq<u8>, b: Seq<u8>)
    ensures
        lex_le(a, b) || lex_le(b, a),
    decreases a.len(),
{
    if a.len() == 0 {
    } else if b.len() == 0 {
    } else if a[0] == b[0] {
        lemma_lex_le_total(a.drop_first(), b.drop_first());
    }
}

/// The order is antisymmetric.
pub proof fn lemma_lex_le_antisym(a: Seq<u8>, b: Seq<u8>)
    requires
        lex_le(a, b),
        lex_le(b, a),
    ensures
        a == b,
    decreases a.len(),
{
    if a.len() == 0 {
        assert(b.len() == 0);
        assert(a =~= b);
    } else {
        assert(a[0] == b[0]);
        lemma_lex_le_antisym(a.drop_first(), b.drop_first());
        assert(a =~= seq![a[0]] + a.drop_first());
        assert(b =~= seq![b[0]] + b.drop_first());
    }
}

/// The order is transitive.
pub proof fn lemma_lex_le_trans(a: Seq<u8>, b: Seq<u8>, c: Seq<u8>)
    requires
        lex_le(a, b),
        lex_le(b, c),
    ensures
        lex_le(a, c),
    decreases a.len(),
{
    if a.len() == 0 {
    } else {
        assert(b.len() > 0);
        assert(c.len() > 0);
        if a[0] == b[0] && b[0] == c[0] {
            lemma_lex_le_trans(a.drop_first(), b.drop_first(), c.drop_first());
        }
    }
}

/// A shared prefix does not affect the order of the remainders.
pub proof fn lemma_lex_le_skip(a: Seq<u8>, b: Seq<u8>, i: int)
    requires
        0 <= i <= a.len(),
        i <= b.len(),
        a.subrange(0, i) == b.subrange(0, i),
    ensures
        lex_le(a, b) == lex_le(a.skip(i), b.skip(i)),
    decreases i,
{
    if i == 0 {
        assert(a.skip(0) =~= a);
        assert(b.skip(0) =~= b);
    } else {
        assert(a.subrange(0, i)[0] == a[0]);
        assert(b.subrange(0, i)[0] == b[0]);
        assert(a.len() > 0 && b.len() > 0 && a[0] == b[0]);
        assert(a.drop_first().subrange(0, i - 1) =~= b.drop_first().subrange(0, i - 1)) by {
            assert forall|k: int| 0 <= k < i - 1 implies a.drop_first()[k] == b.drop_first()[k] by {
                assert(a.subrange(0, i)[k + 1] == a[k + 1]);
                assert(b.subrange(0, i)[k + 1] == b[k + 1]);
            }
        }
        lemma_lex_le_skip(a.drop_first(), b.drop_first(), i - 1);
        assert(a.drop_first().skip(i - 1) =~= a.skip(i));
        assert(b.drop_first().skip(i - 1) =~= b.skip(i));
    }
}

/// Lexicographic comparison of two byte strings.
pub fn lex_le_bytes(x: &[u8], y: &[u8]) -> (r: bool)
    ensures
        r == lex_le(x@, y@),
{
    let nx = x.len();
    let ny = y.len();
    let n = if nx < ny { nx } else { ny };
    let mut i: usize = 0;
    while i < n
        invariant
            0 <= i <= n,
            nx == x@.len(),
            ny == y@.len(),
            n == if nx < ny { nx as int } else { ny as int },
            x@.subrange(0, i as int) == y@.subrange(0, i as int),
        decreases n - i,
    {
        if x[i] < y[i] {
            proof {
                lemma_lex_le_skip(x@, y@, i as int);
                assert(x@.skip(i as int)[0] == x@[i as int]);
                assert(y@.skip(i as int)[0] == y@[i as int]);
            }
            return true;
        }
        if x[i] > y[i] {
            proof {
                lemma_lex_le_skip(x@, y@, i as int);
                assert(x@.skip(i as int)[0] == x@[i as int]);
                assert(y@.skip(i as int)[0] == y@[i as int]);
            }
            return false;
        }
        i += 1;
        assert(x@.subrange(0, i as int) =~= y@.subrange(0, i as int));
    }
    proof {
        lemma_lex_le_skip(x@, y@, n as int);
        if nx > ny {
            assert(x@.skip(n as int).len() > 0);
        }
    }
    nx <= ny
}

/// The fragments of `s` between line feeds, in order: splitting on every
/// `0x0a` byte yields one fragment more than there are line feeds.
pub open spec fn spec_lines(s: Seq<u8>) -> Seq<Seq<u8>>
    decreases s.len(),
{
    if s.len() == 0 {
        seq![Seq::<u8>::empty()]
    } else if s[0] == LF {
        seq![Seq::<u8>::empty()] + spec_lines(s.drop_first())
    } else {
        let rest = spec_lines(s.drop_first());
        seq![seq![s[0]] + rest[0]] + rest.skip(1)
    }
}

pub proof fn lemma_spec_lines_len(s: Seq<u8>)
    ensures
        spec_lines(s).len() >= 1,
    decreases s.len(),
{
    if s.len() == 0 {
    } else {
        lemma_spec_lines_len(s.drop_first());
    }
}

/// Split on line feeds, as `str::split` with a newline pattern would.
pub fn split_lines(s: &[u8]) -> (r: Vec<Vec<u8>>)
    ensures
        r.deep_view() == spec_lines(s@),
        r@.len() >= 1,
{
    let n = s.len();
    let mut out: Vec<Vec<u8>> = Vec::new();
    let mut cur: Vec<u8> = Vec::new();
    let mut i: usize = 0;
    proof {
        lemma_spec_lines_len(s@);
        assert(s@.skip(0) =~= s@);
        let l0 = spec_lines(s@);
        assert(l0 =~= out.deep_view() + seq![cur@ + l0[0]] + l0.skip(1));
    }
    while i < n
        invariant
            0 <= i <= n,
            n == s@.len(),
            spec_lines(s@.skip(i as int)).len() >= 1,
            spec_lines(s@) == out.deep_view() + seq![cur@ + spec_lines(s@.skip(i as int))[0]]
                + spec_lines(s@.skip(i as int)).skip(1),
        decreases n - i,
    {
        let ghost rem = s@.skip(i as int);
        proof {
            assert(rem.len() == n - i);
            assert(rem[0] == s@[i as int]);
            assert(rem.drop_first() =~= s@.skip(i as int + 1));
            lemma_spec_lines_len(s@.skip(i as int + 1));
        }
        if s[i] == LF {
            let ghost old_out = out.deep_view();
            let ghost old_cur = cur@;
            out.push(cur);
            cur = Vec::new();
            proof {
                assert(out.deep_view() =~~= old_out.push(old_cur));
                let l1 = spec_lines(s@.skip(i as int + 1));
                assert(spec_lines(rem) =~= seq![Seq::<u8>::empty()] + l1);
                assert(spec_lines(rem)[0] =~= Seq::<u8>::empty());
                assert(old_cur + spec_lines(rem)[0] =~= old_cur);
                assert(spec_lines(rem).skip(1) =~= l1);
                assert(cur@ + l1[0] =~= l1[0]);
                assert(spec_lines(s@) =~= out.deep_view() + seq![cur@ + l1[0]] + l1.skip(1)) by {
                    assert(old_out + seq![old_cur + spec_lines(rem)[0]] + spec_lines(rem).skip(1)
                        =~= old_out.push(old_cur) + seq![l1[0]] + l1.skip(1));
                    assert(seq![l1[0]] + l1.skip(1) =~= l1);
                    assert(seq![cur@ + l1[0]] + l1.skip(1) =~= seq![l1[0]] + l1.skip(1));
                }
            }
        } else {
            let ghost old_cur = cur@;
            cur.push(s[i]);
            proof {
                let l1 = spec_lines(s@.skip(i as int + 1));
                assert(spec_lines(rem) =~= seq![seq![rem[0]] + l1[0]] + l1.skip(1));
                assert(spec_lines(rem)[0] =~= seq![rem[0]] + l1[0]);
                assert(cur@ =~= old_cur.push(s@[i as int]));
                assert(old_cur + spec_lines(rem)[0] =~= cur@ + l1[0]);
                assert(spec_lines(rem).skip(1) =~= l1.skip(1));
            }
        }
        i += 1;
    }
    proof {
        assert(s@.skip(n as int) =~= Seq::<u8>::empty());
        assert(spec_lines(Seq::<u8>::empty()) =~= seq![Seq::<u8>::empty()]);
        assert(spec_lines(s@) =~= out.deep_view() + seq![cur@]);
    }
    let ghost old_out = out.deep_view();
    let ghost old_cur = cur@;
    out.push(cur);
    proof {
        assert(out.deep_view() =~~= old_out.push(old_cur));
        assert(old_out.push(old_cur) =~= old_out + seq![old_cur]);
    }
    out
}

/// A line fragment with one trailing carriage return removed.
pub open spec fn strip_cr(l: Seq<u8>) -> Seq<u8> {
    if last_is(l, CR) {
        l.drop_last()
    } else {
        l
    }
}

/// The lines of `s` in the sense of `BufRead::lines`: terminated fragments
/// with their terminators (and a `\r` before a `\n`) removed, plus a final
/// unterminated fragment when it is non-empty.
pub open spec fn spec_read_lines(s: Seq<u8>) -> Seq<Seq<u8>> {
    let raw = spec_lines(s);
    let term = raw.take(raw.len() - 1).map_values(|l: Seq<u8>| strip_cr(l));
    if raw.last().len() == 0 {
        term
    } else {
        term.push(raw.last())
    }
}

/// Split into lines as a buffered reader would.
pub fn read_lines(s: &[u8]) -> (r: Vec<Vec<u8>>)
    ensures
        r.deep_view() == spec_read_lines(s@),
{
    let raw = split_lines(s);
    let n = raw.len();
    let ghost rawv = raw.deep_view();
    let ghost term = rawv.take(rawv.len() - 1).map_values(|l: Seq<u8>| strip_cr(l));
    let mut out: Vec<Vec<u8>> = Vec::new();
    let mut i: usize = 0;
    while i < n - 1
        invariant
            0 <= i <= n - 1,
            n == raw@.len() >= 1,
            rawv == raw.deep_view(),
            term == rawv.take(rawv.len() - 1).map_values(|l: Seq<u8>| strip_cr(l)),
            out.deep_view() == term.take(i as int),
        decreases n - i,
    {
        let l: &Vec<u8> = &raw[i];
        let ghost old_out = out.deep_view();
        let m = l.len();
        if m > 0 && l[m - 1] == CR {
            out.push(subvec(l.as_slice(), 0, m - 1));
            proof {
                assert(l@.subrange(0, m - 1) =~= strip_cr(rawv[i as int]));
            }
        } else {
            out.push(subvec(l.as_slice(), 0, m));
            proof {
                assert(l@.subrange(0, m as int) =~= rawv[i as int]);
                assert(rawv[i as int] =~= strip_cr(rawv[i as int]));
            }
        }
        i += 1;
        proof {
            assert(out.deep_view() =~~= old_out.push(strip_cr(rawv[i - 1])));
            assert(term[i - 1] == strip_cr(rawv[i - 1]));
            assert(out.deep_view() =~~= term.take(i as int));
        }
    }
    proof {
        assert(out.deep_view() =~~= term);
    }
    let last: &Vec<u8> = &raw[n - 1];
    let m = last.len();
    if m > 0 {
        let ghost old_out = out.deep_view();
        out.push(subvec(last.as_slice(), 0, m));
        proof {
            assert(last@.subrange(0, m as int) =~= rawv.last());
            assert(out.deep_view() =~~= old_out.push(rawv.last()));
        }
    }
    proof {
        assert(out.deep_view() =~~= spec_read_lines(s@));
    }
    out
}

/// A fresh copy of a byte slice.
pub fn copy_bytes(s: &[u8]) -> (r: Vec<u8>)
    ensures
        r@ == s@,
{
    let r = subvec(s, 0, s.len());
    proof {
        assert(s@.subrange(0, s@.len() as int) =~= s@);
    }
    r
}

/// Whether `p` is a suffix of `s`.
pub open spec fn has_suffix(s: Seq<u8>, p: Seq<u8>) -> bool {
    p.len() <= s.len() && s.skip(s.len() - p.len()) == p
}

/// Suffix test.
pub fn ends_with(s: &[u8], p: &[u8]) -> (r: bool)
    ensures
        r == has_suffix(s@, p@),
{
    let n = s.len();
    let m = p.len();
    if m > n {
        return false;
    }
    let off = n - m;
    let mut i: usize = 0;
    while i < m
        invariant
            0 <= i <= m,
            m == p@.len() <= s@.len(),
            n == s@.len(),
            off == n - m,
            forall|j: int| 0 <= j < i ==> s@[off + j] == p@[j],
        decreases m - i,
    {
        if s[off + i] != p[i] {
            assert(s@.skip(s@.len() - p@.len())[i as int] != p@[i as int]);
            return false;
        }
        i += 1;
    }
    proof {
        assert(s@.skip(s@.len() - p@.len()) =~= p@);
    }
    true
}

/// Whether some entry of `v` equals `x`.
pub fn contains_bytes(v: &Vec<Vec<u8>>, x: &[u8]) -> (r: bool)
    ensures
        r == v.deep_view().contains(x@),
{
    let n = v.len();
    let mut i: usize = 0;
    while i < n
        invariant
            0 <= i <= n,
            n == v@.len(),
            forall|j: int| 0 <= j < i ==> v.deep_view()[j] != x@,
        decreases n - i,
    {
        let hit = eq_bytes(v[i].as_slice(), x);
        proof {
            assert(v.deep_view()[i as int] =~= v@[i as int]@);
        }
        if hit {
            assert(v.deep_view()[i as int] == x@);
            return true;
        }
        i += 1;
    }
    assert(!v.deep_view().contains(x@));
    false
}

/// The views of an optional byte vector.
pub open spec fn opt_bytes(o: Option<Vec<u8>>) -> Option<Seq<u8>> {
    match o {
        Some(v) => Some(v@),
        None => None,
    }
}

} // verus!


