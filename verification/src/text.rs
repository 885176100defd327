//! Character and sequence primitives: the whitespace class used for
//! trimming, left/right trimming, prefix tests, and substring search for
//! the header-declaration literal.

use vstd::prelude::*;

verus! {

/// The Unicode `White_Space` class, the class `str::trim` removes.
pub open spec fn char_is_whitespace(c: char) -> bool {
    ||| c == '\u{0009}'
    ||| c == '\u{000A}'
    ||| c == '\u{000B}'
    ||| c == '\u{000C}'
    ||| c == '\u{000D}'
    ||| c == '\u{0020}'
    ||| c == '\u{0085}'
    ||| c == '\u{00A0}'
    ||| c == '\u{1680}'
    ||| ('\u{2000}' <= c && c <= '\u{200A}')
    ||| c == '\u{2028}'
    ||| c == '\u{2029}'
    ||| c == '\u{202F}'
    ||| c == '\u{205F}'
    ||| c == '\u{3000}'
}

/// Decides whether `c` is whitespace in the sense of [`char_is_whitespace`].
pub fn is_whitespace(c: char) -> (r: bool)
    ensures
        r == char_is_whitespace(c),
{
    c == '\u{0009}' || c == '\u{000A}' || c == '\u{000B}' || c == '\u{000C}' || c == '\u{000D}'
        || c == '\u{0020}' || c == '\u{0085}' || c == '\u{00A0}' || c == '\u{1680}' || ('\u{2000}'
        <= c && c <= '\u{200A}') || c == '\u{2028}' || c == '\u{2029}' || c == '\u{202F}' || c
        == '\u{205F}' || c == '\u{3000}'
}

/// `s` with every trailing whitespace character removed.
pub open spec fn trim_end_spec(s: Seq<char>) -> Seq<char>
    decreases s.len(),
{
    if s.len() > 0 && char_is_whitespace(s.last()) {
        trim_end_spec(s.drop_last())
    } else {
        s
    }
}

/// `s` with every leading whitespace character removed.
pub open spec fn trim_start_spec(s: Seq<char>) -> Seq<char>
    decreases s.len(),
{
    if s.len() > 0 && char_is_whitespace(s.first()) {
        trim_start_spec(s.drop_first())
    } else {
        s
    }
}

/// `s` trimmed of whitespace on both ends, as `str::trim` does.
pub open spec fn trim_spec(s: Seq<char>) -> Seq<char> {
    trim_end_spec(trim_start_spec(s))
}

/// Right-trimming only discards characters: a prefix free of trailing
/// whitespace is left alone.
proof fn lemma_trim_end_prefix(s: Seq<char>, j: int)
    requires
        0 <= j <= s.len(),
        forall|i: int| j <= i < s.len() ==> char_is_whitespace(s[i]),
        j == 0 || !char_is_whitespace(s[j - 1]),
    ensures
        trim_end_spec(s) == s.take(j),
    decreases s.len(),
{
    if s.len() > j {
        assert(char_is_whitespace(s.last()));
        assert(s.drop_last().take(j) == s.take(j));
        lemma_trim_end_prefix(s.drop_last(), j);
    } else {
        assert(s.take(j) == s);
    }
}

/// Computes `trim_end_spec` of a string slice.
pub fn trim_end(s: &str) -> (r: &str)
    ensures
        r@ == trim_end_spec(s@),
{
    let len = s.unicode_len();
    let mut j = len;
    while j > 0 && is_whitespace(s.get_char(j - 1))
        invariant
            0 <= j <= len,
            len == s@.len(),
            forall|i: int| j <= i < s@.len() ==> char_is_whitespace(s@[i]),
        decreases j,
    {
        j = j - 1;
    }
    proof {
        lemma_trim_end_prefix(s@, j as int);
        assert(s@.subrange(0, j as int) == s@.take(j as int));
    }
    s.substring_char(0, j)
}

/// Left-trimming only discards characters: a suffix free of leading
/// whitespace is left alone.
proof fn lemma_trim_start_suffix(s: Seq<char>, j: int)
    requires
        0 <= j <= s.len(),
        forall|i: int| 0 <= i < j ==> char_is_whitespace(s[i]),
        j == s.len() || !char_is_whitespace(s[j]),
    ensures
        trim_start_spec(s) == s.skip(j),
    decreases s.len(),
{
    if j > 0 {
        assert(char_is_whitespace(s.first()));
        assert(s.drop_first().skip(j - 1) == s.skip(j));
        lemma_trim_start_suffix(s.drop_first(), j - 1);
    } else {
        assert(s.skip(0) == s);
    }
}

/// Computes `trim_spec` of a string slice: whitespace stripped from both
/// ends, as `str::trim` strips it.
pub fn trim(s: &str) -> (r: &str)
    ensures
        r@ == trim_spec(s@),
{
    let len = s.unicode_len();
    let mut a: usize = 0;
    while a < len && is_whitespace(s.get_char(a))
        invariant
            0 <= a <= len,
            len == s@.len(),
            forall|i: int| 0 <= i < a ==> char_is_whitespace(s@[i]),
        decreases len - a,
    {
        a = a + 1;
    }
    proof {
        lemma_trim_start_suffix(s@, a as int);
    }
    let mut j = len;
    while j > a && is_whitespace(s.get_char(j - 1))
        invariant
            a <= j <= len,
            len == s@.len(),
            forall|i: int| j <= i < s@.len() ==> char_is_whitespace(s@[i]),
        decreases j,
    {
        j = j - 1;
    }
    proof {
        let tail = s@.skip(a as int);
        lemma_trim_end_prefix(tail, j - a);
        assert(tail.take(j - a) == s@.subrange(a as int, j as int));
    }
    s.substring_char(a, j)
}

/// `p` is a character-for-character prefix of `s`.
pub open spec fn starts_with_spec(s: Seq<char>, p: Seq<char>) -> bool {
    p.len() <= s.len() && s.take(p.len() as int) == p
}

/// Decides whether `s` starts with `p`, character by character.
pub fn str_starts_with(s: &str, p: &str) -> (r: bool)
    ensures
        r == starts_with_spec(s@, p@),
{
    let slen = s.unicode_len();
    let plen = p.unicode_len();
    if plen > slen {
        return false;
    }
    let mut i: usize = 0;
    while i < plen
        invariant
            0 <= i <= plen,
            plen <= slen,
            slen == s@.len(),
            plen == p@.len(),
            forall|k: int| 0 <= k < i ==> s@[k] == p@[k],
        decreases plen - i,
    {
        if s.get_char(i) != p.get_char(i) {
            assert(s@.take(p@.len() as int)[i as int] != p@[i as int]);
            return false;
        }
        i = i + 1;
    }
    proof {
        assert(s@.take(p@.len() as int) =~= p@);
    }
    true
}

/// Decides whether the character sequences of `a` and `b` are equal.
pub fn str_eq(a: &str, b: &str) -> (r: bool)
    ensures
        r == (a@ == b@),
{
    let alen = a.unicode_len();
    let blen = b.unicode_len();
    if alen != blen {
        return false;
    }
    let mut i: usize = 0;
    while i < alen
        invariant
            0 <= i <= alen,
            alen == a@.len(),
            alen == b@.len(),
            forall|k: int| 0 <= k < i ==> a@[k] == b@[k],
        decreases alen - i,
    {
        if a.get_char(i) != b.get_char(i) {
            return false;
        }
        i = i + 1;
    }
    proof {
        assert(a@ =~= b@);
    }
    true
}

/// The needle `p` occurs in `s` at position `i`.
pub open spec fn occurs_at(s: Seq<char>, p: Seq<char>, i: int) -> bool {
    0 <= i && i + p.len() <= s.len() && s.subrange(i, i + p.len()) == p
}

/// The position of the first occurrence of `p` in `s` at or after `i`,
/// or -1 when `p` occurs nowhere at or after `i`.
pub open spec fn find_from(s: Seq<char>, p: Seq<char>, i: int) -> int
    decreases s.len() - i + 1,
    when 0 <= i
{
    if i + p.len() > s.len() {
        -1
    } else if occurs_at(s, p, i) {
        i
    } else {
        find_from(s, p, i + 1)
    }
}

/// What `find_from` returns: the first occurrence at or after `i`, or -1
/// when there is none.
pub proof fn lemma_find_from(s: Seq<char>, p: Seq<char>, i: int)
    requires
        0 <= i,
    ensures
        find_from(s, p, i) == -1 ==> forall|j: int| i <= j ==> !occurs_at(s, p, j),
        find_from(s, p, i) >= i ==> occurs_at(s, p, find_from(s, p, i)),
        find_from(s, p, i) >= i ==> forall|j: int|
            i <= j < find_from(s, p, i) ==> !occurs_at(s, p, j),
        find_from(s, p, i) == -1 || find_from(s, p, i) >= i,
    decreases s.len() - i + 1,
{
    if i + p.len() > s.len() {
        assert forall|j: int| i <= j implies !occurs_at(s, p, j) by {}
    } else if occurs_at(s, p, i) {
    } else {
        lemma_find_from(s, p, i + 1);
    }
}

/// Decides whether `p` occurs in `s` at position `i`.
fn occurs_here(s: &str, p: &str, i: usize, slen: usize, plen: usize) -> (r: bool)
    requires
        slen == s@.len(),
        plen == p@.len(),
        i + plen <= slen,
    ensures
        r == occurs_at(s@, p@, i as int),
{
    let mut k: usize = 0;
    while k < plen
        invariant
            0 <= k <= plen,
            i + plen <= slen,
            slen == s@.len(),
            plen == p@.len(),
            forall|t: int| 0 <= t < k ==> s@[i + t] == p@[t],
        decreases plen - k,
    {
        if s.get_char(i + k) != p.get_char(k) {
            proof {
                assert(s@.subrange(i as int, i + p@.len())[k as int] != p@[k as int]);
            }
            return false;
        }
        k = k + 1;
    }
    proof {
        assert(s@.subrange(i as int, i + p@.len()) =~= p@);
    }
    true
}

/// Finds the first occurrence of `p` in `s`: `Some` of its position, or
/// `None` exactly when `find_from` reports -1.
pub fn str_find(s: &str, p: &str) -> (r: Option<usize>)
    ensures
        match r {
            Some(i) => find_from(s@, p@, 0) == i as int,
            None => find_from(s@, p@, 0) == -1,
        },
{
    let slen = s.unicode_len();
    let plen = p.unicode_len();
    if plen > slen {
        return None;
    }
    if plen == 0 {
        proof {
            assert(s@.subrange(0, 0) =~= p@);
        }
        return Some(0);
    }
    let mut i: usize = 0;
    while i <= slen - plen
        invariant
            0 <= i <= slen - plen + 1,
            1 <= plen <= slen,
            slen == s@.len(),
            plen == p@.len(),
            find_from(s@, p@, 0) == find_from(s@, p@, i as int),
        decreases slen - i,
    {
        if occurs_here(s, p, i, slen, plen) {
            return Some(i);
        }
        proof {
            assert(find_from(s@, p@, i as int) == find_from(s@, p@, i + 1));
        }
        i = i + 1;
    }
    proof {
        assert(i as int + p@.len() > s@.len());
    }
    None
}

} // verus!
