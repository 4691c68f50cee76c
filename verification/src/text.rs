//! Character-level text primitives: substring occurrence, scanning a buffer
//! of fragments for a marker, and locating the last occurrence of a character.

use vstd::prelude::*;
use vstd::string::StrSliceExecFns;

verus! {

/// `needle` occurs in `hay` starting at position `i`.
pub open spec fn occurs_at(hay: Seq<char>, needle: Seq<char>, i: int) -> bool {
    0 <= i && i + needle.len() <= hay.len() && hay.subrange(i, i + needle.len() as int)
        == needle
}

/// `needle` occurs somewhere in `hay`.
pub open spec fn occurs_in(hay: Seq<char>, needle: Seq<char>) -> bool {
    exists|i: int| occurs_at(hay, needle, i)
}

/// A needle longer than the hay occurs nowhere in it.
pub proof fn lemma_needle_too_long(hay: Seq<char>, needle: Seq<char>)
    requires
        needle.len() > hay.len(),
    ensures
        !occurs_in(hay, needle),
{
}

/// If no character of `hay` equals the first character of `needle`,
/// then `needle` does not occur in `hay`.
pub proof fn lemma_first_char_absent(hay: Seq<char>, needle: Seq<char>)
    requires
        needle.len() > 0,
        forall|k: int| 0 <= k < hay.len() ==> hay[k] != needle[0],
    ensures
        !occurs_in(hay, needle),
{
    assert forall|i: int| !occurs_at(hay, needle, i) by {
        if 0 <= i && i + needle.len() <= hay.len() {
            assert(hay.subrange(i, i + needle.len() as int)[0] == hay[i]);
        }
    }
}

/// A string that begins with `needle` contains it.
pub proof fn lemma_prefix_occurs(hay: Seq<char>, needle: Seq<char>)
    requires
        needle.len() <= hay.len(),
        hay.subrange(0, needle.len() as int) == needle,
    ensures
        occurs_in(hay, needle),
{
    assert(occurs_at(hay, needle, 0));
}

/// Does `needle` occur in `hay` at position `i`?
fn matches_at(hay: &str, needle: &str, i: usize, hlen: usize, nlen: usize) -> (r: bool)
    requires
        hlen == hay@.len(),
        nlen == needle@.len(),
        i + nlen <= hlen,
    ensures
        r == occurs_at(hay@, needle@, i as int),
{
    let mut j: usize = 0;
    while j < nlen
        invariant
            hlen == hay@.len(),
            nlen == needle@.len(),
            i + nlen <= hlen,
            0 <= j <= nlen,
            forall|k: int| 0 <= k < j ==> hay@[i + k] == needle@[k],
        decreases nlen - j,
    {
        if hay.get_char(i + j) != needle.get_char(j) {
            proof {
                assert(hay@.subrange(i as int, i + nlen as int)[j as int] == hay@[i + j]);
            }
            return false;
        }
        j += 1;
    }
    proof {
        assert(hay@.subrange(i as int, i + nlen as int) =~= needle@);
    }
    true
}

/// Does `needle` occur anywhere in `hay`?
pub fn find_in(hay: &str, needle: &str) -> (r: bool)
    ensures
        r == occurs_in(hay@, needle@),
{
    let hlen = hay.unicode_len();
    let nlen = needle.unicode_len();
    if nlen > hlen {
        proof {
            lemma_needle_too_long(hay@, needle@);
        }
        return false;
    }
    if nlen == 0 {
        proof {
            assert(hay@.subrange(0, 0) =~= needle@);
            assert(occurs_at(hay@, needle@, 0));
        }
        return true;
    }
    let mut i: usize = 0;
    while i <= hlen - nlen
        invariant
            hlen == hay@.len(),
            nlen == needle@.len(),
            1 <= nlen <= hlen,
            0 <= i <= hlen - nlen + 1,
            forall|k: int| 0 <= k < i ==> !occurs_at(hay@, needle@, k),
        decreases hlen - nlen - i + 1,
    {
        if matches_at(hay, needle, i, hlen, nlen) {
            return true;
        }
        i += 1;
    }
    proof {
        assert forall|k: int| !occurs_at(hay@, needle@, k) by {
            if 0 <= k && k + needle@.len() <= hay@.len() {
                assert(k < i);
            }
        }
    }
    false
}

/// Index of the first fragment of `b` in which `pat` occurs; `b.len()` if none.
pub open spec fn first_with(b: Seq<Seq<char>>, pat: Seq<char>) -> int
    decreases b.len(),
{
    if b.len() == 0 {
        0
    } else if occurs_in(b[0], pat) {
        0
    } else {
        1 + first_with(b.drop_first(), pat)
    }
}

/// Some fragment of `b` contains `pat`.
pub open spec fn any_with(b: Seq<Seq<char>>, pat: Seq<char>) -> bool {
    exists|j: int| 0 <= j < b.len() && occurs_in(b[j], pat)
}

/// `first_with` is the least index whose fragment contains `pat`,
/// and it is in range exactly when some fragment contains `pat`.
pub proof fn lemma_first_with(b: Seq<Seq<char>>, pat: Seq<char>)
    ensures
        0 <= first_with(b, pat) <= b.len(),
        first_with(b, pat) < b.len() ==> occurs_in(b[first_with(b, pat)], pat),
        forall|k: int| 0 <= k < first_with(b, pat) ==> !occurs_in(b[k], pat),
        (first_with(b, pat) < b.len()) == any_with(b, pat),
    decreases b.len(),
{
    if b.len() == 0 {
        assert(!any_with(b, pat));
    } else if occurs_in(b[0], pat) {
        assert(any_with(b, pat));
    } else {
        let t = b.drop_first();
        lemma_first_with(t, pat);
        assert(forall|k: int| 0 <= k < t.len() ==> t[k] == b[k + 1]);
        let f = first_with(b, pat);
        assert(f == 1 + first_with(t, pat));
        assert forall|k: int| 0 <= k < f implies !occurs_in(b[k], pat) by {
            if k > 0 {
                assert(b[k] == t[k - 1]);
            }
        }
        if any_with(b, pat) {
            let j = choose|j: int| 0 <= j < b.len() && occurs_in(b[j], pat);
            assert(j > 0);
            assert(t[j - 1] == b[j]);
            assert(any_with(t, pat));
        }
        if any_with(t, pat) {
            let j = choose|j: int| 0 <= j < t.len() && occurs_in(t[j], pat);
            assert(b[j + 1] == t[j]);
            assert(any_with(b, pat));
        }
    }
}

/// Index of the first fragment of `buffer` in which `pat` occurs;
/// `buffer.len()` if none.
pub fn find_fragment(buffer: &Vec<String>, pat: &str) -> (r: usize)
    ensures
        r as int == first_with(buffer.deep_view(), pat@),
        r <= buffer.len(),
{
    proof {
        lemma_first_with(buffer.deep_view(), pat@);
    }
    let n = buffer.len();
    let mut j: usize = 0;
    while j < n
        invariant
            n == buffer@.len(),
            0 <= j <= n,
            forall|k: int| 0 <= k < j ==> !occurs_in(buffer.deep_view()[k], pat@),
            0 <= first_with(buffer.deep_view(), pat@) <= n,
            first_with(buffer.deep_view(), pat@) < n ==> occurs_in(
                buffer.deep_view()[first_with(buffer.deep_view(), pat@)],
                pat@,
            ),
            forall|k: int| 0 <= k < first_with(buffer.deep_view(), pat@) ==> !occurs_in(
                buffer.deep_view()[k],
                pat@,
            ),
        decreases n - j,
    {
        proof {
            assert(buffer.deep_view()[j as int] == buffer@[j as int]@);
        }
        if find_in(buffer[j].as_str(), pat) {
            return j;
        }
        j += 1;
    }
    n
}

/// `first_with` is `j` when `pat` occurs in `b[j]` and in no earlier fragment.
pub proof fn lemma_first_with_is(b: Seq<Seq<char>>, pat: Seq<char>, j: int)
    requires
        0 <= j < b.len(),
        occurs_in(b[j], pat),
        forall|k: int| 0 <= k < j ==> !occurs_in(b[k], pat),
    ensures
        first_with(b, pat) == j,
{
    lemma_first_with(b, pat);
    assert(any_with(b, pat));
    let f = first_with(b, pat);
    if f < j {
        assert(!occurs_in(b[f], pat));
    }
    if f > j {
        assert(!occurs_in(b[j], pat));
    }
}

/// Does `pat` occur in some fragment of `buffer`?
pub fn buffer_has(buffer: &Vec<String>, pat: &str) -> (r: bool)
    ensures
        r == any_with(buffer.deep_view(), pat@),
{
    proof {
        lemma_first_with(buffer.deep_view(), pat@);
    }
    let j = find_fragment(buffer, pat);
    j < buffer.len()
}

/// The last index strictly below `i` at which `c` stands in `s`; `-1` if none.
pub open spec fn last_char_before(s: Seq<char>, c: char, i: int) -> int
    decreases i,
{
    if i <= 0 {
        -1
    } else if s[i - 1] == c {
        i - 1
    } else {
        last_char_before(s, c, i - 1)
    }
}

/// The last index at which `c` stands in `s`; `-1` if none.
pub open spec fn last_char_at(s: Seq<char>, c: char) -> int {
    last_char_before(s, c, s.len() as int)
}

/// `c` occurs somewhere in `s`.
pub open spec fn has_char(s: Seq<char>, c: char) -> bool {
    exists|k: int| 0 <= k < s.len() && s[k] == c
}

/// `last_char_before` finds `c`, finds the last one, and finds one
/// exactly when one is there.
pub proof fn lemma_last_char_before(s: Seq<char>, c: char, i: int)
    requires
        0 <= i <= s.len(),
    ensures
        -1 <= last_char_before(s, c, i) < i,
        last_char_before(s, c, i) >= 0 ==> s[last_char_before(s, c, i)] == c,
        forall|k: int| last_char_before(s, c, i) < k < i ==> s[k] != c,
    decreases i,
{
    if i > 0 && s[i - 1] != c {
        lemma_last_char_before(s, c, i - 1);
    }
}

/// `c` below `i` in `s` is exactly a non-negative `last_char_before`.
pub proof fn lemma_last_char_exists(s: Seq<char>, c: char)
    requires
        has_char(s, c),
    ensures
        0 <= last_char_at(s, c) < s.len(),
        s[last_char_at(s, c)] == c,
        forall|k: int| last_char_at(s, c) < k < s.len() ==> s[k] != c,
{
    lemma_last_char_before(s, c, s.len() as int);
    if last_char_at(s, c) < 0 {
        let k = choose|k: int| 0 <= k < s.len() && s[k] == c;
        assert(s[k] != c);
    }
}

/// Looking for the last `c` below `i` may skip any stretch without `c`.
pub proof fn lemma_last_char_before_skip(s: Seq<char>, c: char, lo: int, i: int)
    requires
        0 <= lo <= i <= s.len(),
        forall|k: int| lo <= k < i ==> s[k] != c,
    ensures
        last_char_before(s, c, i) == last_char_before(s, c, lo),
    decreases i,
{
    if i > lo {
        lemma_last_char_before_skip(s, c, lo, i - 1);
    }
}

/// The last `c` of a text whose tail holds none is the last `c` of its head.
pub proof fn lemma_last_char_concat(a: Seq<char>, b: Seq<char>, c: char)
    requires
        a.len() > 0,
        a.last() == c,
        forall|k: int| 0 <= k < b.len() ==> b[k] != c,
    ensures
        last_char_at(a + b, c) == a.len() - 1,
{
    let s = a + b;
    assert forall|k: int| a.len() <= k < s.len() implies s[k] != c by {
        assert(s[k] == b[k - a.len()]);
    }
    lemma_last_char_before_skip(s, c, a.len() as int, s.len() as int);
    assert(s[a.len() - 1] == a.last());
}

/// The index of the last occurrence of `c` in `s`, which must occur in it.
pub fn rfind_char(s: &str, c: char) -> (r: usize)
    requires
        has_char(s@, c),
    ensures
        r as int == last_char_at(s@, c),
{
    proof {
        lemma_last_char_exists(s@, c);
    }
    let n = s.unicode_len();
    rfind_char_from(s, c, n)
}

/// The index of the last occurrence of `c` in `s` strictly below `i`.
fn rfind_char_from(s: &str, c: char, i: usize) -> (r: usize)
    requires
        i <= s@.len(),
        last_char_before(s@, c, i as int) >= 0,
    ensures
        r as int == last_char_before(s@, c, i as int),
    decreases i,
{
    assert(i > 0);
    if s.get_char(i - 1) == c {
        i - 1
    } else {
        rfind_char_from(s, c, i - 1)
    }
}

} // verus!
