//! Verified building blocks for the string work the catalog needs:
//! substring search, lexicographic comparison, splitting, trimming and
//! concatenation, all specified over `Seq<char>` views.

use vstd::prelude::*;

verus! {

/// The pattern `pat` occurs in `s` at position `i`.
pub open spec fn occurs_at(s: Seq<char>, pat: Seq<char>, i: int) -> bool {
    0 <= i && i + pat.len() <= s.len() && s.subrange(i, i + pat.len()) == pat
}

/// The pattern `pat` occurs somewhere in `s`.
pub open spec fn contains_seq(s: Seq<char>, pat: Seq<char>) -> bool {
    exists|i: int| occurs_at(s, pat, i)
}

/// `s` ends with the suffix `suf`.
pub open spec fn ends_with_seq(s: Seq<char>, suf: Seq<char>) -> bool {
    suf.len() <= s.len() && s.subrange(s.len() - suf.len(), s.len() as int) == suf
}

/// Compares `pat` against the characters of `s` starting at position `i`.
pub fn match_at(s: &str, pat: &str, i: usize) -> (r: bool)
    requires
        i + pat@.len() <= s@.len(),
    ensures
        r == occurs_at(s@, pat@, i as int),
{
    let slen = s.unicode_len();
    let plen = pat.unicode_len();
    let mut j: usize = 0;
    while j < plen
        invariant
            j <= plen,
            plen == pat@.len(),
            slen == s@.len(),
            i + plen <= slen,
            forall|k: int| 0 <= k < j ==> s@[i + k] == pat@[k],
        decreases plen - j,
    {
        if s.get_char(i + j) != pat.get_char(j) {
            assert(!occurs_at(s@, pat@, i as int)) by {
                if s@.subrange(i as int, i + plen) == pat@ {
                    assert(s@.subrange(i as int, i + plen)[j as int] == s@[i + j]);
                }
            }
            return false;
        }
        j += 1;
    }
    assert(s@.subrange(i as int, i + plen) =~= pat@);
    true
}

/// Substring search; true exactly when `pat` occurs in `s`.
pub fn str_contains(s: &str, pat: &str) -> (r: bool)
    ensures
        r == contains_seq(s@, pat@),
{
    let slen = s.unicode_len();
    let plen = pat.unicode_len();
    if plen > slen {
        assert(!contains_seq(s@, pat@));
        return false;
    }
    let last = slen - plen;
    let mut i: usize = 0;
    loop
        invariant
            i <= last,
            last == slen - plen,
            plen <= slen,
            slen == s@.len(),
            plen == pat@.len(),
            forall|k: int| 0 <= k < i ==> !occurs_at(s@, pat@, k),
        decreases last - i,
    {
        if match_at(s, pat, i) {
            return true;
        }
        if i == last {
            assert(!contains_seq(s@, pat@)) by {
                if exists|k: int| occurs_at(s@, pat@, k) {
                    let k = choose|k: int| occurs_at(s@, pat@, k);
                    assert(k <= last);
                }
            }
            return false;
        }
        i += 1;
    }
}

/// `s` ends with the suffix `suf`.
pub fn str_ends_with(s: &str, suf: &str) -> (r: bool)
    ensures
        r == ends_with_seq(s@, suf@),
{
    let slen = s.unicode_len();
    let flen = suf.unicode_len();
    if flen > slen {
        return false;
    }
    match_at(s, suf, slen - flen)
}

/// Character-for-character string equality.
pub fn str_eq(a: &str, b: &str) -> (r: bool)
    ensures
        r == (a@ == b@),
{
    let alen = a.unicode_len();
    let blen = b.unicode_len();
    if alen != blen {
        return false;
    }
    let r = match_at(a, b, 0);
    if r {
        assert(a@.subrange(0, b@.len() as int) =~= a@);
    } else {
        assert(a@.subrange(0, b@.len() as int) =~= a@);
    }
    r
}

/// Lexicographic "less or equal" over code points, read from position `i` on,
/// assuming the characters before `i` agree.
pub open spec fn lex_le_from(a: Seq<char>, b: Seq<char>, i: int) -> bool
    decreases a.len() - i,
{
    if i >= a.len() {
        true
    } else if i >= b.len() {
        false
    } else if a[i] == b[i] {
        lex_le_from(a, b, i + 1)
    } else {
        (a[i] as u32) < (b[i] as u32)
    }
}

/// Lexicographic "less or equal" over code points.
pub open spec fn lex_le(a: Seq<char>, b: Seq<char>) -> bool {
    lex_le_from(a, b, 0)
}

/// Lexicographic comparison; true exactly when `a` is less than or equal to
/// `b` in code-point order.
pub fn str_le(a: &str, b: &str) -> (r: bool)
    ensures
        r == lex_le(a@, b@),
{
    let alen = a.unicode_len();
    let blen = b.unicode_len();
    let mut i: usize = 0;
    loop
        invariant
            i <= alen,
            i <= blen,
            alen == a@.len(),
            blen == b@.len(),
            lex_le(a@, b@) == lex_le_from(a@, b@, i as int),
        decreases alen - i,
    {
        if i == alen {
            return true;
        }
        if i == blen {
            return false;
        }
        let ca = a.get_char(i);
        let cb = b.get_char(i);
        if ca != cb {
            return (ca as u32) < (cb as u32);
        }
        i += 1;
    }
}

proof fn lemma_char_injective(c1: char, c2: char)
    requires
        c1 != c2,
    ensures
        (c1 as u32) != (c2 as u32),
{
}

/// Lexicographic order is total.
pub proof fn lemma_lex_le_total(a: Seq<char>, b: Seq<char>)
    ensures
        lex_le(a, b) || lex_le(b, a),
{
    lemma_lex_le_from_total(a, b, 0);
}

proof fn lemma_lex_le_from_total(a: Seq<char>, b: Seq<char>, i: int)
    ensures
        lex_le_from(a, b, i) || lex_le_from(b, a, i),
    decreases a.len() + b.len() - i,
{
    if i >= a.len() {
        assert(lex_le_from(a, b, i));
    } else if i >= b.len() {
        assert(lex_le_from(b, a, i));
    } else if a[i] == b[i] {
        lemma_lex_le_from_total(a, b, i + 1);
    } else {
        let ca = a[i];
        let cb = b[i];
        assert(ca != cb);
        assert((ca as u32) != (cb as u32)) by {
            lemma_char_injective(ca, cb);
        }
        assert(lex_le_from(a, b, i) || lex_le_from(b, a, i));
    }
}

/// Lexicographic order is transitive.
pub proof fn lemma_lex_le_trans(a: Seq<char>, b: Seq<char>, c: Seq<char>)
    requires
        lex_le(a, b),
        lex_le(b, c),
    ensures
        lex_le(a, c),
{
    lemma_lex_le_from_trans(a, b, c, 0);
}

proof fn lemma_lex_le_from_trans(a: Seq<char>, b: Seq<char>, c: Seq<char>, i: int)
    requires
        lex_le_from(a, b, i),
        lex_le_from(b, c, i),
    ensures
        lex_le_from(a, c, i),
    decreases a.len() - i,
{
    if i >= a.len() {
    } else if i < b.len() && i < c.len() && a[i] == b[i] && b[i] == c[i] {
        lemma_lex_le_from_trans(a, b, c, i + 1);
    }
}

/// Two sequences each at most the other in lexicographic order are equal.
pub proof fn lemma_lex_le_antisym(a: Seq<char>, b: Seq<char>)
    requires
        lex_le(a, b),
        lex_le(b, a),
    ensures
        a == b,
{
    assert(a.subrange(0, 0) =~= b.subrange(0, 0));
    lemma_lex_le_from_antisym(a, b, 0);
}

proof fn lemma_lex_le_from_antisym(a: Seq<char>, b: Seq<char>, i: int)
    requires
        0 <= i <= a.len(),
        0 <= i <= b.len(),
        a.subrange(0, i) == b.subrange(0, i),
        lex_le_from(a, b, i),
        lex_le_from(b, a, i),
    ensures
        a == b,
    decreases a.len() - i,
{
    if i >= a.len() {
        if i < b.len() {
            assert(!lex_le_from(b, a, i));
        }
        assert(a.len() == i && b.len() == i);
        assert forall|j: int| 0 <= j < i implies a[j] == b[j] by {
            assert(a.subrange(0, i)[j] == a[j]);
            assert(b.subrange(0, i)[j] == b[j]);
        }
        assert(a =~= b);
    } else if i >= b.len() {
        assert(!lex_le_from(a, b, i));
    } else if a[i] == b[i] {
        assert(a.subrange(0, i + 1) =~= b.subrange(0, i + 1));
        lemma_lex_le_from_antisym(a, b, i + 1);
    }
}

/// The position of the last occurrence of `c` in `s`, or -1 when absent.
pub open spec fn last_index_of(s: Seq<char>, c: char) -> int
    decreases s.len(),
{
    if s.len() == 0 {
        -1
    } else if s[s.len() - 1] == c {
        s.len() - 1
    } else {
        last_index_of(s.drop_last(), c)
    }
}

proof fn lemma_last_index_of_take(s: Seq<char>, c: char, i: int)
    requires
        0 <= i <= s.len(),
        forall|j: int| i <= j < s.len() ==> s[j] != c,
    ensures
        last_index_of(s, c) == last_index_of(s.take(i), c),
    decreases s.len() - i,
{
    if i == s.len() {
        assert(s.take(i) =~= s);
    } else {
        lemma_last_index_of_take(s, c, i + 1);
        assert(s.take(i + 1).drop_last() =~= s.take(i));
        assert(s.take(i + 1)[i] == s[i]);
    }
}

/// Range and hit facts of `last_index_of`.
pub proof fn lemma_last_index_of(s: Seq<char>, c: char)
    ensures
        -1 <= last_index_of(s, c) < s.len(),
        last_index_of(s, c) >= 0 ==> s[last_index_of(s, c)] == c,
        forall|j: int| last_index_of(s, c) < j < s.len() ==> s[j] != c,
    decreases s.len(),
{
    if s.len() > 0 && s[s.len() - 1] != c {
        lemma_last_index_of(s.drop_last(), c);
        assert(forall|j: int| 0 <= j < s.len() - 1 ==> s.drop_last()[j] == s[j]);
    }
}

/// Scans `s` from the end for `c`; returns its position, or `s.len()` when
/// `c` does not occur.
pub fn rfind_char(s: &str, c: char) -> (r: usize)
    ensures
        last_index_of(s@, c) >= 0 ==> r as int == last_index_of(s@, c),
        last_index_of(s@, c) < 0 ==> r as int == s@.len(),
{
    let slen = s.unicode_len();
    let mut i: usize = slen;
    while i > 0
        invariant
            i <= slen,
            slen == s@.len(),
            forall|j: int| i <= j < slen ==> s@[j] != c,
        decreases i,
    {
        if s.get_char(i - 1) == c {
            proof {
                lemma_last_index_of_take(s@, c, i as int);
                assert(s@.take(i as int)[i - 1] == c);
            }
            return i - 1;
        }
        i -= 1;
    }
    proof {
        lemma_last_index_of_take(s@, c, 0);
        assert(s@.take(0) =~= Seq::<char>::empty());
    }
    slen
}

/// The position of the first occurrence of `c` in `s`, or `s.len()` when
/// absent.
pub open spec fn first_index_of(s: Seq<char>, c: char) -> int
    decreases s.len(),
{
    if s.len() == 0 {
        0
    } else if s[0] == c {
        0
    } else {
        1 + first_index_of(s.drop_first(), c)
    }
}

proof fn lemma_first_index_of_skip(s: Seq<char>, c: char, i: int)
    requires
        0 <= i <= s.len(),
        forall|j: int| 0 <= j < i ==> s[j] != c,
    ensures
        first_index_of(s, c) == i + first_index_of(s.skip(i), c),
    decreases i,
{
    if i > 0 {
        assert(s.drop_first() =~= s.skip(1));
        assert(s.skip(1).skip(i - 1) =~= s.skip(i));
        assert(forall|j: int| 0 <= j < i - 1 ==> s.skip(1)[j] == s[j + 1]);
        lemma_first_index_of_skip(s.skip(1), c, i - 1);
        assert(s[0] != c);
        assert(first_index_of(s, c) == 1 + first_index_of(s.drop_first(), c));
    } else {
        assert(s.skip(0) =~= s);
    }
}

/// Range and hit facts of `first_index_of`.
pub proof fn lemma_first_index_of(s: Seq<char>, c: char)
    ensures
        0 <= first_index_of(s, c) <= s.len(),
        first_index_of(s, c) < s.len() ==> s[first_index_of(s, c)] == c,
        forall|j: int| 0 <= j < first_index_of(s, c) ==> s[j] != c,
    decreases s.len(),
{
    if s.len() > 0 && s[0] != c {
        lemma_first_index_of(s.drop_first(), c);
        assert forall|j: int| 0 <= j < first_index_of(s, c) implies s[j] != c by {
            if j > 0 {
                assert(s.drop_first()[j - 1] == s[j]);
            }
        }
    }
}

/// Scans `s` from the front for `c`; returns its position, or `s.len()` when
/// `c` does not occur.
pub fn find_char(s: &str, c: char) -> (r: usize)
    ensures
        r as int == first_index_of(s@, c),
{
    let slen = s.unicode_len();
    let mut i: usize = 0;
    while i < slen
        invariant
            i <= slen,
            slen == s@.len(),
            forall|j: int| 0 <= j < i ==> s@[j] != c,
        decreases slen - i,
    {
        if s.get_char(i) == c {
            proof {
                lemma_first_index_of_skip(s@, c, i as int);
                assert(s@.skip(i as int)[0] == c);
            }
            return i;
        }
        i += 1;
    }
    proof {
        lemma_first_index_of_skip(s@, c, slen as int);
        assert(s@.skip(slen as int) =~= Seq::<char>::empty());
    }
    slen
}

/// What Unicode lowercasing makes of a sequence of characters; a function
/// of the characters alone.
pub uninterp spec fn lower_of(s: Seq<char>) -> Seq<char>;

/// Relies on str::to_lowercase: the result depends on the characters alone,
/// and an empty string stays empty.
#[verifier::external_body]
pub(crate) fn lowercase(s: &str) -> (r: String)
    ensures
        r@ == lower_of(s@),
        s@.len() == 0 ==> r@.len() == 0,
{
    s.to_lowercase()
}

/// Concatenation of two strings.
pub fn concat2(a: &str, b: &str) -> (r: String)
    ensures
        r@ == a@ + b@,
{
    let mut r = a.to_owned();
    r.append(b);
    r
}

/// Concatenation of three strings.
pub fn concat3(a: &str, b: &str, c: &str) -> (r: String)
    ensures
        r@ == a@ + b@ + c@,
{
    let mut r = a.to_owned();
    r.append(b);
    r.append(c);
    r
}

/// Concatenation of four strings.
pub fn concat4(a: &str, b: &str, c: &str, d: &str) -> (r: String)
    ensures
        r@ == a@ + b@ + c@ + d@,
{
    let mut r = a.to_owned();
    r.append(b);
    r.append(c);
    r.append(d);
    r
}

} // verus!
