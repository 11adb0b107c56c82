//! The command sanitizer: strips the standard field-code placeholders
//! (`%f`, `%F`, `%u`, `%U`) from a launch command — removing until none
//! remains, so a removal that splices two halves into a new placeholder
//! is removed in turn — then trims surrounding ASCII whitespace.

use vstd::prelude::*;
use crate::strutil::{contains_seq, occurs_at};

verus! {

/// ASCII whitespace, the characters the trim step removes.
pub open spec fn is_space_char(c: char) -> bool {
    c == ' ' || c == '\t' || c == '\n' || c == '\r' || c == '\u{b}' || c == '\u{c}'
}

/// Executable test for [`is_space_char`].
pub fn is_space(c: char) -> (r: bool)
    ensures
        r == is_space_char(c),
{
    c == ' ' || c == '\t' || c == '\n' || c == '\r' || c == '\u{b}' || c == '\u{c}'
}

/// `s` without its leading whitespace.
pub open spec fn trim_start_spec(s: Seq<char>) -> Seq<char>
    decreases s.len(),
{
    if s.len() > 0 && is_space_char(s[0]) {
        trim_start_spec(s.drop_first())
    } else {
        s
    }
}

/// `s` without its trailing whitespace.
pub open spec fn trim_end_spec(s: Seq<char>) -> Seq<char>
    decreases s.len(),
{
    if s.len() > 0 && is_space_char(s[s.len() - 1]) {
        trim_end_spec(s.drop_last())
    } else {
        s
    }
}

/// `s` without leading and trailing whitespace.
pub open spec fn trim_spec(s: Seq<char>) -> Seq<char> {
    trim_end_spec(trim_start_spec(s))
}

proof fn lemma_trim_start_skip(s: Seq<char>, k: int)
    requires
        0 <= k <= s.len(),
        forall|j: int| 0 <= j < k ==> is_space_char(s[j]),
        k < s.len() ==> !is_space_char(s[k]),
    ensures
        trim_start_spec(s) == s.skip(k),
    decreases k,
{
    if k == 0 {
        assert(s.skip(0) =~= s);
    } else {
        assert(s.drop_first() =~= s.skip(1));
        assert(forall|j: int| 0 <= j < k - 1 ==> s.skip(1)[j] == s[j + 1]);
        lemma_trim_start_skip(s.skip(1), k - 1);
        assert(s.skip(1).skip(k - 1) =~= s.skip(k));
    }
}

proof fn lemma_trim_end_take(s: Seq<char>, k: int)
    requires
        0 <= k <= s.len(),
        forall|j: int| k <= j < s.len() ==> is_space_char(s[j]),
        k > 0 ==> !is_space_char(s[k - 1]),
    ensures
        trim_end_spec(s) == s.take(k),
    decreases s.len() - k,
{
    if k == s.len() {
        assert(s.take(k) =~= s);
    } else {
        assert(s.drop_last() =~= s.take(s.len() - 1));
        assert(forall|j: int| 0 <= j < s.len() - 1 ==> s.take(s.len() - 1)[j] == s[j]);
        lemma_trim_end_take(s.take(s.len() - 1), k);
        assert(s.take(s.len() - 1).take(k) =~= s.take(k));
    }
}

/// Trims leading and trailing ASCII whitespace.
pub fn trim_str(s: &str) -> (r: String)
    ensures
        r@ == trim_spec(s@),
{
    let slen = s.unicode_len();
    let mut lo: usize = 0;
    while lo < slen && is_space(s.get_char(lo))
        invariant
            lo <= slen,
            slen == s@.len(),
            forall|j: int| 0 <= j < lo ==> is_space_char(s@[j]),
        decreases slen - lo,
    {
        lo += 1;
    }
    proof {
        lemma_trim_start_skip(s@, lo as int);
    }
    let mut hi: usize = slen;
    while hi > lo && is_space(s.get_char(hi - 1))
        invariant
            lo <= hi <= slen,
            slen == s@.len(),
            forall|j: int| hi <= j < slen ==> is_space_char(s@[j]),
        decreases hi,
    {
        hi -= 1;
    }
    proof {
        let t = s@.skip(lo as int);
        assert(forall|j: int| hi - lo <= j < t.len() ==> t[j] == s@[j + lo]);
        if hi > lo {
            assert(t[hi - lo - 1] == s@[hi - 1]);
        }
        lemma_trim_end_take(t, hi - lo);
        assert(t.take(hi - lo) =~= s@.subrange(lo as int, hi as int));
    }
    let r = s.substring_char(lo, hi);
    r.to_owned()
}

/// The result of trimming has no leading whitespace.
proof fn lemma_trim_start_no_lead(s: Seq<char>)
    ensures
        trim_start_spec(s).len() > 0 ==> !is_space_char(trim_start_spec(s)[0]),
    decreases s.len(),
{
    if s.len() > 0 && is_space_char(s[0]) {
        lemma_trim_start_no_lead(s.drop_first());
    }
}

/// The result of trimming has no trailing whitespace.
proof fn lemma_trim_end_no_trail(s: Seq<char>)
    ensures
        trim_end_spec(s).len() > 0 ==> !is_space_char(
            trim_end_spec(s)[trim_end_spec(s).len() - 1],
        ),
    decreases s.len(),
{
    if s.len() > 0 && is_space_char(s[s.len() - 1]) {
        lemma_trim_end_no_trail(s.drop_last());
    }
}

/// Trimming from the end keeps a prefix of the input unchanged.
proof fn lemma_trim_end_prefix(s: Seq<char>)
    ensures
        trim_end_spec(s).len() <= s.len(),
        forall|j: int| 0 <= j < trim_end_spec(s).len() ==> trim_end_spec(s)[j] == s[j],
    decreases s.len(),
{
    if s.len() > 0 && is_space_char(s[s.len() - 1]) {
        lemma_trim_end_prefix(s.drop_last());
        assert(forall|j: int| 0 <= j < s.len() - 1 ==> s.drop_last()[j] == s[j]);
    }
}

/// Trimming an already-trimmed sequence changes nothing.
pub proof fn lemma_trim_idempotent(s: Seq<char>)
    ensures
        trim_spec(trim_spec(s)) == trim_spec(s),
{
    let t1 = trim_start_spec(s);
    let t = trim_end_spec(t1);
    lemma_trim_start_no_lead(s);
    lemma_trim_end_prefix(t1);
    if t.len() > 0 {
        assert(t[0] == t1[0]);
        assert(!is_space_char(t[0]));
    }
    assert(trim_start_spec(t) == t);
    lemma_trim_end_no_trail(t1);
    assert(trim_end_spec(t) == t);
}

/// The two characters form a field-code placeholder: `%` followed by one
/// of `f`, `F`, `u`, `U`.
pub open spec fn is_placeholder_pair(a: char, b: char) -> bool {
    a == '%' && (b == 'f' || b == 'F' || b == 'u' || b == 'U')
}

/// Executable test for [`is_placeholder_pair`].
pub fn is_pair(a: char, b: char) -> (r: bool)
    ensures
        r == is_placeholder_pair(a, b),
{
    a == '%' && (b == 'f' || b == 'F' || b == 'u' || b == 'U')
}

/// No two adjacent characters of `s` form a placeholder.
pub open spec fn pair_free(s: Seq<char>) -> bool {
    forall|i: int| 0 <= i < s.len() - 1 ==> !is_placeholder_pair(#[trigger] s[i], s[i + 1])
}

/// `s` with every placeholder removed. Characters are kept left to right;
/// whenever the last kept character and the next one form a placeholder,
/// both go. A removal that splices two halves into a new placeholder is
/// thus removed in turn, and no placeholder survives.
pub open spec fn strip_spec(s: Seq<char>) -> Seq<char>
    decreases s.len(),
{
    if s.len() == 0 {
        s
    } else {
        let t = strip_spec(s.drop_last());
        if t.len() > 0 && is_placeholder_pair(t[t.len() - 1], s[s.len() - 1]) {
            t.drop_last()
        } else {
            t.push(s[s.len() - 1])
        }
    }
}

/// What stripping leaves holds no adjacent placeholder pair.
proof fn lemma_strip_pair_free(s: Seq<char>)
    ensures
        pair_free(strip_spec(s)),
    decreases s.len(),
{
    if s.len() == 0 {
    } else {
        lemma_strip_pair_free(s.drop_last());
        let t = strip_spec(s.drop_last());
        let out = strip_spec(s);
        if t.len() > 0 && is_placeholder_pair(t[t.len() - 1], s[s.len() - 1]) {
            assert forall|i: int| 0 <= i < out.len() - 1 implies !is_placeholder_pair(
                #[trigger] out[i],
                out[i + 1],
            ) by {
                assert(out[i] == t[i] && out[i + 1] == t[i + 1]);
            }
        } else {
            assert forall|i: int| 0 <= i < out.len() - 1 implies !is_placeholder_pair(
                #[trigger] out[i],
                out[i + 1],
            ) by {
                if i < out.len() - 2 {
                    assert(out[i] == t[i] && out[i + 1] == t[i + 1]);
                } else {
                    assert(out[i] == t[t.len() - 1] && out[i + 1] == s[s.len() - 1]);
                }
            }
        }
    }
}

/// Stripping a pair-free sequence changes nothing.
proof fn lemma_strip_of_pair_free(s: Seq<char>)
    requires
        pair_free(s),
    ensures
        strip_spec(s) == s,
    decreases s.len(),
{
    if s.len() == 0 {
    } else {
        let t0 = s.drop_last();
        assert(pair_free(t0)) by {
            assert(forall|i: int| 0 <= i < t0.len() ==> t0[i] == s[i]);
        }
        lemma_strip_of_pair_free(t0);
        if t0.len() > 0 {
            assert(!is_placeholder_pair(t0[t0.len() - 1], s[s.len() - 1])) by {
                assert(t0[t0.len() - 1] == s[s.len() - 2]);
            }
        }
        assert(t0.push(s[s.len() - 1]) =~= s);
    }
}

proof fn lemma_trim_start_pair_free(s: Seq<char>)
    requires
        pair_free(s),
    ensures
        pair_free(trim_start_spec(s)),
    decreases s.len(),
{
    if s.len() > 0 && is_space_char(s[0]) {
        let t = s.drop_first();
        assert(pair_free(t)) by {
            assert(forall|i: int| 0 <= i < t.len() ==> t[i] == s[i + 1]);
        }
        lemma_trim_start_pair_free(t);
    }
}

proof fn lemma_trim_end_pair_free(s: Seq<char>)
    requires
        pair_free(s),
    ensures
        pair_free(trim_end_spec(s)),
    decreases s.len(),
{
    if s.len() > 0 && is_space_char(s[s.len() - 1]) {
        let t = s.drop_last();
        assert(pair_free(t)) by {
            assert(forall|i: int| 0 <= i < t.len() ==> t[i] == s[i]);
        }
        lemma_trim_end_pair_free(t);
    }
}

/// Trimming keeps a sequence pair-free: it only removes characters at the
/// ends and never joins two interior characters.
proof fn lemma_trim_pair_free(s: Seq<char>)
    requires
        pair_free(s),
    ensures
        pair_free(trim_spec(s)),
{
    lemma_trim_start_pair_free(s);
    lemma_trim_end_pair_free(trim_start_spec(s));
}

/// The sanitized form of a raw launch command: placeholders removed until
/// none remains, then surrounding whitespace trimmed.
pub open spec fn sanitize_spec(s: Seq<char>) -> Seq<char> {
    trim_spec(strip_spec(s))
}

/// `s` still holds one of the four placeholders.
pub open spec fn has_placeholder(s: Seq<char>) -> bool {
    contains_seq(s, "%f"@) || contains_seq(s, "%F"@) || contains_seq(s, "%u"@) || contains_seq(
        s,
        "%U"@,
    )
}

proof fn lemma_pair_free_no_placeholder(s: Seq<char>)
    requires
        pair_free(s),
    ensures
        !has_placeholder(s),
{
    reveal_strlit("%f");
    reveal_strlit("%F");
    reveal_strlit("%u");
    reveal_strlit("%U");
    if has_placeholder(s) {
        let pat = if contains_seq(s, "%f"@) {
            "%f"@
        } else if contains_seq(s, "%F"@) {
            "%F"@
        } else if contains_seq(s, "%u"@) {
            "%u"@
        } else {
            "%U"@
        };
        let i = choose|i: int| occurs_at(s, pat, i);
        assert(s.subrange(i, i + 2)[0] == s[i]);
        assert(s.subrange(i, i + 2)[1] == s[i + 1]);
        assert(is_placeholder_pair(s[i], s[i + 1]));
    }
}

proof fn lemma_no_placeholder_pair_free(s: Seq<char>)
    requires
        !has_placeholder(s),
    ensures
        pair_free(s),
{
    reveal_strlit("%f");
    reveal_strlit("%F");
    reveal_strlit("%u");
    reveal_strlit("%U");
    assert forall|i: int| 0 <= i < s.len() - 1 implies !is_placeholder_pair(
        #[trigger] s[i],
        s[i + 1],
    ) by {
        if is_placeholder_pair(s[i], s[i + 1]) {
            let pat = if s[i + 1] == 'f' {
                "%f"@
            } else if s[i + 1] == 'F' {
                "%F"@
            } else if s[i + 1] == 'u' {
                "%u"@
            } else {
                "%U"@
            };
            assert(s.subrange(i, i + 2) =~= pat);
            assert(occurs_at(s, pat, i));
        }
    }
}

/// Strips the placeholder tokens `%f`, `%F`, `%u`, `%U` from a raw launch
/// command until none remains, and trims surrounding whitespace. Never
/// fails.
pub fn sanitize_command(cmd: &str) -> (r: String)
    ensures
        r@ == sanitize_spec(cmd@),
{
    let slen = cmd.unicode_len();
    let mut out = String::new();
    let mut olen: usize = 0;
    let mut i: usize = 0;
    proof {
        assert(cmd@.take(0) =~= Seq::<char>::empty());
    }
    while i < slen
        invariant
            i <= slen,
            slen == cmd@.len(),
            olen == out@.len(),
            olen <= i,
            out@ == strip_spec(cmd@.take(i as int)),
        decreases slen - i,
    {
        let ghost t = strip_spec(cmd@.take(i as int));
        proof {
            assert(cmd@.take(i + 1).drop_last() =~= cmd@.take(i as int));
            assert(cmd@.take(i + 1)[i as int] == cmd@[i as int]);
        }
        let c = cmd.get_char(i);
        if olen > 0 && is_pair(out.as_str().get_char(olen - 1), c) {
            let shorter = out.as_str().substring_char(0, olen - 1).to_owned();
            proof {
                assert(shorter@ =~= t.drop_last());
            }
            out = shorter;
            olen -= 1;
        } else {
            let piece = cmd.substring_char(i, i + 1);
            proof {
                assert(piece@ =~= seq![cmd@[i as int]]);
                assert(out@ + piece@ =~= t.push(cmd@[i as int]));
            }
            out.append(piece);
            olen += 1;
        }
        i += 1;
    }
    proof {
        assert(cmd@.take(slen as int) =~= cmd@);
    }
    trim_str(out.as_str())
}

/// A command in sanitized form — no placeholder left, already trimmed — is
/// a fixed point of sanitization.
pub proof fn lemma_sanitize_fixed_point(s: Seq<char>)
    requires
        !has_placeholder(s),
        trim_spec(s) == s,
    ensures
        sanitize_spec(s) == s,
{
    lemma_no_placeholder_pair_free(s);
    lemma_strip_of_pair_free(s);
}

/// Sanitized commands hold no placeholder.
pub proof fn lemma_sanitize_no_placeholder(s: Seq<char>)
    ensures
        !has_placeholder(sanitize_spec(s)),
{
    lemma_strip_pair_free(s);
    lemma_trim_pair_free(strip_spec(s));
    lemma_pair_free_no_placeholder(sanitize_spec(s));
}

/// Sanitization is idempotent: re-sanitizing a sanitized command hands the
/// same string back.
pub proof fn lemma_sanitize_idempotent(s: Seq<char>)
    ensures
        sanitize_spec(sanitize_spec(s)) == sanitize_spec(s),
{
    let t = strip_spec(s);
    lemma_strip_pair_free(s);
    lemma_trim_pair_free(t);
    lemma_strip_of_pair_free(trim_spec(t));
    lemma_trim_idempotent(t);
}

} // verus!
