//! Verified text utilities over sequences of characters: substring search,
//! non-overlapping left-to-right replacement, and conversions between
//! `String` and `Vec<char>`.
//!
//! Replacement is specified by left-to-right scanning spec functions and the
//! executable functions are proved equal to them.

use vstd::prelude::*;
use vstd::string::StrSliceExecFns;

verus! {

// ---------------------------------------------------------------------------
// Specification: substring occurrence
// ---------------------------------------------------------------------------

/// The pattern `pat` occurs in `s` at position `i`.
pub open spec fn match_at(s: Seq<char>, pat: Seq<char>, i: int) -> bool {
    0 <= i && i + pat.len() <= s.len() && s.subrange(i, i + pat.len()) == pat
}

/// The pattern `pat` occurs somewhere in `s`.
pub open spec fn has_sub(s: Seq<char>, pat: Seq<char>) -> bool {
    exists|i: int| match_at(s, pat, i)
}

/// `p` is a prefix of `s`.
pub open spec fn is_prefix_of(p: Seq<char>, s: Seq<char>) -> bool {
    p.len() <= s.len() && s.subrange(0, p.len() as int) == p
}

/// `p` is a suffix of `s`.
pub open spec fn is_suffix_of(p: Seq<char>, s: Seq<char>) -> bool {
    p.len() <= s.len() && s.subrange(s.len() - p.len(), s.len() as int) == p
}

/// How often the character `c` occurs in `s`.
pub open spec fn count_char(s: Seq<char>, c: char) -> int
    decreases s.len(),
{
    if s.len() == 0 {
        0
    } else {
        (if s[0] == c {
            1int
        } else {
            0int
        }) + count_char(s.drop_first(), c)
    }
}

// ---------------------------------------------------------------------------
// Specification: replacement
// ---------------------------------------------------------------------------

/// The first occurrence of `pat` in `s` replaced by `rep`; `s` itself when
/// `pat` does not occur or is empty.  Scans left to right.
pub open spec fn replace_first(s: Seq<char>, pat: Seq<char>, rep: Seq<char>) -> Seq<char>
    decreases s.len(),
{
    if pat.len() == 0 || s.len() < pat.len() {
        s
    } else if s.subrange(0, pat.len() as int) == pat {
        rep + s.skip(pat.len() as int)
    } else {
        seq![s[0]] + replace_first(s.drop_first(), pat, rep)
    }
}

/// Every occurrence of `pat` in `s` replaced by `rep`, scanning left to
/// right without overlap; `s` itself when `pat` is empty.
pub open spec fn replace_all(s: Seq<char>, pat: Seq<char>, rep: Seq<char>) -> Seq<char>
    decreases s.len(),
{
    if pat.len() == 0 || s.len() < pat.len() {
        s
    } else if s.subrange(0, pat.len() as int) == pat {
        rep + replace_all(s.skip(pat.len() as int), pat, rep)
    } else {
        seq![s[0]] + replace_all(s.drop_first(), pat, rep)
    }
}

// ---------------------------------------------------------------------------
// Lemmas
// ---------------------------------------------------------------------------

/// Occurrences in the tail of `s` are occurrences in `s`, shifted by one.
pub proof fn lemma_match_shift(s: Seq<char>, pat: Seq<char>, i: int)
    requires
        s.len() > 0,
    ensures
        match_at(s.drop_first(), pat, i) == (0 <= i && match_at(s, pat, i + 1)),
{
    if 0 <= i && i + pat.len() <= s.drop_first().len() {
        assert(s.drop_first().subrange(i, i + pat.len()) =~= s.subrange(i + 1, i + 1 + pat.len()));
    }
}

/// A string without the pattern that is shortened in front still lacks it.
pub proof fn lemma_has_sub_tail(s: Seq<char>, pat: Seq<char>)
    requires
        s.len() > 0,
        !has_sub(s, pat),
    ensures
        !has_sub(s.drop_first(), pat),
{
    assert forall|i: int| !match_at(s.drop_first(), pat, i) by {
        lemma_match_shift(s, pat, i);
        assert(!match_at(s, pat, i + 1));
    }
}

/// Replacing the first occurrence of a pattern that does not occur changes
/// nothing.
pub proof fn lemma_replace_first_absent(s: Seq<char>, pat: Seq<char>, rep: Seq<char>)
    requires
        !has_sub(s, pat),
    ensures
        replace_first(s, pat, rep) == s,
    decreases s.len(),
{
    if pat.len() == 0 || s.len() < pat.len() {
    } else if s.subrange(0, pat.len() as int) == pat {
        assert(match_at(s, pat, 0));
    } else {
        lemma_has_sub_tail(s, pat);
        lemma_replace_first_absent(s.drop_first(), pat, rep);
        assert(seq![s[0]] + s.drop_first() =~= s);
    }
}

/// Replacing a pattern that does not occur changes nothing.
pub proof fn lemma_replace_all_absent(s: Seq<char>, pat: Seq<char>, rep: Seq<char>)
    requires
        !has_sub(s, pat),
    ensures
        replace_all(s, pat, rep) == s,
    decreases s.len(),
{
    if pat.len() == 0 || s.len() < pat.len() {
    } else if s.subrange(0, pat.len() as int) == pat {
        assert(match_at(s, pat, 0));
    } else {
        lemma_has_sub_tail(s, pat);
        lemma_replace_all_absent(s.drop_first(), pat, rep);
        assert(seq![s[0]] + s.drop_first() =~= s);
    }
}

/// Counting distributes over concatenation.
pub proof fn lemma_count_concat(a: Seq<char>, b: Seq<char>, c: char)
    ensures
        count_char(a + b, c) == count_char(a, c) + count_char(b, c),
    decreases a.len(),
{
    if a.len() == 0 {
        assert(a + b =~= b);
    } else {
        assert((a + b).drop_first() =~= a.drop_first() + b);
        assert((a + b)[0] == a[0]);
        lemma_count_concat(a.drop_first(), b, c);
    }
}

/// A string none of whose characters is `c` has count zero.
pub proof fn lemma_count_zero(s: Seq<char>, c: char)
    requires
        forall|i: int| 0 <= i < s.len() ==> s[i] != c,
    ensures
        count_char(s, c) == 0,
    decreases s.len(),
{
    if s.len() > 0 {
        lemma_count_zero(s.drop_first(), c);
    }
}

/// A count is never negative, and at least one when the head matches.
pub proof fn lemma_count_bounds(s: Seq<char>, c: char)
    ensures
        count_char(s, c) >= 0,
        s.len() > 0 && s[0] == c ==> count_char(s, c) >= 1,
    decreases s.len(),
{
    if s.len() > 0 {
        lemma_count_bounds(s.drop_first(), c);
    }
}

/// Replacing one occurrence of a pattern that contains `c` by a replacement
/// free of `c` strictly lowers the count of `c`.
pub proof fn lemma_replace_first_count(s: Seq<char>, pat: Seq<char>, rep: Seq<char>, c: char)
    requires
        pat.len() >= 1,
        count_char(pat, c) >= 1,
        count_char(rep, c) == 0,
        has_sub(s, pat),
    ensures
        count_char(replace_first(s, pat, rep), c) < count_char(s, c),
    decreases s.len(),
{
    if s.len() < pat.len() {
        let i = choose|i: int| match_at(s, pat, i);
        assert(false);
    } else if s.subrange(0, pat.len() as int) == pat {
        let head = s.subrange(0, pat.len() as int);
        let tail = s.skip(pat.len() as int);
        assert(s =~= head + tail);
        lemma_count_concat(head, tail, c);
        lemma_count_concat(rep, tail, c);
    } else {
        assert(!match_at(s, pat, 0));
        let i = choose|i: int| match_at(s, pat, i);
        assert(i >= 1);
        lemma_match_shift(s, pat, i - 1);
        assert(match_at(s.drop_first(), pat, i - 1));
        lemma_replace_first_count(s.drop_first(), pat, rep, c);
        assert(s =~= seq![s[0]] + s.drop_first());
        lemma_count_concat(seq![s[0]], s.drop_first(), c);
        lemma_count_concat(seq![s[0]], replace_first(s.drop_first(), pat, rep), c);
    }
}

// ---------------------------------------------------------------------------
// Executable functions
// ---------------------------------------------------------------------------

/// The characters of `s`, in order.
pub fn str_to_chars(s: &str) -> (r: Vec<char>)
    ensures
        r@ == s@,
{
    let n = s.unicode_len();
    let mut r: Vec<char> = Vec::new();
    let mut i: usize = 0;
    while i < n
        invariant
            n == s@.len(),
            i <= n,
            r@ == s@.take(i as int),
        decreases n - i,
    {
        let c = s.get_char(i);
        r.push(c);
        i = i + 1;
        proof {
            assert(s@.take(i as int) =~= s@.take(i - 1).push(s@[i - 1]));
        }
    }
    proof {
        assert(s@.take(n as int) =~= s@);
    }
    r
}

/// Relies on `String::push`: appends the character to the end of the string.
#[verifier::external_body]
fn push_char(s: &mut String, c: char)
    ensures
        final(s)@ == old(s)@.push(c),
{
    s.push(c);
}

/// A string holding exactly the given characters.
pub fn chars_to_string(v: &[char]) -> (r: String)
    ensures
        r@ == v@,
{
    let mut r = String::new();
    let mut i: usize = 0;
    while i < v.len()
        invariant
            i <= v@.len(),
            r@ == v@.take(i as int),
        decreases v@.len() - i,
    {
        push_char(&mut r, v[i]);
        i = i + 1;
        proof {
            assert(v@.take(i as int) =~= v@.take(i - 1).push(v@[i - 1]));
        }
    }
    proof {
        assert(v@.take(v@.len() as int) =~= v@);
    }
    r
}

/// Whether `pat` occurs in `s` at position `i`.
pub fn occurs_at(s: &[char], pat: &[char], i: usize) -> (r: bool)
    requires
        i + pat@.len() <= s@.len(),
    ensures
        r == match_at(s@, pat@, i as int),
{
    let slen = s.len();
    let plen = pat.len();
    let mut j: usize = 0;
    while j < plen
        invariant
            j <= plen,
            plen == pat@.len(),
            slen == s@.len(),
            i + plen <= slen,
            forall|k: int| 0 <= k < j ==> s@[i + k] == pat@[k],
        decreases plen - j,
    {
        if s[i + j] != pat[j] {
            proof {
                if match_at(s@, pat@, i as int) {
                    assert(s@.subrange(i as int, i + pat@.len())[j as int] == s@[i + j]);
                }
            }
            return false;
        }
        j = j + 1;
    }
    proof {
        assert(s@.subrange(i as int, i + pat@.len()) =~= pat@);
    }
    true
}

/// Whether `pat` occurs anywhere in `s`.
pub fn contains_sub(s: &[char], pat: &[char]) -> (r: bool)
    ensures
        r == has_sub(s@, pat@),
{
    if pat.len() == 0 {
        proof {
            assert(s@.subrange(0, 0) =~= pat@);
            assert(match_at(s@, pat@, 0));
        }
        return true;
    }
    if pat.len() > s.len() {
        proof {
            assert forall|i: int| !match_at(s@, pat@, i) by {}
        }
        return false;
    }
    let slen = s.len();
    let plen = pat.len();
    let end = slen - plen;
    let mut i: usize = 0;
    while i <= end
        invariant
            slen == s@.len(),
            plen == pat@.len(),
            1 <= plen <= slen,
            end == slen - plen,
            i <= end + 1,
            forall|k: int| 0 <= k < i ==> !match_at(s@, pat@, k),
        decreases end + 1 - i,
    {
        if occurs_at(s, pat, i) {
            return true;
        }
        i = i + 1;
    }
    proof {
        assert forall|k: int| !match_at(s@, pat@, k) by {
            if k > end {
                assert(!(k + pat@.len() <= s@.len()));
            }
        }
    }
    false
}

/// Whether `s` ends with `pat`.
pub fn ends_with_sub(s: &[char], pat: &[char]) -> (r: bool)
    ensures
        r == is_suffix_of(pat@, s@),
{
    if pat.len() > s.len() {
        return false;
    }
    occurs_at(s, pat, s.len() - pat.len())
}

/// Every occurrence of `pat` in `s` replaced by `rep`.
pub fn replace_all_chars(s: &[char], pat: &[char], rep: &[char]) -> (r: Vec<char>)
    requires
        pat@.len() >= 1,
    ensures
        r@ == replace_all(s@, pat@, rep@),
{
    let mut out: Vec<char> = Vec::new();
    let mut i: usize = 0;
    proof {
        assert(s@.skip(0) =~= s@);
        assert(out@ + replace_all(s@, pat@, rep@) =~= replace_all(s@, pat@, rep@));
    }
    while i < s.len()
        invariant
            i <= s@.len(),
            pat@.len() >= 1,
            replace_all(s@, pat@, rep@) == out@ + replace_all(s@.skip(i as int), pat@, rep@),
        decreases s@.len() - i,
    {
        let ghost pre = s@.skip(i as int);
        let ghost out_before = out@;
        if pat.len() <= s.len() - i && occurs_at(s, pat, i) {
            let mut j: usize = 0;
            while j < rep.len()
                invariant
                    j <= rep@.len(),
                    out@ == out_before + rep@.take(j as int),
                decreases rep@.len() - j,
            {
                out.push(rep[j]);
                j = j + 1;
                proof {
                    assert(rep@.take(j as int) =~= rep@.take(j - 1).push(rep@[j - 1]));
                }
            }
            proof {
                assert(out@ =~= out_before + rep@);
            }
            i = i + pat.len();
            proof {
                assert(pre.subrange(0, pat@.len() as int) =~= s@.subrange(
                    i - pat@.len(),
                    i as int,
                ));
                assert(pre.skip(pat@.len() as int) =~= s@.skip(i as int));
                assert(out_before + (rep@ + replace_all(s@.skip(i as int), pat@, rep@)) =~= out@
                    + replace_all(s@.skip(i as int), pat@, rep@));
            }
        } else {
            out.push(s[i]);
            i = i + 1;
            proof {
                if pre.len() >= pat@.len() {
                    assert(pre.subrange(0, pat@.len() as int) =~= s@.subrange(
                        i - 1,
                        i - 1 + pat@.len(),
                    ));
                }
                assert(pre.drop_first() =~= s@.skip(i as int));
                assert(out_before + (seq![pre[0]] + replace_all(s@.skip(i as int), pat@, rep@))
                    =~= out@ + replace_all(s@.skip(i as int), pat@, rep@));
            }
        }
    }
    proof {
        assert(s@.skip(s@.len() as int) =~= Seq::<char>::empty());
        assert(out@ + Seq::<char>::empty() =~= out@);
    }
    out
}

/// The first occurrence of `pat` in `s` replaced by `rep`.
pub fn replace_first_chars(s: &[char], pat: &[char], rep: &[char]) -> (r: Vec<char>)
    requires
        pat@.len() >= 1,
    ensures
        r@ == replace_first(s@, pat@, rep@),
{
    let mut out: Vec<char> = Vec::new();
    let mut i: usize = 0;
    let mut done = false;
    proof {
        assert(s@.skip(0) =~= s@);
        assert(out@ + replace_first(s@, pat@, rep@) =~= replace_first(s@, pat@, rep@));
    }
    while i < s.len()
        invariant
            i <= s@.len(),
            pat@.len() >= 1,
            !done ==> replace_first(s@, pat@, rep@) == out@ + replace_first(
                s@.skip(i as int),
                pat@,
                rep@,
            ),
            done ==> replace_first(s@, pat@, rep@) == out@ + s@.skip(i as int),
        decreases s@.len() - i,
    {
        let ghost pre = s@.skip(i as int);
        let ghost out_before = out@;
        if !done && pat.len() <= s.len() - i && occurs_at(s, pat, i) {
            let mut j: usize = 0;
            while j < rep.len()
                invariant
                    j <= rep@.len(),
                    out@ == out_before + rep@.take(j as int),
                decreases rep@.len() - j,
            {
                out.push(rep[j]);
                j = j + 1;
                proof {
                    assert(rep@.take(j as int) =~= rep@.take(j - 1).push(rep@[j - 1]));
                }
            }
            proof {
                assert(out@ =~= out_before + rep@);
            }
            i = i + pat.len();
            done = true;
            proof {
                assert(pre.subrange(0, pat@.len() as int) =~= s@.subrange(
                    i - pat@.len(),
                    i as int,
                ));
                assert(pre.skip(pat@.len() as int) =~= s@.skip(i as int));
                assert(out_before + (rep@ + s@.skip(i as int)) =~= out@ + s@.skip(i as int));
            }
        } else if !done {
            out.push(s[i]);
            i = i + 1;
            proof {
                if pre.len() >= pat@.len() {
                    assert(pre.subrange(0, pat@.len() as int) =~= s@.subrange(
                        i - 1,
                        i - 1 + pat@.len(),
                    ));
                }
                assert(pre.drop_first() =~= s@.skip(i as int));
                assert(out_before + (seq![pre[0]] + replace_first(s@.skip(i as int), pat@, rep@))
                    =~= out@ + replace_first(s@.skip(i as int), pat@, rep@));
            }
        } else {
            out.push(s[i]);
            i = i + 1;
            proof {
                assert(pre.drop_first() =~= s@.skip(i as int));
                assert(out_before + pre =~= out@ + s@.skip(i as int));
            }
        }
    }
    proof {
        assert(s@.skip(s@.len() as int) =~= Seq::<char>::empty());
        assert(out@ + Seq::<char>::empty() =~= out@);
    }
    out
}

} // verus!
