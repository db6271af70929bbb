//! General helpers shared across the runtime: membership and prefix tests,
//! defaulting, metadata merging for bulk publishing, filtering, and service
//! address parsing.

use vstd::prelude::*;
use vstd::slice::slice_index_get;
use vstd::slice::slice_subrange;
use vstd::slice::slice_to_vec;
use vstd::std_specs::cmp::PartialEqSpec;

use crate::text::chars_to_string;
use crate::text::is_prefix_of;
use crate::text::occurs_at;
use crate::text::str_to_chars;

verus! {

/// Reports whether `v` is present in `s`.
pub fn contains<T: PartialEq>(s: &[T], v: &T) -> (r: bool)
    ensures
        T::obeys_eq_spec() ==> r == (exists|i: int|
            0 <= i < s@.len() && (#[trigger] s@[i].eq_spec(v))),
{
    let n = s.len();
    let mut i: usize = 0;
    while i < n
        invariant
            n == s@.len(),
            i <= n,
            T::obeys_eq_spec() ==> forall|k: int| 0 <= k < i ==> !(#[trigger] s@[k].eq_spec(v)),
        decreases n - i,
    {
        let e = slice_index_get(s, i);
        if *e == *v {
            return true;
        }
        i = i + 1;
    }
    false
}

/// Reports whether `v` starts with any of the strings in `prefixes`.
pub fn contains_prefixed(prefixes: &[String], v: &str) -> (r: bool)
    ensures
        r == (exists|i: int|
            0 <= i < prefixes@.len() && is_prefix_of(#[trigger] prefixes@[i]@, v@)),
{
    let vc = str_to_chars(v);
    let n = prefixes.len();
    let mut i: usize = 0;
    while i < n
        invariant
            n == prefixes@.len(),
            i <= n,
            vc@ == v@,
            forall|k: int| 0 <= k < i ==> !is_prefix_of(#[trigger] prefixes@[k]@, v@),
        decreases n - i,
    {
        let pc = str_to_chars(slice_index_get(prefixes, i).as_str());
        if pc.len() <= vc.len() && occurs_at(vc.as_slice(), pc.as_slice(), 0) {
            proof {
                assert(is_prefix_of(prefixes@[i as int]@, v@));
            }
            return true;
        }
        i = i + 1;
    }
    false
}

/// Returns `val` if it is greater than zero, and the default otherwise.
pub fn get_int_val_or_default(val: i32, default_value: i32) -> (r: i32)
    ensures
        r == if val > 0 {
            val
        } else {
            default_value
        },
{
    if val > 0 {
        val
    } else {
        default_value
    }
}

/// A property list has an entry under the key.
pub open spec fn list_has_key(m: Seq<(Seq<char>, Seq<char>)>, k: Seq<char>) -> bool {
    exists|i: int| 0 <= i < m.len() && m[i].0 == k
}

/// The pairs whose key is absent from the property list `entries`.
pub open spec fn key_absent_in(entries: Seq<(Seq<char>, Seq<char>)>) -> spec_fn(
    (Seq<char>, Seq<char>),
) -> bool {
    |p: (Seq<char>, Seq<char>)| !list_has_key(entries, p.0)
}

/// Merges request-level metadata into entry-level metadata for one bulk
/// publish entry: the entry's own pairs are kept, and a request pair is
/// appended only when its key is not already present in the entry.
pub fn populate_metadata_for_bulk_publish_entry(
    req_meta: &Vec<(String, String)>,
    entry_meta: &Vec<(String, String)>,
) -> (r: Vec<(String, String)>)
    ensures
        r.deep_view() == entry_meta.deep_view() + req_meta.deep_view().filter(
            key_absent_in(entry_meta.deep_view()),
        ),
{
    let ghost pred = key_absent_in(entry_meta.deep_view());
    let mut r: Vec<(String, String)> = Vec::new();
    let mut i: usize = 0;
    let n = entry_meta.len();
    while i < n
        invariant
            n == entry_meta@.len(),
            i <= n,
            r@.len() == i,
            forall|k: int|
                0 <= k < i ==> (#[trigger] r@[k]).0@ == entry_meta@[k].0@ && r@[k].1@
                    == entry_meta@[k].1@,
        decreases n - i,
    {
        let p = slice_index_get(entry_meta.as_slice(), i);
        r.push((p.0.clone(), p.1.clone()));
        i = i + 1;
    }
    let ghost entry_part = r.deep_view();
    proof {
        assert(entry_part =~~= entry_meta.deep_view());
        reveal(Seq::filter);
        assert(req_meta.deep_view().take(0) =~~= Seq::<(Seq<char>, Seq<char>)>::empty());
        assert(req_meta.deep_view().take(0).filter(pred).len() == 0);
        assert(r.deep_view() =~~= entry_meta.deep_view() + req_meta.deep_view().take(0).filter(
            pred,
        ));
    }
    let mut j: usize = 0;
    let m = req_meta.len();
    while j < m
        invariant
            m == req_meta@.len(),
            n == entry_meta@.len(),
            j <= m,
            pred == key_absent_in(entry_meta.deep_view()),
            r.deep_view() == entry_meta.deep_view() + req_meta.deep_view().take(j as int).filter(
                pred,
            ),
        decreases m - j,
    {
        let p = slice_index_get(req_meta.as_slice(), j);
        let mut present = false;
        let mut k: usize = 0;
        while k < n
            invariant
                n == entry_meta@.len(),
                m == req_meta@.len(),
                j < m,
                k <= n,
                *p == req_meta@[j as int],
                present ==> list_has_key(entry_meta.deep_view(), req_meta.deep_view()[j as int].0),
                !present ==> forall|t: int|
                    0 <= t < k ==> (#[trigger] entry_meta.deep_view()[t]).0
                        != req_meta.deep_view()[j as int].0,
            decreases n - k,
        {
            if slice_index_get(entry_meta.as_slice(), k).0 == p.0 {
                present = true;
                proof {
                    assert(entry_meta.deep_view()[k as int].0 == req_meta.deep_view()[j as int].0);
                }
            }
            k = k + 1;
        }
        let ghost r_before = r.deep_view();
        if !present {
            r.push((p.0.clone(), p.1.clone()));
        }
        j = j + 1;
        proof {
            reveal(Seq::filter);
            let prev = req_meta.deep_view().take(j - 1);
            let cur = req_meta.deep_view().take(j as int);
            assert(cur.drop_last() =~~= prev);
            assert(cur.last() == req_meta.deep_view()[j - 1]);
            if !present {
                assert(pred(req_meta.deep_view()[j - 1]));
                assert(cur.filter(pred) == prev.filter(pred).push(req_meta.deep_view()[j - 1]));
                assert(r.deep_view() =~~= r_before.push(req_meta.deep_view()[j - 1]));
                assert(r.deep_view() =~~= entry_meta.deep_view() + cur.filter(pred));
            } else {
                assert(!pred(req_meta.deep_view()[j - 1]));
                assert(cur.filter(pred) == prev.filter(pred));
                assert(r.deep_view() =~~= entry_meta.deep_view() + cur.filter(pred));
            }
        }
    }
    proof {
        assert(req_meta.deep_view().take(m as int) =~~= req_meta.deep_view());
    }
    r
}

/// The subsequence of `s` selected by a boolean mask of the same length.
pub open spec fn masked<T>(s: Seq<T>, keep: Seq<bool>) -> Seq<T>
    decreases s.len(),
{
    if s.len() == 0 {
        Seq::empty()
    } else {
        let rest = masked(s.drop_last(), keep.drop_last());
        if keep.len() == s.len() && keep.last() {
            rest.push(s.last())
        } else {
            rest
        }
    }
}

/// Returns a new vector holding clones of the items that satisfy the test,
/// in their original order: some mask records each item's test outcome, and
/// the result is the masked subsequence, item by item a clone.
pub fn filter<T: Clone, F: Fn(&T) -> bool>(items: &[T], test: F) -> (r: Vec<T>)
    requires
        forall|i: int| 0 <= i < items@.len() ==> call_requires(test, (&items@[i],)),
    ensures
        exists|keep: Seq<bool>|
            {
                &&& keep.len() == items@.len()
                &&& forall|i: int|
                    0 <= i < items@.len() ==> call_ensures(test, (&items@[i],), keep[i])
                &&& r@.len() == masked(items@, keep).len()
                &&& forall|j: int|
                    0 <= j < r@.len() ==> cloned::<T>(masked(items@, keep)[j], #[trigger] r@[j])
            },
{
    let n = items.len();
    let mut r: Vec<T> = Vec::new();
    let ghost mut keep: Seq<bool> = Seq::empty();
    let mut i: usize = 0;
    while i < n
        invariant
            n == items@.len(),
            i <= n,
            keep.len() == i,
            forall|t: int| 0 <= t < items@.len() ==> call_requires(test, (&items@[t],)),
            forall|t: int| 0 <= t < i ==> call_ensures(test, (&items@[t],), keep[t]),
            r@.len() == masked(items@.take(i as int), keep).len(),
            forall|j: int|
                0 <= j < r@.len() ==> cloned::<T>(
                    masked(items@.take(i as int), keep)[j],
                    #[trigger] r@[j],
                ),
        decreases n - i,
    {
        let item = slice_index_get(items, i);
        let ghost keep_before = keep;
        if test(item) {
            r.push(item.clone());
            proof {
                keep = keep.push(true);
            }
        } else {
            proof {
                keep = keep.push(false);
            }
        }
        i = i + 1;
        proof {
            let s = items@.take(i as int);
            assert(s.drop_last() =~= items@.take(i - 1));
            assert(keep.drop_last() =~= keep_before);
            assert(s.last() == items@[i - 1]);
            assert(masked(s, keep) == if keep.last() {
                masked(items@.take(i - 1), keep_before).push(items@[i - 1])
            } else {
                masked(items@.take(i - 1), keep_before)
            });
        }
    }
    proof {
        assert(items@.take(n as int) =~= items@);
    }
    r
}

/// The keys of a property list, in order; item by item a clone.
pub fn map_to_slice<T: Clone, V>(m: &[(T, V)]) -> (r: Vec<T>)
    ensures
        r@.len() == m@.len(),
        forall|i: int| 0 <= i < m@.len() ==> cloned::<T>(m@[i].0, #[trigger] r@[i]),
{
    let n = m.len();
    let mut r: Vec<T> = Vec::new();
    let mut i: usize = 0;
    while i < n
        invariant
            n == m@.len(),
            i <= n,
            r@.len() == i,
            forall|k: int| 0 <= k < i ==> cloned::<T>(m@[k].0, #[trigger] r@[k]),
        decreases n - i,
    {
        r.push(slice_index_get(m, i).0.clone());
        i = i + 1;
    }
    r
}

/// The text of a component's name for logging: the name followed by the
/// component type in parentheses, with the version after a slash when one
/// is given.
pub open spec fn log_name_text(name: Seq<char>, cmpt_type: Seq<char>, version: Seq<char>) -> Seq<
    char,
> {
    if version.len() == 0 {
        name + " ("@ + cmpt_type + ")"@
    } else {
        name + " ("@ + cmpt_type + "/"@ + version + ")"@
    }
}

/// Returns the name of a component for use in logging.
pub fn component_log_name(name: &str, component_type: &str, version: &str) -> (r: String)
    ensures
        r@ == log_name_text(name@, component_type@, version@),
{
    let mut r = name.to_owned();
    r.append(" (");
    r.append(component_type);
    if !version.is_empty() {
        r.append("/");
        r.append(version);
    }
    r.append(")");
    r
}

// ---------------------------------------------------------------------------
// Service address parsing
// ---------------------------------------------------------------------------

/// A character with the Unicode White_Space property: exactly the
/// characters that `str::trim` removes from the ends of a string.
pub open spec fn is_space(c: char) -> bool {
    let u = c as u32;
    u == 0x20 || (0x09 <= u && u <= 0x0D) || u == 0x85 || u == 0xA0 || u == 0x1680 || (0x2000 <= u
        && u <= 0x200A) || u == 0x2028 || u == 0x2029 || u == 0x202F || u == 0x205F || u == 0x3000
}

/// The text with the spaces at both ends removed.
pub open spec fn trim_text(s: Seq<char>) -> Seq<char>
    decreases s.len(),
{
    if s.len() == 0 {
        s
    } else if is_space(s[0]) {
        trim_text(s.drop_first())
    } else if is_space(s.last()) {
        trim_text(s.drop_last())
    } else {
        s
    }
}

/// The fields of the text, split on commas; always at least one field.
pub open spec fn split_commas(s: Seq<char>) -> Seq<Seq<char>>
    decreases s.len(),
{
    if s.len() == 0 {
        seq![Seq::empty()]
    } else if s[0] == ',' {
        seq![Seq::<char>::empty()] + split_commas(s.drop_first())
    } else {
        let rest = split_commas(s.drop_first());
        seq![seq![s[0]] + rest[0]] + rest.drop_first()
    }
}

/// Splitting never yields an empty field list.
proof fn lemma_split_commas_len(s: Seq<char>)
    ensures
        split_commas(s).len() >= 1,
    decreases s.len(),
{
    if s.len() > 0 {
        lemma_split_commas_len(s.drop_first());
    }
}

/// A comma-free text is one single field.
proof fn lemma_split_no_comma(s: Seq<char>)
    requires
        forall|j: int| 0 <= j < s.len() ==> s[j] != ',',
    ensures
        split_commas(s) == seq![s],
    decreases s.len(),
{
    if s.len() > 0 {
        lemma_split_no_comma(s.drop_first());
        let rest = split_commas(s.drop_first());
        assert(s[0] != ',');
        assert(split_commas(s) == seq![seq![s[0]] + rest[0]] + rest.drop_first());
        assert(rest == seq![s.drop_first()]);
        assert(rest.drop_first() =~~= Seq::<Seq<char>>::empty());
        assert(seq![s[0]] + rest[0] =~= s);
        assert(seq![seq![s[0]] + rest[0]] + rest.drop_first() =~~= seq![s]);
    } else {
        assert(s =~= Seq::<char>::empty());
    }
}

/// Splitting at the first comma separates the head field from the rest.
proof fn lemma_split_at_comma(s: Seq<char>, k: int)
    requires
        0 <= k < s.len(),
        s[k] == ',',
        forall|j: int| 0 <= j < k ==> s[j] != ',',
    ensures
        split_commas(s) == seq![s.subrange(0, k)] + split_commas(s.skip(k + 1)),
    decreases k,
{
    if k == 0 {
        assert(s.subrange(0, 0) =~= Seq::<char>::empty());
        assert(s.drop_first() =~= s.skip(1));
    } else {
        lemma_split_at_comma(s.drop_first(), k - 1);
        lemma_split_commas_len(s.drop_first().skip(k as int));
        assert(s.drop_first().subrange(0, k - 1) =~= s.subrange(1, k));
        assert(s.drop_first().skip(k as int) =~= s.skip(k + 1));
        let rest = split_commas(s.drop_first());
        assert(rest[0] == s.subrange(1, k));
        assert(seq![s[0]] + s.subrange(1, k) =~= s.subrange(0, k));
        assert(rest.drop_first() =~~= split_commas(s.skip(k + 1)));
        assert(split_commas(s) =~~= seq![s.subrange(0, k)] + split_commas(s.skip(k + 1)));
    }
}

/// `trim_text` of the range `[a, b)` of `s`, when everything outside it is
/// space and its ends are not.
proof fn lemma_trim_range(s: Seq<char>, a: int, b: int)
    requires
        0 <= a <= b <= s.len(),
        forall|k: int| 0 <= k < a ==> is_space(s[k]),
        forall|k: int| b <= k < s.len() ==> is_space(s[k]),
        a < b ==> !is_space(s[a]) && !is_space(s[b - 1]),
    ensures
        trim_text(s) == s.subrange(a, b),
    decreases s.len(),
{
    if s.len() == 0 {
        assert(s.subrange(0, 0) =~= s);
    } else if is_space(s[0]) {
        assert(a > 0 || a == b) by {
            if a == 0 && b > 0 {
                assert(!is_space(s[0]));
            }
        }
        if a == 0 {
            lemma_trim_range(s.drop_first(), 0, 0);
            assert(s.drop_first().subrange(0, 0) =~= s.subrange(0, 0));
        } else {
            lemma_trim_range(s.drop_first(), a - 1, b - 1);
            assert(s.drop_first().subrange(a - 1, b - 1) =~= s.subrange(a, b));
        }
    } else if is_space(s.last()) {
        assert(a == 0);
        assert(b < s.len());
        lemma_trim_range(s.drop_last(), a, b);
        assert(s.drop_last().subrange(a, b) =~= s.subrange(a, b));
    } else {
        assert(a == 0);
        assert(b == s.len());
        assert(s.subrange(0, s.len() as int) =~= s);
    }
}

/// Whether the character is trimmed from address fields.
fn is_space_char(c: char) -> (r: bool)
    ensures
        r == is_space(c),
{
    let u = c as u32;
    u == 0x20 || (0x09 <= u && u <= 0x0D) || u == 0x85 || u == 0xA0 || u == 0x1680 || (0x2000 <= u
        && u <= 0x200A) || u == 0x2028 || u == 0x2029 || u == 0x202F || u == 0x205F || u == 0x3000
}

/// The characters of `s` with the spaces at both ends removed.
fn trim_chars(s: &[char]) -> (r: Vec<char>)
    ensures
        r@ == trim_text(s@),
{
    let n = s.len();
    let mut a: usize = 0;
    while a < n && is_space_char(s[a])
        invariant
            n == s@.len(),
            a <= n,
            forall|k: int| 0 <= k < a ==> is_space(s@[k]),
        decreases n - a,
    {
        a = a + 1;
    }
    let mut b = n;
    while b > a && is_space_char(s[b - 1])
        invariant
            n == s@.len(),
            a <= b <= n,
            forall|k: int| 0 <= k < a ==> is_space(s@[k]),
            forall|k: int| b <= k < n ==> is_space(s@[k]),
        decreases b,
    {
        b = b - 1;
    }
    proof {
        lemma_trim_range(s@, a as int, b as int);
    }
    slice_to_vec(slice_subrange(s, a, b))
}

/// Splits a comma-separated service address list into its fields, each with
/// surrounding spaces removed.
pub fn parse_service_addr(val: &str) -> (r: Vec<String>)
    ensures
        r.deep_view() == split_commas(val@).map_values(|f: Seq<char>| trim_text(f)),
{
    let chars = str_to_chars(val);
    let n = chars.len();
    let mut r: Vec<String> = Vec::new();
    let ghost mut fields_done: Seq<Seq<char>> = Seq::empty();
    let mut start: usize = 0;
    let mut i: usize = 0;
    proof {
        assert(val@.skip(0) =~= val@);
        assert(fields_done + split_commas(val@) =~~= split_commas(val@));
    }
    while i < n
        invariant
            n == chars@.len(),
            chars@ == val@,
            start <= i <= n,
            forall|j: int| start <= j < i ==> chars@[j] != ',',
            split_commas(val@) == fields_done + split_commas(val@.skip(start as int)),
            r@.len() == fields_done.len(),
            forall|k: int| 0 <= k < r@.len() ==> (#[trigger] r@[k])@ == trim_text(fields_done[k]),
        decreases n - i,
    {
        if chars[i] == ',' {
            let field = trim_chars(slice_subrange(chars.as_slice(), start, i));
            r.push(chars_to_string(field.as_slice()));
            proof {
                let rem = val@.skip(start as int);
                lemma_split_at_comma(rem, i - start);
                assert(rem.subrange(0, i - start) =~= val@.subrange(start as int, i as int));
                assert(rem.skip(i - start + 1) =~= val@.skip(i + 1));
                fields_done = fields_done.push(val@.subrange(start as int, i as int));
                assert(fields_done + split_commas(val@.skip(i + 1)) =~~= split_commas(val@));
            }
            start = i + 1;
        }
        i = i + 1;
    }
    let field = trim_chars(slice_subrange(chars.as_slice(), start, n));
    r.push(chars_to_string(field.as_slice()));
    proof {
        let rem = val@.skip(start as int);
        lemma_split_no_comma(rem);
        assert(rem =~= val@.subrange(start as int, n as int));
        fields_done = fields_done.push(rem);
        assert(fields_done =~~= split_commas(val@));
        assert(r.deep_view() =~~= split_commas(val@).map_values(|f: Seq<char>| trim_text(f)));
    }
    r
}

} // verus!
