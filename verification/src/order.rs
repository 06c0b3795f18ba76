//! The order of strings (by code points, as `String`'s `Ord` compares them)
//! and sorting of lists of strings.
use vstd::prelude::*;
use crate::keys::strings_view;
use vstd::multiset::Multiset;
use crate::text::chars_of;

verus! {

/// `a <= b` in the lexicographic order of code points, comparing from index `i`.
pub open spec fn str_le_at(a: Seq<char>, b: Seq<char>, i: int) -> bool
    decreases a.len() - i,
{
    if i < 0 || i >= a.len() {
        true
    } else if i >= b.len() {
        false
    } else if a[i] != b[i] {
        (a[i] as int) < (b[i] as int)
    } else {
        str_le_at(a, b, i + 1)
    }
}

/// `a <= b` in the lexicographic order of code points.
pub open spec fn str_le(a: Seq<char>, b: Seq<char>) -> bool {
    str_le_at(a, b, 0)
}

/// Whether `s` is in ascending order.
pub open spec fn sorted(s: Seq<Seq<char>>) -> bool {
    forall|i: int, j: int| 0 <= i < j < s.len() ==> str_le(#[trigger] s[i], #[trigger] s[j])
}

/// `s` (assumed sorted) with `x` inserted before its first element not below `x`.
pub open spec fn insert_sorted(s: Seq<Seq<char>>, x: Seq<char>) -> Seq<Seq<char>>
    decreases s.len(),
{
    if s.len() == 0 {
        seq![x]
    } else if str_le(x, s[0]) {
        seq![x] + s
    } else {
        seq![s[0]] + insert_sorted(s.drop_first(), x)
    }
}

/// `keys` sorted, equal strings kept in the order they come.
pub open spec fn sort_strings(keys: Seq<Seq<char>>) -> Seq<Seq<char>>
    decreases keys.len(),
{
    if keys.len() == 0 {
        Seq::empty()
    } else {
        insert_sorted(sort_strings(keys.drop_last()), keys.last())
    }
}

pub proof fn lemma_str_le_total(a: Seq<char>, b: Seq<char>, i: int)
    requires
        0 <= i,
    ensures
        str_le_at(a, b, i) || str_le_at(b, a, i),
    decreases a.len() - i,
{
    if i < a.len() && i < b.len() {
        if a[i] == b[i] {
            lemma_str_le_total(a, b, i + 1);
        } else {
            assert((a[i] as int) != (b[i] as int));
        }
    }
}

pub proof fn lemma_str_le_trans(a: Seq<char>, b: Seq<char>, c: Seq<char>, i: int)
    requires
        0 <= i,
        str_le_at(a, b, i),
        str_le_at(b, c, i),
    ensures
        str_le_at(a, c, i),
    decreases a.len() - i,
{
    if i < a.len() && i < b.len() && i < c.len() && a[i] == b[i] && b[i] == c[i] {
        lemma_str_le_trans(a, b, c, i + 1);
    }
}

pub proof fn lemma_str_le_antisym(a: Seq<char>, b: Seq<char>, i: int)
    requires
        0 <= i <= a.len(),
        i <= b.len(),
        a.subrange(0, i) == b.subrange(0, i),
        str_le_at(a, b, i),
        str_le_at(b, a, i),
    ensures
        a == b,
    decreases a.len() - i,
{
    if i < a.len() {
        assert(a.subrange(0, i + 1) =~= a.subrange(0, i).push(a[i]));
        assert(b.subrange(0, i + 1) =~= b.subrange(0, i).push(b[i]));
        lemma_str_le_antisym(a, b, i + 1);
    } else {
        assert(a =~= a.subrange(0, i));
        assert(b =~= b.subrange(0, i));
    }
}

/// Inserting into a sorted list keeps it sorted and adds exactly `x`.
pub proof fn lemma_insert_sorted(s: Seq<Seq<char>>, x: Seq<char>)
    requires
        sorted(s),
    ensures
        sorted(insert_sorted(s, x)),
        insert_sorted(s, x).to_multiset() == s.to_multiset().insert(x),
        insert_sorted(s, x).len() == s.len() + 1,
    decreases s.len(),
{
    broadcast use vstd::seq_lib::group_to_multiset_ensures;

    if s.len() == 0 {
        assert(seq![x].to_multiset() =~= Multiset::<Seq<char>>::empty().insert(x)) by {
            assert(seq![x] == Seq::<Seq<char>>::empty().push(x));
        }
    } else if str_le(x, s[0]) {
        let r = seq![x] + s;
        assert forall|i: int, j: int| 0 <= i < j < r.len() implies str_le(
            #[trigger] r[i],
            #[trigger] r[j],
        ) by {
            if i == 0 {
                if j > 1 {
                    lemma_str_le_trans(x, s[0], s[j - 1], 0);
                }
            } else {
                assert(r[i] == s[i - 1] && r[j] == s[j - 1]);
            }
        }
        assert(r =~= s.insert(0, x));
        s.to_multiset_ensures();
    } else {
        let t = s.drop_first();
        assert(sorted(t)) by {
            assert forall|i: int, j: int| 0 <= i < j < t.len() implies str_le(
                #[trigger] t[i],
                #[trigger] t[j],
            ) by {
                assert(t[i] == s[i + 1] && t[j] == s[j + 1]);
            }
        }
        lemma_insert_sorted(t, x);
        let it = insert_sorted(t, x);
        let r = seq![s[0]] + it;
        lemma_str_le_total(x, s[0], 0);
        // every element of `it` is `x` or an element of `t`, so none is below s[0]
        assert forall|k: int| 0 <= k < it.len() implies str_le(s[0], #[trigger] it[k]) by {
            assert(it.to_multiset().count(it[k]) > 0);
            if it[k] != x {
                assert(t.to_multiset().count(it[k]) > 0);
                assert(t.contains(it[k]));
                let m = choose|m: int| 0 <= m < t.len() && t[m] == it[k];
                assert(s[m + 1] == t[m]);
            }
        }
        assert forall|i: int, j: int| 0 <= i < j < r.len() implies str_le(
            #[trigger] r[i],
            #[trigger] r[j],
        ) by {
            if i == 0 {
                assert(r[j] == it[j - 1]);
            } else {
                assert(r[i] == it[i - 1] && r[j] == it[j - 1]);
            }
        }
        assert(s =~= seq![s[0]] + t);
        assert((seq![s[0]] + t).to_multiset() =~= t.to_multiset().insert(s[0])) by {
            assert(seq![s[0]] + t =~= t.insert(0, s[0]));
            t.to_multiset_ensures();
        }
        assert(r.to_multiset() =~= it.to_multiset().insert(s[0])) by {
            assert(r =~= it.insert(0, s[0]));
            it.to_multiset_ensures();
        }
    }
}

/// `sort_strings` orders its argument: the result is sorted and holds the
/// same strings, as often.
pub proof fn lemma_sort_strings(keys: Seq<Seq<char>>)
    ensures
        sorted(sort_strings(keys)),
        sort_strings(keys).to_multiset() == keys.to_multiset(),
        sort_strings(keys).len() == keys.len(),
    decreases keys.len(),
{
    broadcast use vstd::seq_lib::group_to_multiset_ensures;

    if keys.len() > 0 {
        lemma_sort_strings(keys.drop_last());
        lemma_insert_sorted(sort_strings(keys.drop_last()), keys.last());
        assert(keys =~= keys.drop_last().push(keys.last()));
    } else {
        assert(keys.to_multiset() =~= Multiset::<Seq<char>>::empty());
    }
}

/// `insert_sorted` puts `x` at the first position whose element is not below it.
proof fn lemma_insert_sorted_at(s: Seq<Seq<char>>, x: Seq<char>, j: int)
    requires
        0 <= j <= s.len(),
        forall|k: int| 0 <= k < j ==> !str_le(x, #[trigger] s[k]),
        j < s.len() ==> str_le(x, s[j]),
    ensures
        insert_sorted(s, x) == s.insert(j, x),
    decreases s.len(),
{
    if s.len() == 0 {
        assert(s.insert(j, x) =~= seq![x]);
    } else if j == 0 {
        assert(s.insert(0, x) =~= seq![x] + s);
    } else {
        let t = s.drop_first();
        assert forall|k: int| 0 <= k < j - 1 implies !str_le(x, #[trigger] t[k]) by {
            assert(t[k] == s[k + 1]);
        }
        if j - 1 < t.len() {
            assert(t[j - 1] == s[j]);
        }
        lemma_insert_sorted_at(t, x, j - 1);
        assert(s.insert(j, x) =~= seq![s[0]] + t.insert(j - 1, x));
    }
}

/// Whether `a <= b` (see [`str_le`]).
pub fn string_le(a: &String, b: &String) -> (r: bool)
    ensures
        r == str_le(a@, b@),
{
    let av = chars_of(a.as_str());
    let bv = chars_of(b.as_str());
    let mut i: usize = 0;
    while i < av.len()
        invariant
            i <= av@.len(),
            av@ == a@,
            bv@ == b@,
            str_le(a@, b@) == str_le_at(a@, b@, i as int),
        decreases av@.len() - i,
    {
        if i >= bv.len() {
            return false;
        }
        if av[i] != bv[i] {
            return av[i] < bv[i];
        }
        i += 1;
    }
    true
}

/// A copy of `keys`, sorted (see [`sort_strings`]).
pub fn sorted_strings(keys: &Vec<String>) -> (r: Vec<String>)
    ensures
        strings_view(r@) == sort_strings(strings_view(keys@)),
{
    let ghost ks = strings_view(keys@);
    let mut r: Vec<String> = Vec::new();
    let mut n: usize = 0;
    while n < keys.len()
        invariant
            n <= keys@.len(),
            ks == strings_view(keys@),
            strings_view(r@) == sort_strings(ks.take(n as int)),
        decreases keys@.len() - n,
    {
        let x = keys[n].clone();
        let mut j: usize = 0;
        while j < r.len()
            invariant
                j <= r@.len(),
                forall|k: int| 0 <= k < j ==> !str_le(x@, #[trigger] strings_view(r@)[k]),
            ensures
                j <= r@.len(),
                forall|k: int| 0 <= k < j ==> !str_le(x@, #[trigger] strings_view(r@)[k]),
                j < r@.len() ==> str_le(x@, strings_view(r@)[j as int]),
            decreases r@.len() - j,
        {
            if string_le(&x, &r[j]) {
                break ;
            }
            j += 1;
        }
        let ghost before = strings_view(r@);
        proof {
            assert(ks.take(n + 1).drop_last() =~= ks.take(n as int));
            assert(ks.take(n + 1).last() == x@);
            if j < r@.len() {
                assert(before[j as int] == r@[j as int]@);
            }
            lemma_insert_sorted_at(before, x@, j as int);
        }
        r.insert(j, x);
        assert(strings_view(r@) =~= before.insert(j as int, x@));
        n += 1;
    }
    assert(ks.take(n as int) =~= ks);
    r
}

} // verus!
