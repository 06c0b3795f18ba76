//! The `${VAR}` placeholder syntax of property files: where placeholders
//! stand, which key each one names, and what a text becomes when its
//! placeholders are replaced by values.
//!
//! A placeholder is the leftmost text of the form `${ ... }` whose inner part
//! holds no `}`, i.e. the pattern `\$\{\s*(?P<var>[^\}]*)\s*\}`. The group
//! `var` is the inner part without its leading whitespace; the key it names is
//! that text trimmed of whitespace on both sides.
//!
//! Substitution replaces each placeholder of a text by its value, as the
//! value is written; the values themselves are never scanned for placeholders.
use vstd::prelude::*;
use crate::text::{self, find_char};

verus! {

/// Whether `${` starts at index `i`.
pub open spec fn open_at(s: Seq<char>, i: int) -> bool {
    s[i] == '$' && s[i + 1] == '{'
}

/// First index at or after `i` where `${` starts (or `s.len()`).
pub open spec fn next_open(s: Seq<char>, i: int) -> int
    decreases s.len() - i,
{
    if i < 0 || i + 1 >= s.len() {
        s.len() as int
    } else if open_at(s, i) {
        i
    } else {
        next_open(s, i + 1)
    }
}

/// The leftmost placeholder that starts at or after `from`: the index of its
/// `$` and the index of its closing `}`.
pub open spec fn placeholder_from(s: Seq<char>, from: int) -> Option<(int, int)> {
    let o = next_open(s, from);
    if o < s.len() {
        let c = text::next_char(s, '}', o + 2);
        if c < s.len() {
            Some((o, c))
        } else {
            None
        }
    } else {
        None
    }
}

/// All placeholders found by scanning `s` from `from`: each search starts
/// where the previous placeholder ended.
pub open spec fn placeholders_from(s: Seq<char>, from: int) -> Seq<(int, int)>
    decreases s.len() - from,
{
    if 0 <= from <= s.len() {
        match placeholder_from(s, from) {
            Some(m) => {
                proof {
                    lemma_placeholder_from(s, from);
                }
                seq![m] + placeholders_from(s, m.1 + 1)
            },
            None => Seq::empty(),
        }
    } else {
        Seq::empty()
    }
}

/// The text of the group `var` of the placeholder `(o, c)`.
pub open spec fn var_group(s: Seq<char>, o: int, c: int) -> Seq<char> {
    s.subrange(text::skip_ws_from(s, o + 2), c)
}

/// The key that the placeholder `(o, c)` names.
pub open spec fn placeholder_key(s: Seq<char>, o: int, c: int) -> Seq<char> {
    text::trim(var_group(s, o, c))
}

/// The keys of all placeholders of `s`, in order.
pub open spec fn placeholder_keys_of(s: Seq<char>) -> Seq<Seq<char>> {
    placeholders_from(s, 0).map_values(|m: (int, int)| placeholder_key(s, m.0, m.1))
}

pub proof fn lemma_next_open_bounds(s: Seq<char>, i: int)
    requires
        0 <= i <= s.len(),
    ensures
        i <= next_open(s, i) <= s.len(),
        next_open(s, i) < s.len() ==> next_open(s, i) + 1 < s.len() && s[next_open(s, i)] == '$'
            && s[next_open(s, i) + 1] == '{',
        forall|j: int|
            i <= j < next_open(s, i) && j + 1 < s.len() ==> !#[trigger] open_at(s, j),
    decreases s.len() - i,
{
    if i + 1 < s.len() && !open_at(s, i) {
        lemma_next_open_bounds(s, i + 1);
    }
}

pub proof fn lemma_placeholder_from(s: Seq<char>, from: int)
    requires
        0 <= from <= s.len(),
    ensures
        placeholder_from(s, from) matches Some(m) ==> {
            &&& from <= m.0
            &&& m.0 + 2 <= m.1 < s.len()
            &&& s[m.0] == '$' && s[m.0 + 1] == '{' && s[m.1] == '}'
            &&& forall|j: int| m.0 + 2 <= j < m.1 ==> #[trigger] s[j] != '}'
        },
{
    lemma_next_open_bounds(s, from);
    let o = next_open(s, from);
    if o < s.len() {
        text::lemma_next_char_bounds(s, '}', o + 2);
    }
}

pub proof fn lemma_var_group_bounds(s: Seq<char>, o: int, c: int)
    requires
        0 <= o,
        o + 2 <= c < s.len(),
        s[c] == '}',
    ensures
        o + 2 <= text::skip_ws_from(s, o + 2) <= c,
{
    text::lemma_skip_ws_from_bounds(s, o + 2);
}


/// Where the text after the `k`-th placeholder of `caps` starts.
pub open spec fn seg_start(caps: Seq<(int, int)>, k: int) -> int {
    if k <= 0 {
        0
    } else {
        caps[k - 1].1 + 1
    }
}

/// The text of `p` up to its `n`-th placeholder, with the placeholders
/// before it replaced by `values`.
pub open spec fn filled_prefix(
    p: Seq<char>,
    caps: Seq<(int, int)>,
    values: Seq<Seq<char>>,
    n: int,
) -> Seq<char>
    decreases n,
{
    if n <= 0 {
        Seq::empty()
    } else {
        filled_prefix(p, caps, values, n - 1) + p.subrange(seg_start(caps, n - 1), caps[n - 1].0)
            + values[n - 1]
    }
}

/// `p` with each of its placeholders replaced by the value of the same rank.
pub open spec fn fill(p: Seq<char>, values: Seq<Seq<char>>) -> Seq<char> {
    let caps = placeholders_from(p, 0);
    filled_prefix(p, caps, values, caps.len() as int) + p.subrange(
        seg_start(caps, caps.len() as int),
        p.len() as int,
    )
}

/// The placeholders found by scanning from `from`: the `k`-th is the
/// leftmost one after the end of the previous one.
pub proof fn lemma_placeholders_step(p: Seq<char>, from: int, k: int)
    requires
        0 <= from <= p.len(),
        0 <= k <= placeholders_from(p, from).len(),
    ensures
        ({
            let l = placeholders_from(p, from);
            let st = if k == 0 {
                from
            } else {
                l[k - 1].1 + 1
            };
            &&& from <= st <= p.len()
            &&& k < l.len() ==> placeholder_from(p, st) == Some(l[k])
            &&& k == l.len() ==> placeholder_from(p, st) is None
        }),
    decreases k,
{
    let l = placeholders_from(p, from);
    lemma_placeholder_from(p, from);
    if k > 0 {
        let m = placeholder_from(p, from)->0;
        let rest = placeholders_from(p, m.1 + 1);
        assert(l == seq![m] + rest);
        lemma_placeholders_step(p, m.1 + 1, k - 1);
        if k > 1 {
            assert(l[k - 1] == rest[k - 2]);
        }
        if k < l.len() {
            assert(l[k] == rest[k - 1]);
        }
    }
}


/// First index at or after `from` where `${` starts, or `v.len()`.
fn find_open(v: &Vec<char>, from: usize) -> (r: usize)
    requires
        from <= v@.len(),
    ensures
        r == next_open(v@, from as int),
{
    let mut i = from;
    while i < v.len() && i + 1 < v.len()
        invariant
            from <= i <= v@.len(),
            next_open(v@, from as int) == next_open(v@, i as int),
        decreases v@.len() - i,
    {
        if v[i] == '$' && v[i + 1] == '{' {
            return i;
        }
        i += 1;
    }
    v.len()
}

/// The leftmost placeholder of `v` that starts at or after `from`.
pub fn find_placeholder(v: &Vec<char>, from: usize) -> (r: Option<(usize, usize)>)
    requires
        from <= v@.len(),
    ensures
        match r {
            Some(m) => placeholder_from(v@, from as int) == Some((m.0 as int, m.1 as int)),
            None => placeholder_from(v@, from as int) is None,
        },
{
    let o = find_open(v, from);
    proof {
        lemma_next_open_bounds(v@, from as int);
    }
    if o < v.len() {
        let c = find_char(v, '}', o + 2);
        if c < v.len() {
            Some((o, c))
        } else {
            None
        }
    } else {
        None
    }
}


} // verus!
