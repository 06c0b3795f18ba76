//! Properties of the tool as a whole: how lines are substituted, which
//! value a key takes, how keyfiles are merged, and how uses are recorded.
use vstd::prelude::*;
use crate::assoc;
use crate::keyfile::{self, absorb, extract_upto, key_line, merge_files, pair_keys, KeyfileErrorView};
use crate::keys;
use crate::placeholder::{self, fill};
use crate::report::{self, report_fails, report_lines};
use crate::substitute::{
    self,
    code_part,
    comment_part,
    distinct_sources,
    env_source,
    line_keys,
    line_uses,
    missing_source,
    record_all,
    record_use,
    replaced_line,
    resolve,
    sources_of,
    use_values,
    EnvLookup,
    UsesView,
};

verus! {

/// A line that is a single placeholder `${KEY}` (the key holding no
/// whitespace, `}` or `#`) becomes the value that the key resolves to,
/// exactly as the value is written.
pub proof fn law_value_inserted_as_written(
    key: Seq<char>,
    props_first: bool,
    dict: Option<Map<Seq<char>, (Seq<char>, Seq<char>)>>,
    env: Seq<EnvLookup>,
)
    requires
        forall|j: int|
            0 <= j < key.len() ==> !crate::text::is_white_space(#[trigger] key[j]) && key[j] != '}'
                && key[j] != '#',
        env.len() == 1,
    ensures
        line_keys("${"@ + key + "}"@) == seq![key],
        replaced_line("${"@ + key + "}"@, props_first, dict, env) == resolve(
            key,
            props_first,
            dict,
            env[0],
        ).0,
{
    reveal_strlit("${");
    reveal_strlit("}");
    let line = "${"@ + key + "}"@;
    let n = line.len() as int;
    assert(n == key.len() + 3);
    assert(line[0] == '$' && line[1] == '{' && line[n - 1] == '}');
    assert forall|j: int| 2 <= j < n - 1 implies #[trigger] line[j] == key[j - 2] by {}
    // no comment
    crate::text::lemma_next_char_bounds(line, '#', 0);
    let cs = crate::text::next_char(line, '#', 0);
    if cs < n {
        if 2 <= cs < n - 1 {
            assert(line[cs] == key[cs - 2]);
        }
    }
    assert(cs == n);
    assert(code_part(line) =~= line);
    assert(comment_part(line) =~= Seq::<char>::empty());
    // the one placeholder spans the whole line
    assert(placeholder::next_open(line, 0) == 0);
    crate::text::lemma_next_char_bounds(line, '}', 2);
    let c = crate::text::next_char(line, '}', 2);
    if c < n - 1 {
        assert(line[c] == key[c - 2]);
    }
    if c == n {
        assert(line[n - 1] != '}');
    }
    assert(c == n - 1);
    assert(placeholder::placeholder_from(line, 0) == Some((0int, n - 1)));
    assert(placeholder::next_open(line, n) == n);
    assert(placeholder::placeholder_from(line, n) is None);
    assert(placeholder::placeholders_from(line, n) =~= Seq::<(int, int)>::empty());
    let caps = placeholder::placeholders_from(line, 0);
    assert(caps =~= seq![(0int, n - 1)]);
    // its key is `key`
    assert(!crate::text::is_white_space('}'));
    assert(crate::text::skip_ws_from(line, 2) == 2);
    assert(placeholder::var_group(line, 0, n - 1) =~= key);
    if key.len() > 0 {
        assert(crate::text::skip_ws_from(key, 0) == 0);
        assert(crate::text::trim_end_at(key, key.len() as int) == key.len());
        assert(key.subrange(0, key.len() as int) =~= key);
    }
    assert(crate::text::trim(key) =~= key);
    assert(placeholder::placeholder_key(line, 0, n - 1) == key);
    assert(line_keys(line) =~= seq![key]);
    let values = use_values(line_uses(line, props_first, dict, env));
    assert(values =~= seq![resolve(key, props_first, dict, env[0]).0]);
    assert(placeholder::filled_prefix(line, caps, values, 0) =~= Seq::<char>::empty());
    assert(placeholder::filled_prefix(line, caps, values, 1) =~= values[0]);
    assert(fill(line, values) =~= values[0]);
}

/// A line without placeholders is left as it is.
pub proof fn law_line_without_placeholders_unchanged(
    line: Seq<char>,
    props_first: bool,
    dict: Option<Map<Seq<char>, (Seq<char>, Seq<char>)>>,
    env: Seq<EnvLookup>,
)
    requires
        line_keys(line).len() == 0,
    ensures
        replaced_line(line, props_first, dict, env) == line,
{
    let values = use_values(line_uses(line, props_first, dict, env));
    assert(values.len() == 0);
    crate::text::lemma_next_char_bounds(line, '#', 0);
    assert(code_part(line) + comment_part(line) =~= line);
}

/// The comment of a line (from its first `#` on) is kept verbatim at its end.
pub proof fn law_comment_kept(
    line: Seq<char>,
    props_first: bool,
    dict: Option<Map<Seq<char>, (Seq<char>, Seq<char>)>>,
    env: Seq<EnvLookup>,
)
    ensures
        ({
            let r = replaced_line(line, props_first, dict, env);
            let c = comment_part(line);
            r.len() >= c.len() && r.subrange(r.len() - c.len(), r.len() as int) == c
        }),
{
    let r = replaced_line(line, props_first, dict, env);
    let c = comment_part(line);
    let s = fill(code_part(line), use_values(line_uses(line, props_first, dict, env)));
    assert(r == s + c);
    assert(r.subrange(r.len() - c.len(), r.len() as int) =~= c);
}

/// With `props_first`, a key that a keyfile defines takes the keyfile's
/// value and source, whatever the environment holds.
pub proof fn law_props_first_keyfile_wins(
    key: Seq<char>,
    dict: Map<Seq<char>, (Seq<char>, Seq<char>)>,
    env: EnvLookup,
)
    requires
        dict.contains_key(key),
    ensures
        resolve(key, true, Some(dict), env) == dict[key],
{
}

/// Without `props_first`, a set environment variable overrides a keyfile's
/// value, and the source is `ENV`.
pub proof fn law_environment_wins_by_default(
    key: Seq<char>,
    dict: Map<Seq<char>, (Seq<char>, Seq<char>)>,
    value: String,
)
    requires
        dict.contains_key(key),
    ensures
        resolve(key, false, Some(dict), EnvLookup::Value(value)) == (value@, env_source()),
{
}

/// A key that neither a keyfile nor the environment defines stays as it is
/// and is marked missing.
pub proof fn law_undefined_key_missing(
    key: Seq<char>,
    props_first: bool,
    dict: Option<Map<Seq<char>, (Seq<char>, Seq<char>)>>,
    env: EnvLookup,
)
    requires
        !(env is Value),
        dict matches Some(d) ==> !d.contains_key(key),
    ensures
        resolve(key, props_first, dict, env) == (key, missing_source()),
{
}

/// Within one keyfile the first line that defines a key gives its value.
pub proof fn law_first_definition_wins(lines: Seq<Seq<char>>, n: int, x: int, k: Seq<char>, v: Seq<char>)
    requires
        0 <= x < n <= lines.len(),
        key_line(lines[x]) == Some((k, v)),
        forall|y: int| 0 <= y < x ==> !(#[trigger] key_line(lines[y]) matches Some(kv) && kv.0 == k),
    ensures
        ({
            let e = extract_upto(lines, n);
            let i = assoc::index_of(pair_keys(e), k);
            i < e.len() && e[i] == (k, v)
        }),
    decreases n,
{
    let e = extract_upto(lines, n);
    let prev = extract_upto(lines, n - 1);
    if n - 1 == x {
        lemma_key_absent_before(lines, x, k);
        assoc::lemma_index_of(pair_keys(prev), k);
        assert(e == prev.push((k, v)));
        assert(pair_keys(e) =~= pair_keys(prev).push(k));
        assoc::lemma_index_of_push(pair_keys(prev), k, k);
    } else {
        law_first_definition_wins(lines, n - 1, x, k, v);
        let i = assoc::index_of(pair_keys(prev), k);
        assoc::lemma_index_of(pair_keys(prev), k);
        match key_line(lines[n - 1]) {
            Some(kv) => {
                if assoc::index_of(pair_keys(prev), kv.0) >= prev.len() {
                    assert(e == prev.push(kv));
                    assert(pair_keys(e) =~= pair_keys(prev).push(kv.0));
                    assoc::lemma_index_of_push(pair_keys(prev), kv.0, k);
                    assert(prev.push(kv)[i] == prev[i]);
                }
            },
            None => {},
        }
    }
}

/// A key that no line before `x` defines is not among the pairs taken
/// from those lines.
proof fn lemma_key_absent_before(lines: Seq<Seq<char>>, x: int, k: Seq<char>)
    requires
        0 <= x <= lines.len(),
        forall|y: int| 0 <= y < x ==> !(#[trigger] key_line(lines[y]) matches Some(kv) && kv.0 == k),
    ensures
        assoc::index_of(pair_keys(extract_upto(lines, x)), k) == extract_upto(lines, x).len(),
    decreases x,
{
    let e = extract_upto(lines, x);
    if x == 0 {
        assoc::lemma_index_of(pair_keys(e), k);
    } else {
        lemma_key_absent_before(lines, x - 1, k);
        let prev = extract_upto(lines, x - 1);
        assert(!(key_line(lines[x - 1]) matches Some(kv) && kv.0 == k));
        match key_line(lines[x - 1]) {
            Some(kv) => {
                if assoc::index_of(pair_keys(prev), kv.0) >= prev.len() {
                    assert(pair_keys(e) =~= pair_keys(prev).push(kv.0));
                    assoc::lemma_index_of_push(pair_keys(prev), kv.0, k);
                }
            },
            None => {},
        }
    }
}

/// The keys a keyfile defines.
pub open spec fn keyfile_keys(lines: Seq<Seq<char>>) -> Seq<Seq<char>> {
    pair_keys(extract_upto(lines, lines.len() as int))
}

/// Whether a keyfile could be read and defines `key`.
pub open spec fn file_defines(f: keyfile::KeyfileLinesView, key: Seq<char>) -> bool {
    f.1 matches Some(lines) && keyfile_keys(lines).contains(key)
}

/// Merging without shadowing: a run without conflict adds every key of the
/// entries to the dictionary and keeps the keys already there; a key already
/// there is a conflict.
proof fn lemma_absorb_strict(
    d: keyfile::DictView,
    k: keyfile::SourcesView,
    entries: Seq<(Seq<char>, Seq<char>)>,
    file: Seq<char>,
    n: int,
)
    requires
        0 <= n <= entries.len(),
    ensures
        ({
            let s = absorb(d, k, entries, file, false, n);
            &&& s.3 is None ==> (forall|key: Seq<char>| d.contains_key(key) ==> #[trigger] s.0.contains_key(key))
            &&& s.3 is None ==> (forall|i: int| 0 <= i < n ==> s.0.contains_key(#[trigger] entries[i].0))
            &&& s.3 is None ==> (forall|i: int| 0 <= i < n ==> !d.contains_key(#[trigger] entries[i].0))
        }),
    decreases n,
{
    if n > 0 {
        lemma_absorb_strict(d, k, entries, file, n - 1);
        let prev = absorb(d, k, entries, file, false, n - 1);
        let s = absorb(d, k, entries, file, false, n);
        if s.3 is None {
            assert(prev.3 is None);
            assert(!prev.0.contains_key(entries[n - 1].0));
            assert forall|i: int| 0 <= i < n implies s.0.contains_key(#[trigger] entries[i].0) by {
                if i < n - 1 {
                    assert(prev.0.contains_key(entries[i].0));
                }
            }
            assert forall|i: int| 0 <= i < n implies !d.contains_key(#[trigger] entries[i].0) by {
                if i == n - 1 {
                    if d.contains_key(entries[i].0) {
                        assert(prev.0.contains_key(entries[i].0));
                    }
                }
            }
        }
    }
}

/// Merging without shadowing, as long as no file failed: every key of every
/// merged file is in the dictionary.
proof fn lemma_merge_strict(files: Seq<keyfile::KeyfileLinesView>, m: int)
    requires
        0 <= m <= files.len(),
        merge_files(files, false, m).3 is None,
    ensures
        forall|i: int, key: Seq<char>|
            0 <= i < m && #[trigger] file_defines(files[i], key) ==> merge_files(
                files,
                false,
                m,
            ).0.contains_key(key),
    decreases m,
{
    if m > 0 {
        let prev = merge_files(files, false, m - 1);
        assert(prev.3 is None);
        lemma_merge_strict(files, m - 1);
        let lines = files[m - 1].1->0;
        let entries = extract_upto(lines, lines.len() as int);
        lemma_absorb_strict(prev.0, prev.1, entries, files[m - 1].0, entries.len() as int);
        assert forall|i: int, key: Seq<char>|
            0 <= i < m && #[trigger] file_defines(files[i], key) implies merge_files(
                files,
                false,
                m,
            ).0.contains_key(key) by {
            if i < m - 1 {
                assert(prev.0.contains_key(key));
            } else {
                let j = choose|j: int| 0 <= j < keyfile_keys(lines).len() && keyfile_keys(lines)[j] == key;
                assert(entries[j].0 == key);
            }
        }
    }
}

/// Without shadowing, two readable keyfiles that define the same key make
/// the merge fail.
pub proof fn law_duplicate_key_refused(
    files: Seq<keyfile::KeyfileLinesView>,
    i: int,
    j: int,
    key: Seq<char>,
)
    requires
        0 <= i < j < files.len(),
        file_defines(files[i], key),
        file_defines(files[j], key),
    ensures
        merge_files(files, false, files.len() as int).3 is Some,
{
    let before = merge_files(files, false, j);
    if before.3 is None {
        lemma_merge_strict(files, j);
        assert(before.0.contains_key(key));
        let lines = files[j].1->0;
        let entries = extract_upto(lines, lines.len() as int);
        lemma_absorb_strict(before.0, before.1, entries, files[j].0, entries.len() as int);
        let x = choose|x: int| 0 <= x < keyfile_keys(lines).len() && keyfile_keys(lines)[x] == key;
        assert(entries[x].0 == key);
        assert(merge_files(files, false, j + 1).3 is Some);
        keyfile::lemma_merge_stops(files, false, j + 1, files.len() as int);
    } else {
        keyfile::lemma_merge_stops(files, false, j, files.len() as int);
    }
}

/// With shadowing, merging never stops at a conflict; it stops only at a
/// keyfile that could not be read.
pub proof fn law_shadowing_never_conflicts(files: Seq<keyfile::KeyfileLinesView>, n: int)
    requires
        0 <= n <= files.len(),
    ensures
        !(merge_files(files, true, n).3 matches Some(KeyfileErrorView::Conflict(_))),
    decreases n,
{
    if n > 0 {
        law_shadowing_never_conflicts(files, n - 1);
        let prev = merge_files(files, true, n - 1);
        if prev.3 is None {
            match files[n - 1].1 {
                Some(lines) => {
                    let entries = extract_upto(lines, lines.len() as int);
                    keyfile::lemma_absorb_modes(
                        prev.0,
                        prev.1,
                        entries,
                        files[n - 1].0,
                        true,
                        entries.len() as int,
                    );
                },
                None => {},
            }
        }
    }
}

/// Index of the last of the first `n` keys equal to `key`, or -1.
pub open spec fn last_index(keys: Seq<Seq<char>>, key: Seq<char>, n: int) -> int
    decreases n,
{
    if n <= 0 {
        -1
    } else if keys[n - 1] == key {
        n - 1
    } else {
        last_index(keys, key, n - 1)
    }
}

proof fn lemma_last_index(keys: Seq<Seq<char>>, key: Seq<char>, n: int)
    requires
        0 <= n <= keys.len(),
    ensures
        -1 <= last_index(keys, key, n) < n,
        last_index(keys, key, n) >= 0 ==> keys[last_index(keys, key, n)] == key,
        forall|j: int| last_index(keys, key, n) < j < n ==> #[trigger] keys[j] != key,
    decreases n,
{
    if n > 0 && keys[n - 1] != key {
        lemma_last_index(keys, key, n - 1);
    }
}

/// The keys a keyfile yields are distinct.
proof fn lemma_extract_distinct(lines: Seq<Seq<char>>, n: int)
    requires
        0 <= n <= lines.len(),
    ensures
        forall|a: int, b: int|
            0 <= a < b < extract_upto(lines, n).len() ==> #[trigger] extract_upto(lines, n)[a].0
                != #[trigger] extract_upto(lines, n)[b].0,
    decreases n,
{
    if n > 0 {
        lemma_extract_distinct(lines, n - 1);
        let prev = extract_upto(lines, n - 1);
        let e = extract_upto(lines, n);
        match key_line(lines[n - 1]) {
            Some(kv) => {
                if assoc::index_of(pair_keys(prev), kv.0) >= prev.len() {
                    assoc::lemma_index_of(pair_keys(prev), kv.0);
                    assert(e == prev.push(kv));
                    assert forall|a: int, b: int| 0 <= a < b < e.len() implies #[trigger] e[a].0
                        != #[trigger] e[b].0 by {
                        if b == prev.len() {
                            assert(pair_keys(prev)[a] != kv.0);
                        } else {
                            assert(e[a] == prev[a] && e[b] == prev[b]);
                        }
                    }
                }
            },
            None => {},
        }
    }
}

/// The value that a keyfile's lines give `key`.
pub open spec fn keyfile_value(lines: Seq<Seq<char>>, key: Seq<char>) -> Seq<char> {
    let e = extract_upto(lines, lines.len() as int);
    e[assoc::index_of(pair_keys(e), key)].1
}

/// With shadowing, each entry sets its key, the last one of a key winning.
proof fn lemma_absorb_shadow(
    d: keyfile::DictView,
    k: keyfile::SourcesView,
    entries: Seq<(Seq<char>, Seq<char>)>,
    file: Seq<char>,
    n: int,
)
    requires
        0 <= n <= entries.len(),
    ensures
        ({
            let s = absorb(d, k, entries, file, true, n);
            forall|key: Seq<char>|
                {
                    let j = #[trigger] last_index(pair_keys(entries), key, n);
                    &&& j >= 0 ==> s.0.contains_key(key) && s.0[key] == (entries[j].1, file)
                    &&& j < 0 ==> s.0.contains_key(key) == d.contains_key(key) && (d.contains_key(
                        key,
                    ) ==> s.0[key] == d[key])
                }
        }),
    decreases n,
{
    if n > 0 {
        lemma_absorb_shadow(d, k, entries, file, n - 1);
        keyfile::lemma_absorb_modes(d, k, entries, file, true, n - 1);
        let prev = absorb(d, k, entries, file, true, n - 1);
        let s = absorb(d, k, entries, file, true, n);
        assert(s.0 == prev.0.insert(entries[n - 1].0, (entries[n - 1].1, file)));
        assert forall|key: Seq<char>|
            {
                let j = #[trigger] last_index(pair_keys(entries), key, n);
                &&& j >= 0 ==> s.0.contains_key(key) && s.0[key] == (entries[j].1, file)
                &&& j < 0 ==> s.0.contains_key(key) == d.contains_key(key) && (d.contains_key(key)
                    ==> s.0[key] == d[key])
            } by {
            if key != entries[n - 1].0 {
                assert(last_index(pair_keys(entries), key, n) == last_index(
                    pair_keys(entries),
                    key,
                    n - 1,
                ));
            }
        }
    }
}

/// Whether the `t`-th keyfile is the last of the first `m` that defines `key`.
pub open spec fn last_defining_file(files: Seq<keyfile::KeyfileLinesView>, key: Seq<char>, m: int) -> int
    decreases m,
{
    if m <= 0 {
        -1
    } else if file_defines(files[m - 1], key) {
        m - 1
    } else {
        last_defining_file(files, key, m - 1)
    }
}

proof fn lemma_merge_shadow(files: Seq<keyfile::KeyfileLinesView>, m: int)
    requires
        0 <= m <= files.len(),
        forall|t: int| 0 <= t < files.len() ==> (#[trigger] files[t].1) is Some,
    ensures
        merge_files(files, true, m).3 is None,
        forall|key: Seq<char>|
            {
                let t = #[trigger] last_defining_file(files, key, m);
                let dict = merge_files(files, true, m).0;
                &&& -1 <= t < m
                &&& t >= 0 ==> dict.contains_key(key) && dict[key] == (
                    keyfile_value(files[t].1->0, key),
                    files[t].0,
                )
                &&& t < 0 ==> !dict.contains_key(key)
            },
    decreases m,
{
    if m > 0 {
        lemma_merge_shadow(files, m - 1);
        let prev = merge_files(files, true, m - 1);
        let lines = files[m - 1].1->0;
        assert(files[m - 1].1 is Some);
        let entries = extract_upto(lines, lines.len() as int);
        let n = entries.len() as int;
        keyfile::lemma_absorb_modes(prev.0, prev.1, entries, files[m - 1].0, true, n);
        lemma_absorb_shadow(prev.0, prev.1, entries, files[m - 1].0, n);
        lemma_extract_distinct(lines, lines.len() as int);
        let dict = merge_files(files, true, m).0;
        assert forall|key: Seq<char>|
            {
                let t = #[trigger] last_defining_file(files, key, m);
                &&& -1 <= t < m
                &&& t >= 0 ==> dict.contains_key(key) && dict[key] == (
                    keyfile_value(files[t].1->0, key),
                    files[t].0,
                )
                &&& t < 0 ==> !dict.contains_key(key)
            } by {
            let ks = pair_keys(entries);
            let j = last_index(ks, key, n);
            lemma_last_index(ks, key, n);
            assoc::lemma_index_of(ks, key);
            let _ = last_defining_file(files, key, m - 1);
            if file_defines(files[m - 1], key) {
                let x = choose|x: int| 0 <= x < ks.len() && ks[x] == key;
                assert(ks[x] == key);
                assert(j >= 0);
                let i = assoc::index_of(ks, key);
                if i != j {
                    assert(entries[i].0 == key && entries[j].0 == key);
                    if i < j {
                        assert(entries[i].0 != entries[j].0);
                    } else {
                        assert(entries[j].0 != entries[i].0);
                    }
                }
            } else {
                if j >= 0 {
                    assert(keyfile_keys(lines).contains(key)) by {
                        assert(ks[j] == key);
                    }
                }
            }
        }
    }
}

/// With shadowing (and every keyfile readable), each key takes the value
/// and source of the last keyfile that defines it.
pub proof fn law_shadowing_last_file_wins(
    files: Seq<keyfile::KeyfileLinesView>,
    i: int,
    key: Seq<char>,
)
    requires
        0 <= i < files.len(),
        forall|t: int| 0 <= t < files.len() ==> (#[trigger] files[t].1) is Some,
        file_defines(files[i], key),
        forall|t: int| i < t < files.len() ==> !#[trigger] file_defines(files[t], key),
    ensures
        merge_files(files, true, files.len() as int).3 is None,
        merge_files(files, true, files.len() as int).0.contains_key(key),
        merge_files(files, true, files.len() as int).0[key] == (
            keyfile_value(files[i].1->0, key),
            files[i].0,
        ),
{
    lemma_merge_shadow(files, files.len() as int);
    lemma_last_defining_file(files, key, i, files.len() as int);
}

proof fn lemma_last_defining_file(files: Seq<keyfile::KeyfileLinesView>, key: Seq<char>, i: int, m: int)
    requires
        0 <= i < m <= files.len(),
        file_defines(files[i], key),
        forall|t: int| i < t < m ==> !#[trigger] file_defines(files[t], key),
    ensures
        last_defining_file(files, key, m) == i,
    decreases m,
{
    if m - 1 > i {
        assert(!file_defines(files[m - 1], key));
        lemma_last_defining_file(files, key, i, m - 1);
    }
}

/// What a dictionary gives back for a key is what was last written for it:
/// after `KeysAndSources::insert` of `key` (which turns `before` into
/// `after`), `KeysAndSources::get` finds `key` with the new value, every
/// other key as it was, and the number of keys grows by one exactly when
/// `key` was new.
pub proof fn law_dictionary_read_after_write(
    before: keys::KeysAndSources,
    after: keys::KeysAndSources,
    key: Seq<char>,
    v: (Seq<char>, Seq<char>),
    other: Seq<char>,
)
    requires
        after@ == before@.insert(key, v),
        other != key,
    ensures
        after@.contains_key(key),
        after@[key] == v,
        after@.contains_key(other) == before@.contains_key(other),
        before@.contains_key(other) ==> after@[other] == before@[other],
        after@.dom().len() == before@.dom().len() + if before@.contains_key(key) {
            0int
        } else {
            1int
        },
{
    before.lemma_view_finite();
    if before@.contains_key(key) {
        assert(after@.dom() =~= before@.dom());
    }
}

/// What `n` calls of `replace_var`, one per line in order, leave behind
/// when they start from an empty result, the record `u` and no notices:
/// each call appends the line's substitution to the result, records the
/// line's uses and yields the line's override notices (the `ensures` of
/// `replace_var`).
pub open spec fn replace_var_calls(
    u: UsesView,
    lines: Seq<Seq<char>>,
    props_first: bool,
    dict: Option<Map<Seq<char>, (Seq<char>, Seq<char>)>>,
    envs: Seq<Seq<EnvLookup>>,
    n: int,
) -> (Seq<Seq<char>>, UsesView, Seq<(Seq<char>, Seq<char>)>)
    decreases n,
{
    if n <= 0 {
        (Seq::empty(), u, Seq::empty())
    } else {
        let prev = replace_var_calls(u, lines, props_first, dict, envs, n - 1);
        let line = lines[n - 1];
        (
            prev.0.push(replaced_line(line, props_first, dict, envs[n - 1])),
            record_all(prev.1, line_uses(line, props_first, dict, envs[n - 1])),
            prev.2 + substitute::override_notes(
                line_keys(line),
                props_first,
                dict,
                envs[n - 1],
                line_keys(line).len() as int,
            ),
        )
    }
}

/// Substituting a whole file (`process`) gives what calling `replace_var` on
/// its lines one after the other gives: the same lines, the same record of
/// uses and the same notices.
pub proof fn law_process_is_replace_var_per_line(
    u: UsesView,
    lines: Seq<Seq<char>>,
    props_first: bool,
    dict: Option<Map<Seq<char>, (Seq<char>, Seq<char>)>>,
    envs: Seq<Seq<EnvLookup>>,
    n: int,
)
    requires
        0 <= n <= lines.len(),
    ensures
        replace_var_calls(u, lines, props_first, dict, envs, n) == (
            substitute::replaced_lines(lines, props_first, dict, envs).take(n),
            substitute::record_lines(u, lines, props_first, dict, envs, n),
            substitute::lines_notes(lines, props_first, dict, envs, n),
        ),
    decreases n,
{
    if n > 0 {
        law_process_is_replace_var_per_line(u, lines, props_first, dict, envs, n - 1);
        let all = substitute::replaced_lines(lines, props_first, dict, envs);
        assert(all.take(n) =~= all.take(n - 1).push(all[n - 1]));
    } else {
        assert(substitute::replaced_lines(lines, props_first, dict, envs).take(0) =~= Seq::<
            Seq<char>,
        >::empty());
    }
}

/// The number of recorded uses of the first `n` sources.
pub open spec fn use_count(u: UsesView, n: int) -> int
    decreases n,
{
    if n <= 0 {
        0
    } else {
        use_count(u, n - 1) + u[n - 1].1.len()
    }
}

proof fn lemma_use_count_update(u: UsesView, i: int, e: (Seq<char>, Seq<(Seq<char>, Seq<char>)>), n: int)
    requires
        0 <= i < u.len(),
        0 <= n <= u.len(),
    ensures
        use_count(u.update(i, e), n) == use_count(u, n) + if i < n {
            e.1.len() - u[i].1.len()
        } else {
            0
        },
    decreases n,
{
    if n > 0 {
        lemma_use_count_update(u, i, e, n - 1);
    }
}

proof fn lemma_use_count_push(u: UsesView, e: (Seq<char>, Seq<(Seq<char>, Seq<char>)>), n: int)
    requires
        0 <= n <= u.len(),
    ensures
        use_count(u.push(e), n) == use_count(u, n),
    decreases n,
{
    if n > 0 {
        lemma_use_count_push(u, e, n - 1);
    }
}

/// Every use of a key is recorded: recording `uses` adds exactly that many
/// entries over all sources.
pub proof fn law_every_use_recorded(u: UsesView, uses: Seq<(Seq<char>, (Seq<char>, Seq<char>))>)
    ensures
        use_count(record_all(u, uses), record_all(u, uses).len() as int) == use_count(
            u,
            u.len() as int,
        ) + uses.len(),
    decreases uses.len(),
{
    if uses.len() > 0 {
        law_every_use_recorded(u, uses.drop_last());
        let r = record_all(u, uses.drop_last());
        let last = uses.last();
        let i = assoc::index_of(sources_of(r), last.1.1);
        assoc::lemma_index_of(sources_of(r), last.1.1);
        if i < r.len() {
            lemma_use_count_update(r, i, (last.1.1, r[i].1.push((last.0, last.1.0))), r.len() as int);
        } else {
            lemma_use_count_push(r, (last.1.1, seq![(last.0, last.1.0)]), r.len() as int);
            let r2 = r.push((last.1.1, seq![(last.0, last.1.0)]));
            assert(use_count(r2, r2.len() as int) == use_count(r2, r.len() as int) + 1);
        }
    }
}

/// Recording uses never lists a source twice: each source has one list.
pub proof fn law_sources_stay_distinct(u: UsesView, uses: Seq<(Seq<char>, (Seq<char>, Seq<char>))>)
    requires
        distinct_sources(u),
    ensures
        distinct_sources(record_all(u, uses)),
    decreases uses.len(),
{
    if uses.len() > 0 {
        law_sources_stay_distinct(u, uses.drop_last());
        let r = record_all(u, uses.drop_last());
        let last = uses.last();
        let src = last.1.1;
        let i = assoc::index_of(sources_of(r), src);
        assoc::lemma_index_of(sources_of(r), src);
        let r2 = record_all(u, uses);
        assert(r2 == record_use(r, src, last.0, last.1.0));
        if i < r.len() {
            assert(sources_of(r2) =~= sources_of(r));
        } else {
            assert(sources_of(r2) =~= sources_of(r).push(src));
            assoc::lemma_push_distinct(sources_of(r), src);
        }
    }
}

/// The summary ends with `...DONE!` exactly when no key is missing.
pub proof fn law_done_unless_missing(u: UsesView, prop: Seq<char>)
    ensures
        (report_lines(u, prop).last() == "...DONE!"@) <==> !report_fails(u),
{
    reveal_strlit("...DONE!");
    if report_fails(u) {
        assert(report_lines(u, prop).last() == ""@);
        reveal_strlit("");
    }
}

/// Where no keyfile defines a key, a set environment variable supplies its
/// value, with the source `ENV`, whether or not keyfiles were given.
pub proof fn law_environment_used_where_no_keyfile_defines(
    key: Seq<char>,
    props_first: bool,
    dict: Option<Map<Seq<char>, (Seq<char>, Seq<char>)>>,
    value: String,
)
    requires
        dict matches Some(d) ==> !d.contains_key(key),
    ensures
        resolve(key, props_first, dict, EnvLookup::Value(value)) == (value@, env_source()),
{
}

/// A keyfile line `KEY=VALUE`, whose key holds no whitespace, `=` or `#` and
/// whose value holds no `#` and does not start with whitespace, defines
/// exactly that key with exactly that value.
pub proof fn law_key_line_defines_key_and_value(key: Seq<char>, value: Seq<char>)
    requires
        forall|j: int|
            0 <= j < key.len() ==> !crate::text::is_white_space(#[trigger] key[j]) && key[j] != '='
                && key[j] != '#',
        forall|j: int| 0 <= j < value.len() ==> #[trigger] value[j] != '#',
        value.len() > 0 ==> !crate::text::is_white_space(value[0]),
    ensures
        key_line(key + "="@ + value) == Some((key, value)),
{
    reveal_strlit("=");
    let line = key + "="@ + value;
    let n = line.len() as int;
    let e = key.len() as int;
    assert(line[e] == '=');
    assert forall|j: int| 0 <= j < e implies #[trigger] line[j] == key[j] by {}
    assert forall|j: int| e < j < n implies #[trigger] line[j] == value[j - e - 1] by {}
    assert(!crate::text::is_white_space('='));
    // no comment
    crate::text::lemma_next_char_bounds(line, '#', 0);
    let cs = crate::text::next_char(line, '#', 0);
    if cs < n {
        if cs < e {
            assert(line[cs] == key[cs]);
        } else if cs > e {
            assert(line[cs] == value[cs - e - 1]);
        }
    }
    assert(cs == n);
    assert(substitute::code_part(line) =~= line);
    // the key runs up to the `=`
    if e > 0 {
        assert(line[0] == key[0]);
    }
    assert(crate::text::skip_ws_from(line, 0) == 0);
    keyfile::lemma_key_end_bounds(line, 0);
    let t = keyfile::key_end(line, 0);
    if t < e {
        assert(line[t] == key[t]);
    }
    assert(t == e);
    assert(crate::text::skip_ws_from(line, e) == e);
    if value.len() > 0 {
        assert(line[e + 1] == value[0]);
    }
    assert(crate::text::skip_ws_from(line, e + 1) == e + 1);
    assert(line.subrange(0, e) =~= key);
    assert(line.subrange(e + 1, n) =~= value);
}

/// A keyfile's entries, merged without stopping at a conflict and with no
/// key given twice, each set their key to their own value from that
/// keyfile; the keys they do not name keep their values.
pub proof fn law_merged_entries_keep_their_values(
    d: keyfile::DictView,
    k: keyfile::SourcesView,
    entries: Seq<(Seq<char>, Seq<char>)>,
    file: Seq<char>,
    shadow: bool,
    n: int,
)
    requires
        0 <= n <= entries.len(),
        pair_keys(entries).no_duplicates(),
        absorb(d, k, entries, file, shadow, n).3 is None,
    ensures
        forall|i: int|
            0 <= i < n ==> #[trigger] absorb(d, k, entries, file, shadow, n).0[entries[i].0] == (
                entries[i].1,
                file,
            ),
        forall|i: int| 0 <= i < n ==> absorb(d, k, entries, file, shadow, n).0.contains_key(#[trigger] entries[i].0),
    decreases n,
{
    if n > 0 {
        let prev = absorb(d, k, entries, file, shadow, n - 1);
        assert(prev.3 is None);
        law_merged_entries_keep_their_values(d, k, entries, file, shadow, n - 1);
        let s = absorb(d, k, entries, file, shadow, n);
        let key = entries[n - 1].0;
        assert(s.0 == prev.0.insert(key, (entries[n - 1].1, file)));
        assert forall|i: int| 0 <= i < n implies #[trigger] s.0[entries[i].0] == (
            entries[i].1,
            file,
        ) && s.0.contains_key(entries[i].0) by {
            if i < n - 1 {
                assert(pair_keys(entries)[i] == entries[i].0);
                assert(pair_keys(entries)[n - 1] == key);
            }
        }
    }
}

/// Merging a keyfile's entries leaves every key that none of them names as
/// it was in the dictionary.
pub proof fn law_merge_keeps_unnamed_keys(
    d: keyfile::DictView,
    k: keyfile::SourcesView,
    entries: Seq<(Seq<char>, Seq<char>)>,
    file: Seq<char>,
    shadow: bool,
    n: int,
    key: Seq<char>,
)
    requires
        0 <= n <= entries.len(),
        d.contains_key(key),
        forall|i: int| 0 <= i < n ==> #[trigger] entries[i].0 != key,
    ensures
        absorb(d, k, entries, file, shadow, n).0.contains_key(key),
        absorb(d, k, entries, file, shadow, n).0[key] == d[key],
    decreases n,
{
    if n > 0 {
        assert(entries[n - 1].0 != key);
        law_merge_keeps_unnamed_keys(d, k, entries, file, shadow, n - 1, key);
    }
}

/// A text without whitespace is its own trimmed form.
proof fn lemma_trim_without_whitespace(key: Seq<char>)
    requires
        forall|j: int| 0 <= j < key.len() ==> !crate::text::is_white_space(#[trigger] key[j]),
    ensures
        crate::text::trim(key) == key,
{
    if key.len() > 0 {
        assert(crate::text::skip_ws_from(key, 0) == 0);
        assert(crate::text::trim_end_at(key, key.len() as int) == key.len());
        assert(key.subrange(0, key.len() as int) =~= key);
    }
    assert(crate::text::trim(key) =~= key);
}

/// A line of two placeholders `${A}${B}` (the keys holding no whitespace,
/// `}` or `#`): the first placeholder takes the value that `A` resolves to
/// with the first environment entry, the second the value that `B` resolves
/// to with the second; both uses are recorded in that order, and the
/// override notices are those of `A` and then of `B`.
#[verifier::rlimit(50)]
pub proof fn law_each_placeholder_takes_its_own_value(
    a: Seq<char>,
    b: Seq<char>,
    props_first: bool,
    dict: Option<Map<Seq<char>, (Seq<char>, Seq<char>)>>,
    ea: EnvLookup,
    eb: EnvLookup,
)
    requires
        forall|j: int|
            0 <= j < a.len() ==> !crate::text::is_white_space(#[trigger] a[j]) && a[j] != '}' && a[j]
                != '#',
        forall|j: int|
            0 <= j < b.len() ==> !crate::text::is_white_space(#[trigger] b[j]) && b[j] != '}' && b[j]
                != '#',
    ensures
        ({
            let line = "${"@ + a + "}"@ + "${"@ + b + "}"@;
            let env = seq![ea, eb];
            &&& line_keys(line) == seq![a, b]
            &&& line_uses(line, props_first, dict, env) == seq![
                (a, resolve(a, props_first, dict, ea)),
                (b, resolve(b, props_first, dict, eb)),
            ]
            &&& replaced_line(line, props_first, dict, env) == resolve(a, props_first, dict, ea).0
                + resolve(b, props_first, dict, eb).0
            &&& substitute::override_notes(line_keys(line), props_first, dict, env, 2) == (if substitute::env_overrides(
                a,
                props_first,
                dict,
                ea,
            ) {
                seq![(a, dict->0[a].1)]
            } else {
                Seq::empty()
            }) + (if substitute::env_overrides(b, props_first, dict, eb) {
                seq![(b, dict->0[b].1)]
            } else {
                Seq::empty()
            })
        }),
{
    reveal_strlit("${");
    reveal_strlit("}");
    let line = "${"@ + a + "}"@ + "${"@ + b + "}"@;
    let env = seq![ea, eb];
    let n = line.len() as int;
    let p: int = a.len() + 2int;
    assert(n == a.len() + b.len() + 6);
    assert(line[0] == '$' && line[1] == '{' && line[p] == '}');
    assert(line[p + 1] == '$' && line[p + 2] == '{' && line[n - 1] == '}');
    assert forall|j: int| 2 <= j < p implies #[trigger] line[j] == a[j - 2] by {}
    assert forall|j: int| p + 3 <= j < n - 1 implies #[trigger] line[j] == b[j - p - 3] by {}
    // no comment
    crate::text::lemma_next_char_bounds(line, '#', 0);
    let cs = crate::text::next_char(line, '#', 0);
    if cs < n {
        if 2 <= cs < p {
            assert(line[cs] == a[cs - 2]);
        } else if p + 3 <= cs < n - 1 {
            assert(line[cs] == b[cs - p - 3]);
        }
    }
    assert(cs == n);
    assert(code_part(line) =~= line);
    assert(comment_part(line) =~= Seq::<char>::empty());
    // the first placeholder
    assert(placeholder::next_open(line, 0) == 0);
    crate::text::lemma_next_char_bounds(line, '}', 2);
    let c1 = crate::text::next_char(line, '}', 2);
    if c1 < p {
        assert(line[c1] == a[c1 - 2]);
    }
    if c1 > p {
        assert(line[p] != '}');
    }
    assert(c1 == p);
    assert(placeholder::placeholder_from(line, 0) == Some((0int, p)));
    // the second placeholder
    assert(placeholder::next_open(line, p + 1) == p + 1);
    crate::text::lemma_next_char_bounds(line, '}', p + 3);
    let c2 = crate::text::next_char(line, '}', p + 3);
    if c2 < n - 1 {
        assert(line[c2] == b[c2 - p - 3]);
    }
    if c2 == n {
        assert(line[n - 1] != '}');
    }
    assert(c2 == n - 1);
    assert(placeholder::placeholder_from(line, p + 1) == Some((p + 1, n - 1)));
    assert(placeholder::next_open(line, n) == n);
    assert(placeholder::placeholder_from(line, n) is None);
    assert(placeholder::placeholders_from(line, n) =~= Seq::<(int, int)>::empty());
    assert(placeholder::placeholders_from(line, p + 1) =~= seq![(p + 1, n - 1)]);
    let caps = placeholder::placeholders_from(line, 0);
    assert(caps =~= seq![(0int, p), (p + 1, n - 1)]);
    // their keys
    assert(!crate::text::is_white_space('}'));
    assert(crate::text::skip_ws_from(line, 2) == 2);
    assert(crate::text::skip_ws_from(line, p + 3) == p + 3);
    assert(placeholder::var_group(line, 0, p) =~= a);
    assert(placeholder::var_group(line, p + 1, n - 1) =~= b);
    lemma_trim_without_whitespace(a);
    lemma_trim_without_whitespace(b);
    assert(placeholder::placeholder_key(line, 0, p) == a);
    assert(placeholder::placeholder_key(line, p + 1, n - 1) == b);
    assert(line_keys(line) =~= seq![a, b]);
    let uses = line_uses(line, props_first, dict, env);
    assert(uses =~= seq![
        (a, resolve(a, props_first, dict, ea)),
        (b, resolve(b, props_first, dict, eb)),
    ]);
    let values = use_values(uses);
    let va = resolve(a, props_first, dict, ea).0;
    let vb = resolve(b, props_first, dict, eb).0;
    assert(values =~= seq![va, vb]);
    assert(placeholder::filled_prefix(line, caps, values, 0) =~= Seq::<char>::empty());
    assert(placeholder::filled_prefix(line, caps, values, 1) =~= va);
    assert(line.subrange(p + 1, p + 1) =~= Seq::<char>::empty());
    assert(placeholder::filled_prefix(line, caps, values, 2) =~= va + vb);
    assert(line.subrange(n, n) =~= Seq::<char>::empty());
    assert(fill(line, values) =~= va + vb);
    let ks = line_keys(line);
    assert(substitute::override_notes(ks, props_first, dict, env, 0) =~= Seq::<(Seq<char>, Seq<char>)>::empty());
    assert(substitute::override_notes(ks, props_first, dict, env, 1) =~= (if substitute::env_overrides(
        a,
        props_first,
        dict,
        ea,
    ) {
        seq![(a, dict->0[a].1)]
    } else {
        Seq::empty()
    }));
}

/// The line that says nothing was substituted.
pub open spec fn nothing_line() -> Seq<char> {
    "[No variables to substitute!]\n"@
}

/// Whether no line of `s` says that nothing was substituted.
spec fn without_nothing_line(s: Seq<Seq<char>>) -> bool {
    forall|i: int| 0 <= i < s.len() ==> #[trigger] s[i] != nothing_line()
}

/// A line that starts with another character than `[` is not that line.
proof fn lemma_not_nothing_line(l: Seq<char>)
    requires
        l.len() == 0 || l[0] != '[',
    ensures
        l != nothing_line(),
{
    reveal_strlit("[No variables to substitute!]\n");
    assert(nothing_line()[0] == '[');
}

proof fn lemma_without_nothing_line_concat(a: Seq<Seq<char>>, b: Seq<Seq<char>>)
    requires
        without_nothing_line(a),
        without_nothing_line(b),
    ensures
        without_nothing_line(a + b),
{
    assert forall|i: int| 0 <= i < (a + b).len() implies #[trigger] (a + b)[i] != nothing_line() by {
        if i < a.len() {
            assert((a + b)[i] == a[i]);
        } else {
            assert((a + b)[i] == b[i - a.len()]);
        }
    }
}

proof fn lemma_one_line(l: Seq<char>)
    requires
        l.len() == 0 || l[0] != '[',
    ensures
        without_nothing_line(seq![l]),
{
    lemma_not_nothing_line(l);
}

proof fn lemma_var_lines_without_nothing_line(keys: Seq<Seq<char>>)
    ensures
        without_nothing_line(report::var_lines(keys)),
{
    reveal_strlit("${");
    assert forall|i: int| 0 <= i < report::var_lines(keys).len() implies #[trigger] report::var_lines(
        keys,
    )[i] != nothing_line() by {
        let l = report::var_line(keys[i]);
        assert(l[0] == '$');
        lemma_not_nothing_line(l);
    }
}

proof fn lemma_source_blocks_without_nothing_line(u: UsesView, n: int)
    requires
        0 <= n <= u.len(),
    ensures
        without_nothing_line(report::source_blocks(u, n)),
    decreases n,
{
    reveal_strlit("# ");
    reveal_strlit("");
    if n > 0 {
        lemma_source_blocks_without_nothing_line(u, n - 1);
        if !report::is_marker(u[n - 1].0) {
            let title = "# "@ + u[n - 1].0 + ":"@;
            assert(title[0] == '#');
            lemma_one_line(title);
            lemma_one_line(""@);
            let prev = report::source_blocks(u, n - 1);
            let vl = report::var_lines(crate::order::sort_strings(report::key_names(u[n - 1].1)));
            lemma_var_lines_without_nothing_line(
                crate::order::sort_strings(report::key_names(u[n - 1].1)),
            );
            lemma_without_nothing_line_concat(prev, seq![title]);
            lemma_without_nothing_line_concat(prev + seq![title], vl);
            lemma_without_nothing_line_concat(prev + seq![title] + vl, seq![""@]);
        }
    } else {
        assert(report::source_blocks(u, 0) =~= Seq::<Seq<char>>::empty());
    }
}

proof fn lemma_count_keyfile_sources_grows(u: UsesView, m: int, n: int)
    requires
        0 <= m <= n <= u.len(),
    ensures
        report::count_keyfile_sources(u, m) <= report::count_keyfile_sources(u, n),
    decreases n,
{
    if m < n {
        lemma_count_keyfile_sources_grows(u, m, n - 1);
    }
}

/// The summary says that nothing was substituted exactly when no key was
/// used at all: not from the environment, not from a keyfile, and none was
/// missing.
pub proof fn law_nothing_to_substitute_only_when_nothing_used(u: UsesView, prop: Seq<char>)
    ensures
        report_lines(u, prop).contains(nothing_line()) <==> u.len() == 0,
{
    reveal_strlit("======== RESULTS ========");
    reveal_strlit("# Environment variables:");
    reveal_strlit("Missing variables found in ");
    reveal_strlit("...DONE!");
    reveal_strlit("");
    let r = report_lines(u, prop);
    let e = assoc::index_of(sources_of(u), env_source());
    let m = assoc::index_of(sources_of(u), missing_source());
    assoc::lemma_index_of(sources_of(u), env_source());
    assoc::lemma_index_of(sources_of(u), missing_source());
    if u.len() == 0 {
        assert(report::source_blocks(u, 0) =~= Seq::<Seq<char>>::empty());
        assert(r[1] == nothing_line());
    } else {
        let header = seq!["======== RESULTS ========"@];
        assert(header[0][0] == '=');
        lemma_one_line(header[0]);
        let env_block = if e < u.len() {
            seq!["# Environment variables:"@] + report::var_lines(report::key_names(u[e].1)) + seq![
                ""@,
            ]
        } else {
            Seq::empty()
        };
        if e < u.len() {
            assert("# Environment variables:"@[0] == '#');
            lemma_one_line("# Environment variables:"@);
            lemma_one_line(""@);
            lemma_var_lines_without_nothing_line(report::key_names(u[e].1));
            lemma_without_nothing_line_concat(
                seq!["# Environment variables:"@],
                report::var_lines(report::key_names(u[e].1)),
            );
            lemma_without_nothing_line_concat(
                seq!["# Environment variables:"@] + report::var_lines(report::key_names(u[e].1)),
                seq![""@],
            );
        }
        lemma_source_blocks_without_nothing_line(u, u.len() as int);
        let body = header + env_block + report::source_blocks(u, u.len() as int);
        lemma_without_nothing_line_concat(header, env_block);
        lemma_without_nothing_line_concat(header + env_block, report::source_blocks(u, u.len() as int));
        if m < u.len() {
            let title = "Missing variables found in "@ + prop + ":"@;
            assert(title[0] == 'M');
            lemma_one_line(title);
            lemma_one_line(""@);
            lemma_var_lines_without_nothing_line(report::key_names(u[m].1));
            lemma_without_nothing_line_concat(body, seq![title]);
            lemma_without_nothing_line_concat(body + seq![title], report::var_lines(report::key_names(u[m].1)));
            lemma_without_nothing_line_concat(
                body + seq![title] + report::var_lines(report::key_names(u[m].1)),
                seq![""@],
            );
            assert(r == body + seq![title] + report::var_lines(report::key_names(u[m].1)) + seq![""@]);
        } else {
            if e >= u.len() {
                // the first source is then a keyfile
                assert(sources_of(u)[0] != env_source());
                assert(sources_of(u)[0] != missing_source());
                assert(!report::is_marker(u[0].0));
                lemma_count_keyfile_sources_grows(u, 1, u.len() as int);
                assert(report::count_keyfile_sources(u, 0) == 0);
                assert(report::count_keyfile_sources(u, 1) == 1);
            }
            assert("...DONE!"@[0] == '.');
            lemma_one_line("...DONE!"@);
            assert(r == body + Seq::<Seq<char>>::empty() + seq!["...DONE!"@]);
            assert(body + Seq::<Seq<char>>::empty() =~= body);
            lemma_without_nothing_line_concat(body, seq!["...DONE!"@]);
        }
        assert(!r.contains(nothing_line()));
    }
}

} // verus!
