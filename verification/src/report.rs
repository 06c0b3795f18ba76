//! The summary shown after a property file was processed: which keys came
//! from the environment, which from each keyfile, and which are missing.
use vstd::prelude::*;
use crate::assoc;
use crate::keys::strings_view;
use crate::order::{sort_strings, sorted_strings};
use crate::substitute::{
    self,
    UsedKeys,
    UsesView,
    env_source,
    env_source_string,
    missing_source,
    missing_source_string,
    pairs_view,
    sources_of,
};
use crate::text;

verus! {

/// The keys of a list of key/value pairs.
pub open spec fn key_names(pairs: Seq<(Seq<char>, Seq<char>)>) -> Seq<Seq<char>> {
    pairs.map_values(|p: (Seq<char>, Seq<char>)| p.0)
}

/// How a key is listed: `${KEY}`.
pub open spec fn var_line(key: Seq<char>) -> Seq<char> {
    "${"@ + key + "}"@
}

pub open spec fn var_lines(keys: Seq<Seq<char>>) -> Seq<Seq<char>> {
    keys.map_values(|k: Seq<char>| var_line(k))
}

/// Whether a source is one of the two markers rather than a keyfile.
pub open spec fn is_marker(source: Seq<char>) -> bool {
    source == env_source() || source == missing_source()
}

/// The blocks of the first `n` keyfile sources: a title, the keys used from
/// the source in sorted order, and an empty line.
pub open spec fn source_blocks(u: UsesView, n: int) -> Seq<Seq<char>>
    decreases n,
{
    if n <= 0 {
        Seq::empty()
    } else {
        let prev = source_blocks(u, n - 1);
        if is_marker(u[n - 1].0) {
            prev
        } else {
            prev + seq!["# "@ + u[n - 1].0 + ":"@] + var_lines(sort_strings(key_names(u[n - 1].1)))
                + seq![""@]
        }
    }
}

/// The number of keyfile sources among the first `n`.
pub open spec fn count_keyfile_sources(u: UsesView, n: int) -> int
    decreases n,
{
    if n <= 0 {
        0
    } else {
        count_keyfile_sources(u, n - 1) + if is_marker(u[n - 1].0) {
            0int
        } else {
            1int
        }
    }
}

/// The lines of the summary for the used keys `u` of the property file `prop`.
pub open spec fn report_lines(u: UsesView, prop: Seq<char>) -> Seq<Seq<char>> {
    let e = assoc::index_of(sources_of(u), env_source());
    let m = assoc::index_of(sources_of(u), missing_source());
    let env_block = if e < u.len() {
        seq!["# Environment variables:"@] + var_lines(key_names(u[e].1)) + seq![""@]
    } else {
        Seq::empty()
    };
    let body = seq!["======== RESULTS ========"@] + env_block + source_blocks(u, u.len() as int);
    if m < u.len() {
        body + seq!["Missing variables found in "@ + prop + ":"@] + var_lines(key_names(u[m].1))
            + seq![""@]
    } else {
        body + (if e >= u.len() && count_keyfile_sources(u, u.len() as int) == 0 {
            seq!["[No variables to substitute!]\n"@]
        } else {
            Seq::empty()
        }) + seq!["...DONE!"@]
    }
}

/// Whether some key was missing, which makes the run fail.
pub open spec fn report_fails(u: UsesView) -> bool {
    assoc::index_of(sources_of(u), missing_source()) < u.len()
}

/// The error shown when some key was missing.
pub open spec fn missing_error() -> Seq<char> {
    "ERROR: Must replace all found variables\n\n"@
}

/// The summary: the lines to show, and the error to report when some key
/// was missing.
pub struct Report {
    pub lines: Vec<String>,
    pub error: Option<String>,
}

/// `${KEY}` for each of `keys`.
fn push_var_lines(lines: &mut Vec<String>, keys: &Vec<String>)
    ensures
        strings_view(final(lines)@) == strings_view(old(lines)@) + var_lines(strings_view(keys@)),
{
    let ghost start = strings_view(lines@);
    let mut i: usize = 0;
    while i < keys.len()
        invariant
            i <= keys@.len(),
            strings_view(lines@) == start + var_lines(strings_view(keys@)).take(i as int),
        decreases keys@.len() - i,
    {
        let mut l = String::from_str("${");
        text::push_str(&mut l, keys[i].as_str());
        text::push_str(&mut l, "}");
        assert(l@ == var_line(keys@[i as int]@));
        push_line(lines, l);
        assert(var_lines(strings_view(keys@)).take(i + 1) =~= var_lines(strings_view(keys@)).take(
            i as int,
        ).push(var_line(keys@[i as int]@)));
        i += 1;
    }
    assert(var_lines(strings_view(keys@)).take(i as int) =~= var_lines(strings_view(keys@)));
}

/// The keys of a list of key/value pairs.
fn key_names_of(pairs: &Vec<(String, String)>) -> (r: Vec<String>)
    ensures
        strings_view(r@) == key_names(pairs_view(pairs@)),
{
    let mut r: Vec<String> = Vec::new();
    let mut i: usize = 0;
    while i < pairs.len()
        invariant
            i <= pairs@.len(),
            strings_view(r@) == key_names(pairs_view(pairs@)).take(i as int),
        decreases pairs@.len() - i,
    {
        let k = pairs[i].0.clone();
        assert(k@ == key_names(pairs_view(pairs@))[i as int]);
        push_line(&mut r, k);
        assert(key_names(pairs_view(pairs@)).take(i + 1) =~= key_names(pairs_view(pairs@)).take(
            i as int,
        ).push(k@));
        i += 1;
    }
    assert(key_names(pairs_view(pairs@)).take(i as int) =~= key_names(pairs_view(pairs@)));
    r
}

/// Appends a line.
fn push_line(lines: &mut Vec<String>, l: String)
    ensures
        strings_view(final(lines)@) == strings_view(old(lines)@).push(l@),
{
    lines.push(l);
    assert(strings_view(lines@) =~= strings_view(old(lines)@).push(l@));
}

/// The summary of the keys used for the property file `prop_filename`
/// (see [`report_lines`]); the error is reported exactly when some key was
/// missing. The lists of environment variables and of missing keys are
/// taken out of the record; the keyfile sources stay in it.
pub fn result_report(used_keys: &mut UsedKeys, prop_filename: &str) -> (r: Report)
    ensures
        strings_view(r.lines@) == report_lines(old(used_keys)@, prop_filename@),
        match r.error {
            Some(e) => report_fails(old(used_keys)@) && e@ == missing_error(),
            None => !report_fails(old(used_keys)@),
        },
        final(used_keys)@ == substitute::without_source(
            substitute::without_source(old(used_keys)@, env_source()),
            missing_source(),
        ),
{
    let ghost u = used_keys@;
    let env = env_source_string();
    let missing = missing_source_string();
    let n = used_keys.len();
    let e = used_keys.find_source(&env);
    let m = used_keys.find_source(&missing);
    proof {
        assoc::lemma_index_of(sources_of(u), env_source());
        assoc::lemma_index_of(sources_of(u), missing_source());
    }
    let mut lines: Vec<String> = Vec::new();
    push_line(&mut lines, String::from_str("======== RESULTS ========"));
    let ghost env_block = if e < n {
        seq!["# Environment variables:"@] + var_lines(key_names(u[e as int].1)) + seq![""@]
    } else {
        Seq::<Seq<char>>::empty()
    };
    if e < n {
        push_line(&mut lines, String::from_str("# Environment variables:"));
        let (_, pairs) = used_keys.entry(e);
        let names = key_names_of(pairs);
        push_var_lines(&mut lines, &names);
        push_line(&mut lines, String::from_str(""));
    }
    let ghost body_start = strings_view(lines@);
    assert(body_start =~= seq!["======== RESULTS ========"@] + env_block);
    let mut plain: usize = 0;
    let mut i: usize = 0;
    while i < n
        invariant
            i <= n == u.len(),
            u == used_keys@,
            env@ == env_source(),
            missing@ == missing_source(),
            plain as int == count_keyfile_sources(u, i as int),
            plain <= i,
            strings_view(lines@) == body_start + source_blocks(u, i as int),
        decreases n - i,
    {
        let (src, pairs) = used_keys.entry(i);
        let ghost before = strings_view(lines@);
        if !(*src == env || *src == missing) {
            let mut title = String::from_str("# ");
            text::push_str(&mut title, src.as_str());
            text::push_str(&mut title, ":");
            let ghost t = title@;
            push_line(&mut lines, title);
            let names = key_names_of(pairs);
            let sorted = sorted_strings(&names);
            push_var_lines(&mut lines, &sorted);
            push_line(&mut lines, String::from_str(""));
            let ghost block = seq![t] + var_lines(sort_strings(key_names(u[i as int].1))) + seq![
                ""@,
            ];
            assert(strings_view(lines@) =~= before + block);
            assert(source_blocks(u, i + 1) == source_blocks(u, i as int) + block);
            plain += 1;
        }
        i += 1;
    }
    let ghost body = body_start + source_blocks(u, n as int);
    assert(strings_view(lines@) == body);
    if m < n {
        let mut title = String::from_str("Missing variables found in ");
        text::push_str(&mut title, prop_filename);
        text::push_str(&mut title, ":");
        push_line(&mut lines, title);
        let (_, pairs) = used_keys.entry(m);
        let names = key_names_of(pairs);
        push_var_lines(&mut lines, &names);
        push_line(&mut lines, String::from_str(""));
        assert(strings_view(lines@) =~= body + seq!["Missing variables found in "@ + prop_filename@
            + ":"@] + var_lines(key_names(u[m as int].1)) + seq![""@]);
        used_keys.remove("ENV");
        used_keys.remove("Missing properties");
        Report {
            lines,
            error: Some(String::from_str("ERROR: Must replace all found variables\n\n")),
        }
    } else {
        let ghost extra = if e >= n && plain == 0 {
            seq!["[No variables to substitute!]\n"@]
        } else {
            Seq::<Seq<char>>::empty()
        };
        if e >= n && plain == 0 {
            push_line(&mut lines, String::from_str("[No variables to substitute!]\n"));
        }
        push_line(&mut lines, String::from_str("...DONE!"));
        assert(strings_view(lines@) =~= body + extra + seq!["...DONE!"@]);
        used_keys.remove("ENV");
        used_keys.remove("Missing properties");
        Report { lines, error: None }
    }
}

} // verus!
