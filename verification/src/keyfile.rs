//! Keyfiles: lines of the form `KEY = VALUE` (with `#` starting a comment),
//! and how the keys of several keyfiles are merged into one dictionary.
use vstd::prelude::*;
use crate::assoc::{self, find_key};
use crate::keys::{self, KeysAndSources, KeysFromFiles, insert_key, strings_view};
use crate::substitute::{self, pairs_view};
use crate::text::{self, chars_of, find_char, skip_ws, string_of, white_space};

verus! {

/// First index at or after `i` holding whitespace or `=` (or `s.len()`).
pub open spec fn key_end(s: Seq<char>, i: int) -> int
    decreases s.len() - i,
{
    if i < 0 || i >= s.len() {
        s.len() as int
    } else if text::is_white_space(s[i]) || s[i] == '=' {
        i
    } else {
        key_end(s, i + 1)
    }
}

/// `key_end` stops at the first whitespace or `=` at or after `i`.
pub proof fn lemma_key_end_bounds(s: Seq<char>, i: int)
    requires
        0 <= i <= s.len(),
    ensures
        i <= key_end(s, i) <= s.len(),
        forall|j: int|
            i <= j < key_end(s, i) ==> !text::is_white_space(#[trigger] s[j]) && s[j] != '=',
        key_end(s, i) < s.len() ==> text::is_white_space(s[key_end(s, i)]) || s[key_end(s, i)]
            == '=',
    decreases s.len() - i,
{
    if i < s.len() && !text::is_white_space(s[i]) && s[i] != '=' {
        lemma_key_end_bounds(s, i + 1);
    }
}

/// The key and value that a line's text before its comment defines, as in
/// `KEY = VALUE`: the pattern `^\s*(?P<key>[^\s=]*)\s*=\s*(?P<val>.*)`. The
/// key is the run of characters other than whitespace and `=` after the
/// leading whitespace, so it ends at the first `=`; it must be followed by
/// `=` (possibly after whitespace), and the value is the rest after that
/// `=` with its leading whitespace removed.
pub open spec fn key_value_of(p: Seq<char>) -> Option<(Seq<char>, Seq<char>)> {
    let w = text::skip_ws_from(p, 0);
    let t = key_end(p, w);
    let a = text::skip_ws_from(p, t);
    if a < p.len() && p[a] == '=' {
        Some((p.subrange(w, t), p.subrange(text::skip_ws_from(p, a + 1), p.len() as int)))
    } else {
        None
    }
}

/// The key and value that a keyfile line defines, if any.
pub open spec fn key_line(line: Seq<char>) -> Option<(Seq<char>, Seq<char>)> {
    key_value_of(substitute::code_part(line))
}

/// The keys of a list of key/value pairs.
pub open spec fn pair_keys(e: Seq<(Seq<char>, Seq<char>)>) -> Seq<Seq<char>> {
    e.map_values(|p: (Seq<char>, Seq<char>)| p.0)
}

/// The pairs defined by the first `n` lines, each key with the value of the
/// first line that defines it, in the order the keys first appear.
pub open spec fn extract_upto(lines: Seq<Seq<char>>, n: int) -> Seq<(Seq<char>, Seq<char>)>
    decreases n,
{
    if n <= 0 {
        Seq::empty()
    } else {
        let prev = extract_upto(lines, n - 1);
        match key_line(lines[n - 1]) {
            Some(kv) => if assoc::index_of(pair_keys(prev), kv.0) < prev.len() {
                prev
            } else {
                prev.push(kv)
            },
            None => prev,
        }
    }
}

/// The key and value defined by `p` (see [`key_value_of`]).
fn parse_key_value(p: &Vec<char>) -> (r: Option<(String, String)>)
    ensures
        match r {
            Some(kv) => key_value_of(p@) == Some((kv.0@, kv.1@)),
            None => key_value_of(p@) is None,
        },
{
    let w = skip_ws(p, 0);
    proof {
        text::lemma_skip_ws_from_bounds(p@, 0);
    }
    let mut t = w;
    while t < p.len()
        invariant
            w <= t <= p@.len(),
            key_end(p@, w as int) == key_end(p@, t as int),
        ensures
            t == key_end(p@, w as int),
        decreases p@.len() - t,
    {
        if white_space(p[t]) || p[t] == '=' {
            break ;
        }
        t += 1;
    }
    let a = skip_ws(p, t);
    proof {
        text::lemma_skip_ws_from_bounds(p@, t as int);
    }
    if a < p.len() && p[a] == '=' {
        let v = skip_ws(p, a + 1);
        proof {
            text::lemma_skip_ws_from_bounds(p@, a + 1);
        }
        Some((string_of(p, w, t), string_of(p, v, p.len())))
    } else {
        None
    }
}

/// The key and value that one keyfile line defines, if any (see
/// [`key_line`]).
pub fn parse_key_line(line: &str) -> (r: Option<(String, String)>)
    ensures
        match r {
            Some(kv) => key_line(line@) == Some((kv.0@, kv.1@)),
            None => key_line(line@) is None,
        },
{
    let lv = chars_of(line);
    let cs = find_char(&lv, '#', 0);
    proof {
        text::lemma_next_char_bounds(lv@, '#', 0);
    }
    let mut code: Vec<char> = Vec::new();
    text::extend_chars(&mut code, &lv, 0, cs);
    parse_key_value(&code)
}

/// The keys and values defined by the lines of a keyfile: for each key the
/// value of the first line that defines it, in the order the keys first
/// appear (see [`extract_upto`]).
pub fn extract_keys(lines: &Vec<String>) -> (r: Vec<(String, String)>)
    ensures
        pairs_view(r@) == extract_upto(strings_view(lines@), lines@.len() as int),
{
    let ghost ls = strings_view(lines@);
    let mut r: Vec<(String, String)> = Vec::new();
    let mut i: usize = 0;
    while i < lines.len()
        invariant
            i <= lines@.len(),
            ls == strings_view(lines@),
            pairs_view(r@) == extract_upto(ls, i as int),
        decreases lines@.len() - i,
    {
        let parsed = parse_key_line(lines[i].as_str());
        assert(ls[i as int] == lines@[i as int]@);
        match parsed {
            Some((k, v)) => {
                let p = find_key(&r, &k);
                assert(assoc::keys_of(r@) =~= pair_keys(pairs_view(r@)));
                if p == r.len() {
                    r.push((k, v));
                    assert(pairs_view(r@) =~= extract_upto(ls, i + 1));
                } else {
                    proof {
                        assoc::lemma_index_of(assoc::keys_of(r@), k@);
                    }
                }
            },
            None => {},
        }
        i += 1;
    }
    r
}

/// Notice that a key of a keyfile replaced the same key from an earlier one.
pub struct ShadowNotice {
    pub key: String,
    pub filename: String,
    /// The keyfile whose value was replaced.
    pub previous: String,
}

impl View for ShadowNotice {
    type V = (Seq<char>, Seq<char>, Seq<char>);

    open spec fn view(&self) -> (Seq<char>, Seq<char>, Seq<char>) {
        (self.key@, self.filename@, self.previous@)
    }
}

/// A key of a keyfile that an earlier keyfile already defines, when keys may
/// not shadow each other.
pub struct KeyConflict {
    pub key: String,
    pub filename: String,
    /// The keyfile that defined the key first.
    pub existing: String,
}

impl View for KeyConflict {
    type V = (Seq<char>, Seq<char>, Seq<char>);

    open spec fn view(&self) -> (Seq<char>, Seq<char>, Seq<char>) {
        (self.key@, self.filename@, self.existing@)
    }
}

pub open spec fn shadow_text(key: Seq<char>, filename: Seq<char>, previous: Seq<char>) -> Seq<char> {
    "[WARN]: key ("@ + key + ") in file ("@ + filename + ") overrides the same key from file ("@
        + previous + ")"@
}

pub open spec fn conflict_text(key: Seq<char>, filename: Seq<char>, existing: Seq<char>) -> Seq<
    char,
> {
    "[ERROR]: key ("@ + key + ") in file ("@ + filename
        + ") tried to override the same key from file ("@ + existing + ")"@
}

impl ShadowNotice {
    /// The notice as it is shown to the user.
    pub fn message(&self) -> (s: String)
        ensures
            s@ == shadow_text(self.key@, self.filename@, self.previous@),
    {
        let mut s = String::from_str("[WARN]: key (");
        text::push_str(&mut s, self.key.as_str());
        text::push_str(&mut s, ") in file (");
        text::push_str(&mut s, self.filename.as_str());
        text::push_str(&mut s, ") overrides the same key from file (");
        text::push_str(&mut s, self.previous.as_str());
        text::push_str(&mut s, ")");
        s
    }
}

impl KeyConflict {
    /// The error as it is shown to the user.
    pub fn message(&self) -> (s: String)
        ensures
            s@ == conflict_text(self.key@, self.filename@, self.existing@),
    {
        let mut s = String::from_str("[ERROR]: key (");
        text::push_str(&mut s, self.key.as_str());
        text::push_str(&mut s, ") in file (");
        text::push_str(&mut s, self.filename.as_str());
        text::push_str(&mut s, ") tried to override the same key from file (");
        text::push_str(&mut s, self.existing.as_str());
        text::push_str(&mut s, ")");
        s
    }
}

pub type DictView = Map<Seq<char>, (Seq<char>, Seq<char>)>;

pub type SourcesView = Map<Seq<char>, Seq<Seq<char>>>;

pub type NoteView = (Seq<char>, Seq<char>, Seq<char>);

/// The dictionary, the keys per keyfile, the shadow notices and the conflict
/// (if any) after the first `n` of `entries` from the keyfile `file`. A key
/// not yet defined is added; a key already defined is replaced (with a
/// notice) when `shadow` is set, and is a conflict that stops the merge
/// otherwise.
pub open spec fn absorb(
    d: DictView,
    k: SourcesView,
    entries: Seq<(Seq<char>, Seq<char>)>,
    file: Seq<char>,
    shadow: bool,
    n: int,
) -> (DictView, SourcesView, Seq<NoteView>, Option<NoteView>)
    decreases n,
{
    if n <= 0 {
        (d, k, Seq::empty(), None)
    } else {
        let prev = absorb(d, k, entries, file, shadow, n - 1);
        if prev.3 is Some {
            prev
        } else {
            let key = entries[n - 1].0;
            let val = entries[n - 1].1;
            if prev.0.contains_key(key) {
                if shadow {
                    (
                        prev.0.insert(key, (val, file)),
                        keys::add_key(prev.1, file, key),
                        prev.2.push((key, file, prev.0[key].1)),
                        None,
                    )
                } else {
                    (prev.0, prev.1, prev.2, Some((key, file, prev.0[key].1)))
                }
            } else {
                (prev.0.insert(key, (val, file)), keys::add_key(prev.1, file, key), prev.2, None)
            }
        }
    }
}

/// Once the merge has stopped at a conflict, later entries change nothing.
pub proof fn lemma_absorb_stops(
    d: DictView,
    k: SourcesView,
    entries: Seq<(Seq<char>, Seq<char>)>,
    file: Seq<char>,
    shadow: bool,
    m: int,
    n: int,
)
    requires
        0 <= m <= n,
        absorb(d, k, entries, file, shadow, m).3 is Some,
    ensures
        absorb(d, k, entries, file, shadow, n) == absorb(d, k, entries, file, shadow, m),
    decreases n,
{
    if n > m {
        lemma_absorb_stops(d, k, entries, file, shadow, m, n - 1);
    }
}

/// Without shadowing there are no notices; with it there is no conflict.
pub proof fn lemma_absorb_modes(
    d: DictView,
    k: SourcesView,
    entries: Seq<(Seq<char>, Seq<char>)>,
    file: Seq<char>,
    shadow: bool,
    n: int,
)
    ensures
        !shadow ==> absorb(d, k, entries, file, shadow, n).2 == Seq::<NoteView>::empty(),
        shadow ==> absorb(d, k, entries, file, shadow, n).3 is None,
    decreases n,
{
    if n > 0 {
        lemma_absorb_modes(d, k, entries, file, shadow, n - 1);
    }
}

/// Merges the keys and values of the keyfile `filename` into `dict` (see
/// [`absorb`]): returns the shadow notices, or the conflict that stopped the
/// merge (the keys before it are merged).
pub fn insert_if_not_exist(
    dict: &mut KeysAndSources,
    keys_from_files: &mut KeysFromFiles,
    matches: Vec<(String, String)>,
    filename: String,
    shadow: bool,
) -> (r: Result<Vec<ShadowNotice>, KeyConflict>)
    ensures
        ({
            let s = absorb(
                old(dict)@,
                old(keys_from_files)@,
                pairs_view(matches@),
                filename@,
                shadow,
                matches@.len() as int,
            );
            &&& final(dict)@ == s.0
            &&& final(keys_from_files)@ == s.1
            &&& match r {
                Ok(notes) => s.3 is None && notes@.map_values(|w: ShadowNotice| w@) == s.2,
                Err(c) => s.3 == Some(c@),
            }
        }),
{
    let ghost entries = pairs_view(matches@);
    let ghost d0 = dict@;
    let ghost k0 = keys_from_files@;
    let mut notes: Vec<ShadowNotice> = Vec::new();
    let mut i: usize = 0;
    while i < matches.len()
        invariant
            i <= matches@.len(),
            entries == pairs_view(matches@),
            d0 == old(dict)@,
            k0 == old(keys_from_files)@,
            ({
                let s = absorb(d0, k0, entries, filename@, shadow, i as int);
                &&& dict@ == s.0
                &&& keys_from_files@ == s.1
                &&& s.3 is None
                &&& notes@.map_values(|w: ShadowNotice| w@) == s.2
            }),
        decreases matches@.len() - i,
    {
        let key = matches[i].0.clone();
        let val = matches[i].1.clone();
        assert(entries[i as int] == (key@, val@));
        let ghost prev = absorb(d0, k0, entries, filename@, shadow, i as int);
        let existing = match dict.get(&key) {
            Some(vs) => Some(vs.source.clone()),
            None => None,
        };
        match existing {
            Some(previous) => {
                if shadow {
                    let ghost old_notes = notes@;
                    notes.push(
                        ShadowNotice { key: key.clone(), filename: filename.clone(), previous },
                    );
                    assert(notes@.map_values(|w: ShadowNotice| w@) =~= old_notes.map_values(
                        |w: ShadowNotice| w@,
                    ).push((key@, filename@, prev.0[key@].1)));
                    insert_key(dict, keys_from_files, val, filename.clone(), key);
                } else {
                    proof {
                        assert(dict@.contains_key(key@));
                        assert(absorb(d0, k0, entries, filename@, shadow, i + 1).3 == Some(
                            (key@, filename@, previous@),
                        ));
                        lemma_absorb_stops(
                            d0,
                            k0,
                            entries,
                            filename@,
                            shadow,
                            i + 1,
                            matches@.len() as int,
                        );
                    }
                    let c = KeyConflict { key, filename: filename.clone(), existing: previous };
                    assert(absorb(d0, k0, entries, filename@, shadow, matches@.len() as int).3
                        == Some(c@));
                    assert(dict@ == absorb(d0, k0, entries, filename@, shadow, matches@.len() as int).0);
                    assert(keys_from_files@ == absorb(d0, k0, entries, filename@, shadow, matches@.len() as int).1);
                    return Err(c);
                }
            },
            None => {
                insert_key(dict, keys_from_files, val, filename.clone(), key);
            },
        }
        i += 1;
    }
    Ok(notes)
}

/// Why the keyfiles could not be merged.
pub enum KeyfileError {
    /// The keyfile could not be read.
    Unreadable(String),
    /// A key was defined twice while shadowing was off.
    Conflict(KeyConflict),
}

/// [`KeyfileError`] by its views.
pub enum KeyfileErrorView {
    Unreadable(Seq<char>),
    Conflict(NoteView),
}

impl View for KeyfileError {
    type V = KeyfileErrorView;

    open spec fn view(&self) -> KeyfileErrorView {
        match self {
            KeyfileError::Unreadable(f) => KeyfileErrorView::Unreadable(f@),
            KeyfileError::Conflict(c) => KeyfileErrorView::Conflict(c@),
        }
    }
}

/// A keyfile's name and its lines, or `None` when it could not be read.
pub type KeyfileLinesView = (Seq<char>, Option<Seq<Seq<char>>>);

/// The dictionary, keys per keyfile, shadow notices and failure (if any)
/// after merging the first `n` keyfiles in order.
pub open spec fn merge_files(files: Seq<KeyfileLinesView>, shadow: bool, n: int) -> (
    DictView,
    SourcesView,
    Seq<NoteView>,
    Option<KeyfileErrorView>,
)
    decreases n,
{
    if n <= 0 {
        (Map::empty(), Map::empty(), Seq::empty(), None)
    } else {
        let prev = merge_files(files, shadow, n - 1);
        if prev.3 is Some {
            prev
        } else {
            match files[n - 1].1 {
                None => (prev.0, prev.1, prev.2, Some(KeyfileErrorView::Unreadable(files[n - 1].0))),
                Some(lines) => {
                    let entries = extract_upto(lines, lines.len() as int);
                    let s = absorb(prev.0, prev.1, entries, files[n - 1].0, shadow, entries.len() as int);
                    (
                        s.0,
                        s.1,
                        prev.2 + s.2,
                        match s.3 {
                            Some(c) => Some(KeyfileErrorView::Conflict(c)),
                            None => None,
                        },
                    )
                },
            }
        }
    }
}

/// Once the merge has stopped, later keyfiles change nothing.
pub proof fn lemma_merge_stops(files: Seq<KeyfileLinesView>, shadow: bool, m: int, n: int)
    requires
        0 <= m <= n,
        merge_files(files, shadow, m).3 is Some,
    ensures
        merge_files(files, shadow, n) == merge_files(files, shadow, m),
    decreases n,
{
    if n > m {
        lemma_merge_stops(files, shadow, m, n - 1);
    }
}

/// A keyfile by its views.
pub open spec fn keyfile_view(f: (String, Option<Vec<String>>)) -> KeyfileLinesView {
    (
        f.0@,
        match f.1 {
            Some(l) => Some(strings_view(l@)),
            None => None,
        },
    )
}

/// The outcome of merging keyfiles: the shadow notices (in order), then the
/// dictionary (`None` when it is empty) or why the merge stopped.
pub struct KeyfilesOutcome {
    pub notices: Vec<ShadowNotice>,
    pub result: Result<Option<KeysAndSources>, KeyfileError>,
}

/// Merges the keyfiles in order into one dictionary (see [`merge_files`]);
/// each keyfile is given by its name and its lines, or `None` when it could
/// not be read. A keyfile that could not be read stops the merge with
/// [`KeyfileError::Unreadable`] rather than aborting here: the caller, which
/// did the reading, decides how the program ends (the tool stops at once,
/// as it does for any keyfile it cannot open).
pub fn read_keyfiles_to_dict(key_files: Vec<(String, Option<Vec<String>>)>, shadow: bool) -> (r:
    KeyfilesOutcome)
    ensures
        ({
            let files = key_files@.map_values(|f: (String, Option<Vec<String>>)| keyfile_view(f));
            let s = merge_files(files, shadow, files.len() as int);
            &&& r.notices@.map_values(|w: ShadowNotice| w@) == s.2
            &&& match r.result {
                Ok(d) => s.3 is None && match d {
                    Some(k) => s.0 != Map::<Seq<char>, (Seq<char>, Seq<char>)>::empty() && k@
                        == s.0,
                    None => s.0 == Map::<Seq<char>, (Seq<char>, Seq<char>)>::empty(),
                },
                Err(e) => s.3 == Some(e@),
            }
        }),
{
    let ghost files = key_files@.map_values(
        |f: (String, Option<Vec<String>>)| keyfile_view(f),
    );
    let mut dict = KeysAndSources::new();
    let mut keys_from_files = KeysFromFiles::new();
    let mut notices: Vec<ShadowNotice> = Vec::new();
    let mut i: usize = 0;
    while i < key_files.len()
        invariant
            i <= key_files@.len(),
            files == key_files@.map_values(
                |f: (String, Option<Vec<String>>)| keyfile_view(f),
            ),
            ({
                let s = merge_files(files, shadow, i as int);
                &&& dict@ == s.0
                &&& keys_from_files@ == s.1
                &&& s.3 is None
                &&& notices@.map_values(|w: ShadowNotice| w@) == s.2
            }),
        decreases key_files@.len() - i,
    {
        let ghost prev = merge_files(files, shadow, i as int);
        assert(files[i as int] == keyfile_view(key_files@[i as int]));
        match &key_files[i].1 {
            None => {
                proof {
                    lemma_merge_stops(files, shadow, i + 1, files.len() as int);
                }
                return KeyfilesOutcome {
                    notices,
                    result: Err(KeyfileError::Unreadable(key_files[i].0.clone())),
                };
            },
            Some(lines) => {
                let entries = extract_keys(lines);
                let ghost ev = pairs_view(entries@);
                let ghost n = entries@.len();
                assert(files[i as int].1 == Some(strings_view(lines@)));
                assert(ev == extract_upto(strings_view(lines@), lines@.len() as int));
                let outcome = insert_if_not_exist(
                    &mut dict,
                    &mut keys_from_files,
                    entries,
                    key_files[i].0.clone(),
                    shadow,
                );
                match outcome {
                    Ok(more) => {
                        let ghost old_notices = notices@;
                        let mut more = more;
                        notices.append(&mut more);
                        assert(notices@.map_values(|w: ShadowNotice| w@) =~= old_notices.map_values(
                            |w: ShadowNotice| w@,
                        ) + absorb(prev.0, prev.1, ev, files[i as int].0, shadow, n as int).2);
                    },
                    Err(c) => {
                        proof {
                            lemma_absorb_modes(prev.0, prev.1, ev, files[i as int].0, shadow, n as int);
                            assert(prev.2 + Seq::<NoteView>::empty() == prev.2);
                            assert(merge_files(files, shadow, i + 1).3 == Some(
                                KeyfileErrorView::Conflict(c@),
                            ));
                            lemma_merge_stops(files, shadow, i + 1, files.len() as int);
                        }
                        return KeyfilesOutcome {
                            notices,
                            result: Err(KeyfileError::Conflict(c)),
                        };
                    },
                }
            },
        }
        i += 1;
    }
    if dict.is_empty() {
        KeyfilesOutcome { notices, result: Ok(None) }
    } else {
        KeyfilesOutcome { notices, result: Ok(Some(dict)) }
    }
}

} // verus!
