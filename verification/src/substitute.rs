//! Substitution of the placeholders of one line of a property file, and the
//! record of which keys were used from which source.
use vstd::prelude::*;
use crate::assoc::{self, find_key};
use crate::keys::{KeysAndSources, ValueAndSource, strings_view};
use crate::placeholder::{self, find_placeholder};
use crate::text::{self, chars_of, extend_chars, find_char, skip_ws, string_of, trimmed};

verus! {

/// The source recorded for values taken from environment variables.
pub open spec fn env_source() -> Seq<char> {
    "ENV"@
}

/// The source recorded for keys that no keyfile and no environment variable
/// defines (their value is the key itself).
pub open spec fn missing_source() -> Seq<char> {
    "Missing properties"@
}

/// `ENV`, the source recorded for environment variables.
pub fn env_source_string() -> (s: String)
    ensures
        s@ == env_source(),
{
    String::from_str("ENV")
}

/// `Missing properties`, the source recorded for undefined keys.
pub fn missing_source_string() -> (s: String)
    ensures
        s@ == missing_source(),
{
    String::from_str("Missing properties")
}

/// What the environment holds for a key.
pub enum EnvLookup {
    /// No such environment variable.
    Unset,
    /// The variable is set to this text.
    Value(String),
    /// The variable is set, but not to valid Unicode.
    NotUnicode,
}

/// The dictionary, if there is one, as a map.
pub open spec fn dict_view(keys: Option<KeysAndSources>) -> Option<
    Map<Seq<char>, (Seq<char>, Seq<char>)>,
> {
    match keys {
        Some(k) => Some(k@),
        None => None,
    }
}

/// The text of an environment variable, when it is set to valid Unicode.
pub open spec fn env_text(env: EnvLookup) -> Option<Seq<char>> {
    match env {
        EnvLookup::Value(e) => Some(e@),
        _ => None,
    }
}

/// Value and source of a key that the dictionary does not define.
pub open spec fn env_or_missing(key: Seq<char>, env: Option<Seq<char>>) -> (Seq<char>, Seq<char>) {
    match env {
        Some(e) => (e, env_source()),
        None => (key, missing_source()),
    }
}

/// The value and source that `key` resolves to. With a dictionary that
/// defines the key, its entry wins when `props_first` is set, and a set
/// environment variable wins otherwise; a key that the dictionary does not
/// define takes the environment variable, or else stays as it is and is
/// marked missing.
pub open spec fn resolve(
    key: Seq<char>,
    props_first: bool,
    dict: Option<Map<Seq<char>, (Seq<char>, Seq<char>)>>,
    env: EnvLookup,
) -> (Seq<char>, Seq<char>) {
    match dict {
        Some(d) => if d.contains_key(key) {
            if props_first {
                d[key]
            } else {
                match env_text(env) {
                    Some(e) => (e, env_source()),
                    None => d[key],
                }
            }
        } else {
            env_or_missing(key, env_text(env))
        },
        None => env_or_missing(key, env_text(env)),
    }
}

/// Whether an environment variable overrides the dictionary's entry for `key`.
pub open spec fn env_overrides(
    key: Seq<char>,
    props_first: bool,
    dict: Option<Map<Seq<char>, (Seq<char>, Seq<char>)>>,
    env: EnvLookup,
) -> bool {
    &&& dict matches Some(d)
    &&& d.contains_key(key)
    &&& !props_first
    &&& env is Value
}

/// Notice that an environment variable overrode a key from a keyfile.
pub struct EnvOverride {
    pub key: String,
    /// The keyfile whose value was overridden.
    pub source: String,
}

impl View for EnvOverride {
    type V = (Seq<char>, Seq<char>);

    open spec fn view(&self) -> (Seq<char>, Seq<char>) {
        (self.key@, self.source@)
    }
}

/// The text of an override notice.
pub open spec fn env_override_text(key: Seq<char>, source: Seq<char>) -> Seq<char> {
    "[WARNING]: key \"${"@ + key + "}\" from \""@ + source
        + "\" was overridden by an environment variable."@
}

impl EnvOverride {
    /// The notice as it is shown to the user.
    pub fn message(&self) -> (s: String)
        ensures
            s@ == env_override_text(self.key@, self.source@),
    {
        let mut s = String::from_str("[WARNING]: key \"${");
        text::push_str(&mut s, self.key.as_str());
        text::push_str(&mut s, "}\" from \"");
        text::push_str(&mut s, self.source.as_str());
        text::push_str(&mut s, "\" was overridden by an environment variable.");
        s
    }
}

/// Resolution of a key that no dictionary entry covers: the environment
/// variable's text with the source `ENV`, or else the key itself marked
/// missing.
pub fn no_property(key: &str, env: Option<String>) -> (r: Option<(String, ValueAndSource)>)
    ensures
        r matches Some(p) && p.0@ == key@ && p.1@ == env_or_missing(
            key@,
            match env {
                Some(e) => Some(e@),
                None => None,
            },
        ),
{
    match env {
        Some(e) => Some(
            (String::from_str(key), ValueAndSource { value: e, source: env_source_string() }),
        ),
        None => Some(
            (
                String::from_str(key),
                ValueAndSource { value: String::from_str(key), source: missing_source_string() },
            ),
        ),
    }
}

/// Resolves `key` against the dictionary and the environment (see
/// [`resolve`]); the second part of the result reports when an environment
/// variable overrode a keyfile's entry.
pub fn env_or_prop(key: &str, props_first: bool, keys: &Option<KeysAndSources>, env: &EnvLookup) -> (r: (
    Option<(String, ValueAndSource)>,
    Option<EnvOverride>,
))
    requires
        keys is Some ==> !(env is NotUnicode),
    ensures
        r.0 matches Some(p) && p.0@ == key@ && p.1@ == resolve(
            key@,
            props_first,
            dict_view(*keys),
            *env,
        ),
        match r.1 {
            Some(w) => env_overrides(key@, props_first, dict_view(*keys), *env) && w@ == (
                key@,
                dict_view(*keys)->0[key@].1,
            ),
            None => !env_overrides(key@, props_first, dict_view(*keys), *env),
        },
{
    let env_value: Option<String> = match env {
        EnvLookup::Value(e) => Some(e.clone()),
        _ => None,
    };
    match keys {
        Some(k) => {
            let key_string = String::from_str(key);
            match k.get(&key_string) {
                Some(prop) => {
                    if props_first {
                        (Some((key_string, prop.duplicate())), None)
                    } else {
                        match env_value {
                            Some(e) => {
                                let w = EnvOverride {
                                    key: String::from_str(key),
                                    source: prop.source.clone(),
                                };
                                (
                                    Some(
                                        (
                                            key_string,
                                            ValueAndSource { value: e, source: env_source_string() },
                                        ),
                                    ),
                                    Some(w),
                                )
                            },
                            None => (Some((key_string, prop.duplicate())), None),
                        }
                    }
                },
                None => (no_property(key, env_value), None),
            }
        },
        None => (no_property(key, env_value), None),
    }
}

/// Where the comment of a line starts: its first `#`, or its end.
pub open spec fn comment_start(line: Seq<char>) -> int {
    text::next_char(line, '#', 0)
}

/// The part of a line before its first `#`.
pub open spec fn code_part(line: Seq<char>) -> Seq<char> {
    line.subrange(0, comment_start(line))
}

/// The part of a line from its first `#` on (empty when there is none).
pub open spec fn comment_part(line: Seq<char>) -> Seq<char> {
    line.subrange(comment_start(line), line.len() as int)
}

/// The keys that the placeholders of a line name, in order.
pub open spec fn line_keys(line: Seq<char>) -> Seq<Seq<char>> {
    placeholder::placeholder_keys_of(code_part(line))
}

/// For each placeholder of a line, its key and what it resolves to; `env[i]`
/// is what the environment holds for the `i`-th key.
pub open spec fn line_uses(
    line: Seq<char>,
    props_first: bool,
    dict: Option<Map<Seq<char>, (Seq<char>, Seq<char>)>>,
    env: Seq<EnvLookup>,
) -> Seq<(Seq<char>, (Seq<char>, Seq<char>))> {
    let ks = line_keys(line);
    Seq::new(ks.len(), |i: int| (ks[i], resolve(ks[i], props_first, dict, env[i])))
}

/// The values that a line's placeholders resolve to, in order.
pub open spec fn use_values(uses: Seq<(Seq<char>, (Seq<char>, Seq<char>))>) -> Seq<Seq<char>> {
    uses.map_values(|u: (Seq<char>, (Seq<char>, Seq<char>))| u.1.0)
}

/// The line after substitution: each placeholder of the part before the
/// first `#` is replaced by its value, as the value is written, and the
/// comment is kept.
pub open spec fn replaced_line(
    line: Seq<char>,
    props_first: bool,
    dict: Option<Map<Seq<char>, (Seq<char>, Seq<char>)>>,
    env: Seq<EnvLookup>,
) -> Seq<char> {
    placeholder::fill(code_part(line), use_values(line_uses(line, props_first, dict, env)))
        + comment_part(line)
}

/// The override notices of the first `n` placeholders of a line.
pub open spec fn override_notes(
    ks: Seq<Seq<char>>,
    props_first: bool,
    dict: Option<Map<Seq<char>, (Seq<char>, Seq<char>)>>,
    env: Seq<EnvLookup>,
    n: int,
) -> Seq<(Seq<char>, Seq<char>)>
    decreases n,
{
    if n <= 0 {
        Seq::empty()
    } else {
        let prev = override_notes(ks, props_first, dict, env, n - 1);
        if env_overrides(ks[n - 1], props_first, dict, env[n - 1]) {
            prev.push((ks[n - 1], dict->0[ks[n - 1]].1))
        } else {
            prev
        }
    }
}

/// The used keys, grouped by source in the order the sources were first used.
pub type UsesView = Seq<(Seq<char>, Seq<(Seq<char>, Seq<char>)>)>;

/// The sources of a record of used keys.
pub open spec fn sources_of(u: UsesView) -> Seq<Seq<char>> {
    u.map_values(|e: (Seq<char>, Seq<(Seq<char>, Seq<char>)>)| e.0)
}

/// Whether no source occurs twice.
pub open spec fn distinct_sources(u: UsesView) -> bool {
    sources_of(u).no_duplicates()
}

/// `u` without the list of `source`.
pub open spec fn without_source(u: UsesView, source: Seq<char>) -> UsesView {
    let i = assoc::index_of(sources_of(u), source);
    if i < u.len() {
        u.remove(i)
    } else {
        u
    }
}

/// Adds the use of `key` with `value` to the list of `source`.
pub open spec fn record_use(u: UsesView, source: Seq<char>, key: Seq<char>, value: Seq<char>) -> UsesView {
    let i = assoc::index_of(sources_of(u), source);
    if i < u.len() {
        u.update(i, (source, u[i].1.push((key, value))))
    } else {
        u.push((source, seq![(key, value)]))
    }
}

/// Records all `uses`, in order.
pub open spec fn record_all(u: UsesView, uses: Seq<(Seq<char>, (Seq<char>, Seq<char>))>) -> UsesView
    decreases uses.len(),
{
    if uses.len() == 0 {
        u
    } else {
        let last = uses.last();
        record_use(record_all(u, uses.drop_last()), last.1.1, last.0, last.1.0)
    }
}

/// For each source, the keys used from it together with their values.
pub struct UsedKeys {
    sources: Vec<(String, Vec<(String, String)>)>,
}

/// A list of pairs of strings by their views.
pub open spec fn pairs_view(v: Seq<(String, String)>) -> Seq<(Seq<char>, Seq<char>)> {
    v.map_values(|p: (String, String)| (p.0@, p.1@))
}

impl View for UsedKeys {
    type V = UsesView;

    closed spec fn view(&self) -> UsesView {
        self.sources@.map_values(
            |e: (String, Vec<(String, String)>)| (e.0@, pairs_view(e.1@)),
        )
    }
}

impl UsedKeys {
    /// Each source has one list.
    #[verifier::type_invariant]
    closed spec fn inv(self) -> bool {
        assoc::keys_of(self.sources@).no_duplicates()
    }

    /// The sources of the record are the keys of its entries.
    proof fn lemma_sources(self)
        ensures
            sources_of(self@) == assoc::keys_of(self.sources@),
    {
        assert(sources_of(self@) =~= assoc::keys_of(self.sources@));
    }

    /// No key used yet.
    pub fn new() -> (r: UsedKeys)
        ensures
            r@ == Seq::<(Seq<char>, Seq<(Seq<char>, Seq<char>)>)>::empty(),
    {
        let r = UsedKeys { sources: Vec::new() };
        assert(r@ =~= Seq::<(Seq<char>, Seq<(Seq<char>, Seq<char>)>)>::empty());
        r
    }

    /// The number of sources.
    pub fn len(&self) -> (n: usize)
        ensures
            n == self@.len(),
            distinct_sources(self@),
    {
        proof {
            use_type_invariant(self);
            self.lemma_sources();
        }
        self.sources.len()
    }

    /// The `i`-th source and the keys and values used from it.
    pub fn entry(&self, i: usize) -> (r: (&String, &Vec<(String, String)>))
        requires
            i < self@.len(),
        ensures
            r.0@ == self@[i as int].0,
            pairs_view(r.1@) == self@[i as int].1,
    {
        (&self.sources[i].0, &self.sources[i].1)
    }

    /// The keys and values used from `source`, if any.
    pub fn get(&self, source: &str) -> (r: Option<&Vec<(String, String)>>)
        ensures
            match r {
                Some(v) => {
                    let i = assoc::index_of(sources_of(self@), source@);
                    &&& i < self@.len()
                    &&& pairs_view(v@) == self@[i].1
                },
                None => assoc::index_of(sources_of(self@), source@) == self@.len(),
            },
    {
        let s = String::from_str(source);
        let i = self.find_source(&s);
        proof {
            assoc::lemma_index_of(sources_of(self@), source@);
        }
        if i < self.sources.len() {
            Some(&self.sources[i].1)
        } else {
            None
        }
    }

    /// Position of `source` among the sources (see [`assoc::index_of`]).
    pub fn find_source(&self, source: &String) -> (r: usize)
        ensures
            r == assoc::index_of(sources_of(self@), source@),
    {
        assert(assoc::keys_of(self.sources@) =~= sources_of(self@));
        find_key(&self.sources, source)
    }

    /// Records that `key` was used with `value` from `source`.
    pub fn record(&mut self, source: String, key: String, value: String)
        ensures
            final(self)@ == record_use(old(self)@, source@, key@, value@),
            distinct_sources(final(self)@),
    {
        proof {
            use_type_invariant(&*self);
            self.lemma_sources();
        }
        let ghost u = self@;
        let ghost ks = assoc::keys_of(self.sources@);
        let p = find_key(&self.sources, &source);
        proof {
            assoc::lemma_index_of(sources_of(u), source@);
        }
        let mut v: Vec<(String, Vec<(String, String)>)> = Vec::new();
        std::mem::swap(&mut v, &mut self.sources);
        if p < v.len() {
            let mut list = copy_pairs(&v[p].1);
            list.push((key, value));
            assert(pairs_view(list@) =~= u[p as int].1.push((key@, value@)));
            v.set(p, (source, list));
            assert(assoc::keys_of(v@) =~= ks);
            self.sources = v;
            assert(self@ =~= record_use(u, source@, key@, value@));
        } else {
            let mut list: Vec<(String, String)> = Vec::new();
            list.push((key, value));
            assert(pairs_view(list@) =~= seq![(key@, value@)]);
            v.push((source, list));
            proof {
                assoc::lemma_push_distinct(ks, source@);
            }
            assert(assoc::keys_of(v@) =~= ks.push(source@));
            self.sources = v;
            assert(self@ =~= record_use(u, source@, key@, value@));
        }
        proof {
            self.lemma_sources();
        }
    }

    /// Takes out the list of `source`, if there is one; the other sources
    /// and their lists stay as they were, in order.
    pub fn remove(&mut self, source: &str) -> (r: Option<Vec<(String, String)>>)
        ensures
            final(self)@ == without_source(old(self)@, source@),
            distinct_sources(final(self)@),
            !sources_of(final(self)@).contains(source@),
            match r {
                Some(l) => {
                    let i = assoc::index_of(sources_of(old(self)@), source@);
                    &&& i < old(self)@.len()
                    &&& pairs_view(l@) == old(self)@[i].1
                },
                None => assoc::index_of(sources_of(old(self)@), source@) == old(self)@.len(),
            },
    {
        proof {
            use_type_invariant(&*self);
            self.lemma_sources();
        }
        let ghost u = self@;
        let ghost ks = assoc::keys_of(self.sources@);
        let s = String::from_str(source);
        let p = find_key(&self.sources, &s);
        proof {
            assoc::lemma_index_of(sources_of(u), source@);
        }
        if p < self.sources.len() {
            let mut v: Vec<(String, Vec<(String, String)>)> = Vec::new();
            std::mem::swap(&mut v, &mut self.sources);
            let e = v.remove(p);
            proof {
                assoc::lemma_remove_distinct(ks, p as int);
            }
            assert(assoc::keys_of(v@) =~= ks.remove(p as int));
            self.sources = v;
            assert(self@ =~= u.remove(p as int));
            proof {
                self.lemma_sources();
            }
            Some(e.1)
        } else {
            proof {
                assoc::lemma_index_of_absent(ks, source@);
            }
            None
        }
    }
}

/// The keys named by the placeholders of `line` (before its first `#`), in
/// order: the keys to look up in the environment before the line is
/// substituted.
pub fn placeholder_keys(line: &str) -> (r: Vec<String>)
    ensures
        strings_view(r@) == line_keys(line@),
{
    let lv = chars_of(line);
    let cs = find_char(&lv, '#', 0);
    proof {
        text::lemma_next_char_bounds(lv@, '#', 0);
    }
    let code = string_chars(&lv, cs);
    let ghost caps = placeholder::placeholders_from(code@, 0);
    let ghost ks = line_keys(line@);
    let mut r: Vec<String> = Vec::new();
    let mut from: usize = 0;
    let ghost mut i: int = 0;
    while from <= code.len()
        invariant
            from <= code@.len(),
            0 <= i <= caps.len(),
            code@ == code_part(line@),
            caps == placeholder::placeholders_from(code@, 0),
            ks == caps.map_values(
                |m: (int, int)| placeholder::placeholder_key(code@, m.0, m.1),
            ),
            caps == caps.take(i) + placeholder::placeholders_from(code@, from as int),
            r@.len() == i,
            strings_view(r@) == ks.take(i),
        ensures
            strings_view(r@) == ks,
        decreases code@.len() - from,
    {
        match find_placeholder(&code, from) {
            Some((o, c)) => {
                proof {
                    placeholder::lemma_placeholder_from(code@, from as int);
                    placeholder::lemma_var_group_bounds(code@, o as int, c as int);
                    assert(caps.take(i + 1) =~= caps.take(i).push((o as int, c as int)));
                    assert(caps[i] == (o as int, c as int));
                }
                let vs = skip_ws(&code, o + 2);
                let key = trimmed(&code, vs, c);
                r.push(key);
                proof {
                    assert(strings_view(r@) =~= ks.take(i + 1));
                    i = i + 1;
                }
                from = c + 1;
            },
            None => {
                assert(caps.take(i) =~= caps);
                assert(ks.take(i) =~= ks);
                break ;
            },
        }
    }
    r
}

/// A copy of a list of pairs of strings.
fn copy_pairs(v: &Vec<(String, String)>) -> (r: Vec<(String, String)>)
    ensures
        pairs_view(r@) == pairs_view(v@),
{
    let mut r: Vec<(String, String)> = Vec::new();
    let mut i: usize = 0;
    while i < v.len()
        invariant
            i <= v@.len(),
            pairs_view(r@) == pairs_view(v@).take(i as int),
        decreases v@.len() - i,
    {
        let ghost old_r = r@;
        let a = v[i].0.clone();
        let b = v[i].1.clone();
        r.push((a, b));
        assert(r@ == old_r.push((a, b)));
        assert(pairs_view(r@) =~= pairs_view(old_r).push((a@, b@)));
        i += 1;
        assert(pairs_view(r@) =~= pairs_view(v@).take(i as int));
    }
    assert(pairs_view(v@).take(i as int) =~= pairs_view(v@));
    r
}

/// Substitutes the placeholders of `line` and appends the result to
/// `result` (see [`replaced_line`]); every placeholder's key, value and
/// source are recorded in `used_keys`, and the notices of environment
/// variables that overrode keyfile entries are returned in order.
/// `env[i]` is what the environment holds for the `i`-th key of
/// [`placeholder_keys`].
pub fn replace_var(
    line: &str,
    keys: &Option<KeysAndSources>,
    props_first: bool,
    env: &Vec<EnvLookup>,
    used_keys: &mut UsedKeys,
    result: &mut Vec<String>,
) -> (notes: Vec<EnvOverride>)
    requires
        env@.len() == line_keys(line@).len(),
        keys is Some ==> forall|i: int| 0 <= i < env@.len() ==> !(#[trigger] env@[i] is NotUnicode),
    ensures
        final(result)@.len() == old(result)@.len() + 1,
        forall|i: int| 0 <= i < old(result)@.len() ==> final(result)@[i] == old(result)@[i],
        final(result)@.last()@ == replaced_line(line@, props_first, dict_view(*keys), env@),
        final(used_keys)@ == record_all(
            old(used_keys)@,
            line_uses(line@, props_first, dict_view(*keys), env@),
        ),
        notes@.map_values(|w: EnvOverride| w@) == override_notes(
            line_keys(line@),
            props_first,
            dict_view(*keys),
            env@,
            line_keys(line@).len() as int,
        ),
{
    let lv = chars_of(line);
    let cs = find_char(&lv, '#', 0);
    proof {
        text::lemma_next_char_bounds(lv@, '#', 0);
    }
    let code = string_chars(&lv, cs);
    let ghost caps = placeholder::placeholders_from(code@, 0);
    let ghost ks = line_keys(line@);
    let ghost dict = dict_view(*keys);
    let ghost uses = line_uses(line@, props_first, dict, env@);
    let ghost vals = use_values(uses);
    let ghost u0 = used_keys@;
    let mut cur: Vec<char> = Vec::new();
    assert(record_all(u0, uses.take(0)) == u0) by {
        assert(uses.take(0).len() == 0);
    }
    let mut notes: Vec<EnvOverride> = Vec::new();
    let mut from: usize = 0;
    let mut i: usize = 0;
    let env_len = env.len();
    assert(caps == caps.take(0) + placeholder::placeholders_from(code@, 0));
    loop
        invariant
            from <= code@.len(),
            i <= caps.len(),
            code@ == code_part(line@),
            caps == placeholder::placeholders_from(code@, 0),
            ks == line_keys(line@),
            ks == caps.map_values(
                |m: (int, int)| placeholder::placeholder_key(code@, m.0, m.1),
            ),
            dict == dict_view(*keys),
            uses == line_uses(line@, props_first, dict, env@),
            vals == use_values(uses),
            env@.len() == ks.len(),
            env_len == env@.len(),
            keys is Some ==> forall|j: int|
                0 <= j < env@.len() ==> !(#[trigger] env@[j] is NotUnicode),
            caps == caps.take(i as int) + placeholder::placeholders_from(code@, from as int),
            from == placeholder::seg_start(caps, i as int),
            cur@ == placeholder::filled_prefix(code@, caps, vals, i as int),
            used_keys@ == record_all(u0, uses.take(i as int)),
            notes@.map_values(|w: EnvOverride| w@) == override_notes(
                ks,
                props_first,
                dict,
                env@,
                i as int,
            ),
        ensures
            i == caps.len(),
            from == placeholder::seg_start(caps, i as int),
            cur@ == placeholder::filled_prefix(code@, caps, vals, i as int),
            used_keys@ == record_all(u0, uses),
            notes@.map_values(|w: EnvOverride| w@) == override_notes(
                ks,
                props_first,
                dict,
                env@,
                ks.len() as int,
            ),
        decreases code@.len() - from,
    {
        match find_placeholder(&code, from) {
            Some((o, c)) => {
                proof {
                    placeholder::lemma_placeholder_from(code@, from as int);
                    placeholder::lemma_var_group_bounds(code@, o as int, c as int);
                    assert(caps.take(i + 1) =~= caps.take(i as int).push((o as int, c as int)));
                    assert(caps[i as int] == (o as int, c as int));
                }
                assert(from <= o && c < code.len());
                let vs = skip_ws(&code, o + 2);
                let key = trimmed(&code, vs, c);
                assert(key@ == ks[i as int]);
                let (resolved, note) = env_or_prop(key.as_str(), props_first, keys, &env[i]);
                match resolved {
                    Some((k2, vas)) => {
                        let value_chars = chars_of(vas.value.as_str());
                        proof {
                            assert(vals[i as int] == value_chars@);
                            assert(uses.take(i + 1).drop_last() =~= uses.take(i as int));
                            assert(uses[i as int] == (k2@, vas@));
                        }
                        extend_chars(&mut cur, &code, from, o);
                        extend_chars(&mut cur, &value_chars, 0, value_chars.len());
                        assert(value_chars@.subrange(0, value_chars@.len() as int) == value_chars@);
                        used_keys.record(vas.source, k2, vas.value);
                        let ghost old_notes = notes@;
                        match note {
                            Some(w) => {
                                notes.push(w);
                                assert(notes@.map_values(|w: EnvOverride| w@) =~= old_notes.map_values(
                                    |w: EnvOverride| w@,
                                ).push(w@));
                            },
                            None => {},
                        }
                    },
                    None => {},
                }
                from = c + 1;
                i += 1;
            },
            None => {
                proof {
                    placeholder::lemma_placeholders_step(code@, 0, i as int);
                }
                assert(caps.take(i as int) =~= caps);
                assert(uses.take(i as int) =~= uses);
                break ;
            },
        }
    }
    extend_chars(&mut cur, &code, from, code.len());
    let mut res_line = string_of(&cur, 0, cur.len());
    text::push_chars(&mut res_line, &lv, cs, lv.len());
    assert(cur@.subrange(0, cur@.len() as int) == cur@);
    result.push(res_line);
    notes
}

/// The lines of a property file after substitution (see [`replaced_line`]);
/// `envs[i]` is what the environment holds for the keys of line `i`.
pub open spec fn replaced_lines(
    lines: Seq<Seq<char>>,
    props_first: bool,
    dict: Option<Map<Seq<char>, (Seq<char>, Seq<char>)>>,
    envs: Seq<Seq<EnvLookup>>,
) -> Seq<Seq<char>> {
    Seq::new(lines.len(), |i: int| replaced_line(lines[i], props_first, dict, envs[i]))
}

/// The record of used keys after substituting the first `n` lines.
pub open spec fn record_lines(
    u: UsesView,
    lines: Seq<Seq<char>>,
    props_first: bool,
    dict: Option<Map<Seq<char>, (Seq<char>, Seq<char>)>>,
    envs: Seq<Seq<EnvLookup>>,
    n: int,
) -> UsesView
    decreases n,
{
    if n <= 0 {
        u
    } else {
        record_all(
            record_lines(u, lines, props_first, dict, envs, n - 1),
            line_uses(lines[n - 1], props_first, dict, envs[n - 1]),
        )
    }
}

/// The override notices of the first `n` lines, line after line.
pub open spec fn lines_notes(
    lines: Seq<Seq<char>>,
    props_first: bool,
    dict: Option<Map<Seq<char>, (Seq<char>, Seq<char>)>>,
    envs: Seq<Seq<EnvLookup>>,
    n: int,
) -> Seq<(Seq<char>, Seq<char>)>
    decreases n,
{
    if n <= 0 {
        Seq::empty()
    } else {
        lines_notes(lines, props_first, dict, envs, n - 1) + override_notes(
            line_keys(lines[n - 1]),
            props_first,
            dict,
            envs[n - 1],
            line_keys(lines[n - 1]).len() as int,
        )
    }
}

/// Substitutes the lines of a property file in order (see [`replace_var`]):
/// the substituted lines, with all uses recorded in `used_keys` and the
/// override notices of all lines returned in order. `envs[i]` is what the
/// environment holds for the keys of line `i` (see [`placeholder_keys`]).
pub fn process(
    lines: &Vec<String>,
    keys: &Option<KeysAndSources>,
    props_first: bool,
    envs: &Vec<Vec<EnvLookup>>,
    used_keys: &mut UsedKeys,
) -> (r: (Vec<String>, Vec<EnvOverride>))
    requires
        envs@.len() == lines@.len(),
        forall|i: int| 0 <= i < lines@.len() ==> (#[trigger] envs@[i])@.len() == line_keys(lines@[i]@).len(),
        keys is Some ==> forall|i: int, j: int|
            0 <= i < envs@.len() && 0 <= j < envs@[i]@.len() ==> !(#[trigger] envs@[i]@[j] is NotUnicode),
    ensures
        strings_view(r.0@) == replaced_lines(
            strings_view(lines@),
            props_first,
            dict_view(*keys),
            envs@.map_values(|e: Vec<EnvLookup>| e@),
        ),
        final(used_keys)@ == record_lines(
            old(used_keys)@,
            strings_view(lines@),
            props_first,
            dict_view(*keys),
            envs@.map_values(|e: Vec<EnvLookup>| e@),
            lines@.len() as int,
        ),
        r.1@.map_values(|w: EnvOverride| w@) == lines_notes(
            strings_view(lines@),
            props_first,
            dict_view(*keys),
            envs@.map_values(|e: Vec<EnvLookup>| e@),
            lines@.len() as int,
        ),
{
    let ghost ls = strings_view(lines@);
    let ghost es = envs@.map_values(|e: Vec<EnvLookup>| e@);
    let ghost dict = dict_view(*keys);
    let ghost u0 = used_keys@;
    let mut result: Vec<String> = Vec::new();
    let mut notes: Vec<EnvOverride> = Vec::new();
    let mut i: usize = 0;
    while i < lines.len()
        invariant
            i <= lines@.len(),
            envs@.len() == lines@.len(),
            ls == strings_view(lines@),
            es == envs@.map_values(|e: Vec<EnvLookup>| e@),
            dict == dict_view(*keys),
            forall|k: int| 0 <= k < lines@.len() ==> (#[trigger] envs@[k])@.len() == line_keys(lines@[k]@).len(),
            keys is Some ==> forall|k: int, j: int|
                0 <= k < envs@.len() && 0 <= j < envs@[k]@.len() ==> !(#[trigger] envs@[k]@[j] is NotUnicode),
            strings_view(result@) == replaced_lines(ls, props_first, dict, es).take(i as int),
            used_keys@ == record_lines(u0, ls, props_first, dict, es, i as int),
            notes@.map_values(|w: EnvOverride| w@) == lines_notes(ls, props_first, dict, es, i as int),
        decreases lines@.len() - i,
    {
        let ghost before = strings_view(result@);
        let ghost notes_before = notes@;
        assert(ls[i as int] == lines@[i as int]@);
        assert(es[i as int] == envs@[i as int]@);
        assert(envs@[i as int]@.len() == line_keys(lines@[i as int]@).len());
        let mut line_notes = replace_var(
            lines[i].as_str(),
            keys,
            props_first,
            &envs[i],
            used_keys,
            &mut result,
        );
        let ghost added = line_notes@;
        notes.append(&mut line_notes);
        proof {
            assert(strings_view(result@) =~= before.push(result@.last()@));
            assert(replaced_lines(ls, props_first, dict, es).take(i + 1) =~= replaced_lines(
                ls,
                props_first,
                dict,
                es,
            ).take(i as int).push(replaced_line(ls[i as int], props_first, dict, es[i as int])));
            assert((notes_before + added).map_values(|w: EnvOverride| w@) =~= notes_before.map_values(
                |w: EnvOverride| w@,
            ) + added.map_values(|w: EnvOverride| w@));
        }
        i += 1;
    }
    assert(replaced_lines(ls, props_first, dict, es).take(i as int) =~= replaced_lines(
        ls,
        props_first,
        dict,
        es,
    ));
    (result, notes)
}

/// Whether some key of a line is set in the environment to text that is
/// not valid Unicode.
pub open spec fn has_not_unicode(env: Seq<EnvLookup>) -> bool {
    exists|j: int| 0 <= j < env.len() && #[trigger] env[j] is NotUnicode
}

/// How many lines can be substituted: with keyfiles, the lines before the
/// first one that names a key whose environment variable is not valid
/// Unicode (the program stops there); without keyfiles, all of them.
pub fn usable_lines(keys: &Option<KeysAndSources>, envs: &Vec<Vec<EnvLookup>>) -> (n: usize)
    ensures
        n <= envs@.len(),
        keys is None ==> n == envs@.len(),
        forall|i: int| 0 <= i < n ==> !(keys is Some && has_not_unicode(#[trigger] envs@[i]@)),
        n < envs@.len() ==> keys is Some && has_not_unicode(envs@[n as int]@),
{
    if keys.is_none() {
        return envs.len();
    }
    let mut i: usize = 0;
    while i < envs.len()
        invariant
            i <= envs@.len(),
            keys is Some,
            forall|k: int| 0 <= k < i ==> !has_not_unicode(#[trigger] envs@[k]@),
        decreases envs@.len() - i,
    {
        let env = &envs[i];
        let mut j: usize = 0;
        while j < env.len()
            invariant
                i < envs@.len(),
                j <= env@.len(),
                env == envs@[i as int],
                keys is Some,
                forall|k: int| 0 <= k < i ==> !has_not_unicode(#[trigger] envs@[k]@),
                forall|k: int| 0 <= k < j ==> !(#[trigger] env@[k] is NotUnicode),
            decreases env@.len() - j,
        {
            if let EnvLookup::NotUnicode = env[j] {
                assert(envs@[i as int]@[j as int] is NotUnicode);
                assert(has_not_unicode(envs@[i as int]@));
                return i;
            }
            j += 1;
        }
        assert(!has_not_unicode(envs@[i as int]@));
        i += 1;
    }
    i
}

/// The characters `v[..end]` as a vector.
fn string_chars(v: &Vec<char>, end: usize) -> (r: Vec<char>)
    requires
        end <= v@.len(),
    ensures
        r@ == v@.subrange(0, end as int),
{
    let mut r: Vec<char> = Vec::new();
    extend_chars(&mut r, v, 0, end);
    r
}

} // verus!
