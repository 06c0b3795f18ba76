//! Command-line options: the declarations handed to getopts, the set of flags
//! already declared, and the application's usage text.
use vstd::prelude::*;
use crate::assoc;
use crate::keys::strings_view;
use crate::text;

verus! {

#[verifier::external_type_specification]
#[verifier::external_body]
pub struct ExOptions(getopts::Options);

#[verifier::external_type_specification]
#[verifier::external_body]
pub struct ExMatches(getopts::Matches);

/// Whether an option takes an argument.
#[derive(Clone, Copy, Debug)]
pub enum HasArg {
    /// The option requires an argument.
    Yes,
    /// The option takes no argument.
    No,
    /// The option argument is optional.
    Maybe,
}

/// How often an option may occur.
#[derive(Clone, Copy, Debug)]
pub enum Occur {
    /// Exactly once.
    Req,
    /// At most once.
    Optional,
    /// Any number of times.
    Multi,
}

/// Whether options may follow free arguments.
#[derive(Clone, Copy, Debug)]
pub enum ParsingStyle {
    /// Options and free arguments may be mixed.
    FloatingFrees,
    /// Everything from the first free argument on is free.
    StopAtFirstFree,
}

/// Why a command line does not fit the declared options.
pub enum ArgError {
    ArgumentMissing(String),
    UnrecognizedOption(String),
    OptionMissing(String),
    OptionDuplicated(String),
    UnexpectedArgument(String),
}

/// [`ArgError`] by its views.
pub enum ArgErrorView {
    ArgumentMissing(Seq<char>),
    UnrecognizedOption(Seq<char>),
    OptionMissing(Seq<char>),
    OptionDuplicated(Seq<char>),
    UnexpectedArgument(Seq<char>),
}

impl View for ArgError {
    type V = ArgErrorView;

    open spec fn view(&self) -> ArgErrorView {
        match self {
            ArgError::ArgumentMissing(s) => ArgErrorView::ArgumentMissing(s@),
            ArgError::UnrecognizedOption(s) => ArgErrorView::UnrecognizedOption(s@),
            ArgError::OptionMissing(s) => ArgErrorView::OptionMissing(s@),
            ArgError::OptionDuplicated(s) => ArgErrorView::OptionDuplicated(s@),
            ArgError::UnexpectedArgument(s) => ArgErrorView::UnexpectedArgument(s@),
        }
    }
}

/// The text of an argument error, as getopts shows it.
pub open spec fn arg_error_text(e: ArgErrorView) -> Seq<char> {
    match e {
        ArgErrorView::ArgumentMissing(n) => "Argument to option '"@ + n + "' missing"@,
        ArgErrorView::UnrecognizedOption(n) => "Unrecognized option: '"@ + n + "'"@,
        ArgErrorView::OptionMissing(n) => "Required option '"@ + n + "' missing"@,
        ArgErrorView::OptionDuplicated(n) => "Option '"@ + n + "' given more than once"@,
        ArgErrorView::UnexpectedArgument(n) => "Option '"@ + n + "' does not take an argument"@,
    }
}

impl ArgError {
    /// The error as it is shown to the user.
    pub fn message(&self) -> (s: String)
        ensures
            s@ == arg_error_text(self@),
    {
        match self {
            ArgError::ArgumentMissing(n) => {
                let mut s = String::from_str("Argument to option '");
                text::push_str(&mut s, n.as_str());
                text::push_str(&mut s, "' missing");
                s
            },
            ArgError::UnrecognizedOption(n) => {
                let mut s = String::from_str("Unrecognized option: '");
                text::push_str(&mut s, n.as_str());
                text::push_str(&mut s, "'");
                s
            },
            ArgError::OptionMissing(n) => {
                let mut s = String::from_str("Required option '");
                text::push_str(&mut s, n.as_str());
                text::push_str(&mut s, "' missing");
                s
            },
            ArgError::OptionDuplicated(n) => {
                let mut s = String::from_str("Option '");
                text::push_str(&mut s, n.as_str());
                text::push_str(&mut s, "' given more than once");
                s
            },
            ArgError::UnexpectedArgument(n) => {
                let mut s = String::from_str("Option '");
                text::push_str(&mut s, n.as_str());
                text::push_str(&mut s, "' does not take an argument");
                s
            },
        }
    }
}

/// One declared option: short name, long name, description, argument hint,
/// argument kind and occurrence.
pub type GroupView = (Seq<char>, Seq<char>, Seq<char>, Seq<char>, HasArg, Occur);

/// A short name getopts accepts: empty, or one character of one byte.
pub open spec fn valid_short_name(s: Seq<char>) -> bool {
    s.len() == 0 || (s.len() == 1 && (s[0] as u32) < 128)
}

/// A long name getopts accepts: anything but a single one-byte character.
pub open spec fn valid_long_name(s: Seq<char>) -> bool {
    !(s.len() == 1 && (s[0] as u32) < 128)
}

/// Whether every declared option has a short or a long name.
pub open spec fn all_named(groups: Seq<GroupView>) -> bool {
    forall|i: int| 0 <= i < groups.len() ==> #[trigger] groups[i].0.len() > 0 || groups[i].1.len() > 0
}

/// Whether every declaration has names that getopts accepts.
pub open spec fn names_valid(groups: Seq<GroupView>) -> bool {
    forall|i: int|
        0 <= i < groups.len() ==> valid_short_name(#[trigger] groups[i].0) && valid_long_name(
            groups[i].1,
        )
}

/// Declaring an option with accepted names keeps all names accepted.
pub proof fn lemma_names_valid_push(groups: Seq<GroupView>, g: GroupView)
    requires
        names_valid(groups),
        valid_short_name(g.0),
        valid_long_name(g.1),
    ensures
        names_valid(groups.push(g)),
{
    assert forall|i: int| 0 <= i < groups.push(g).len() implies valid_short_name(
        #[trigger] groups.push(g)[i].0,
    ) && valid_long_name(groups.push(g)[i].1) by {
        if i < groups.len() {
            assert(groups.push(g)[i] == groups[i]);
            assert(valid_short_name(groups[i].0));
        }
    }
}

/// The option names that the declarations define.
pub open spec fn defined_names(groups: Seq<GroupView>) -> Set<Seq<char>> {
    Set::new(
        |n: Seq<char>|
            exists|i: int|
                0 <= i < groups.len() && ((#[trigger] groups[i].0.len() > 0 && groups[i].0 == n) || (
                groups[i].1.len() > 0 && groups[i].1 == n)),
    )
}

/// The options that a getopts `Options` declares, in order.
pub uninterp spec fn option_groups(o: getopts::Options) -> Seq<GroupView>;

/// The parsing style that a getopts `Options` was set to.
pub uninterp spec fn option_style(o: getopts::Options) -> ParsingStyle;

/// For each option name that a getopts `Matches` knows, its occurrences:
/// `None` for an occurrence without a value.
pub uninterp spec fn option_values(m: getopts::Matches) -> Map<Seq<char>, Seq<Option<Seq<char>>>>;

/// The free arguments that a getopts `Matches` holds.
pub uninterp spec fn free_arguments(m: getopts::Matches) -> Seq<Seq<char>>;

/// The outcome of getopts' `Options::parse` for the declarations `groups`,
/// the style `style` and the arguments `args`: the option occurrences and
/// free arguments, or the error.
pub uninterp spec fn parse_result(
    groups: Seq<GroupView>,
    style: ParsingStyle,
    args: Seq<Seq<char>>,
) -> Result<(Map<Seq<char>, Seq<Option<Seq<char>>>>, Seq<Seq<char>>), ArgErrorView>;

/// The text of getopts' `Options::usage` for the declarations `groups` and
/// the introduction `brief`.
pub uninterp spec fn usage_text(groups: Seq<GroupView>, brief: Seq<char>) -> Seq<char>;

/// getopts' `Options::new`: no option declared, options and free arguments
/// may be mixed.
#[verifier::external_body]
fn options_new() -> (o: getopts::Options)
    ensures
        option_groups(o) == Seq::<GroupView>::empty(),
        option_style(o) == ParsingStyle::FloatingFrees,
{
    getopts::Options::new()
}

/// getopts' `Options::opt`: appends the declaration; it panics on a short
/// name of more than one byte and on a long name of exactly one byte.
#[verifier::external_body]
fn options_opt(
    o: &mut getopts::Options,
    short_name: &str,
    long_name: &str,
    desc: &str,
    hint: &str,
    hasarg: HasArg,
    occur: Occur,
)
    requires
        valid_short_name(short_name@),
        valid_long_name(long_name@),
    ensures
        option_groups(*final(o)) == option_groups(*old(o)).push(
            (short_name@, long_name@, desc@, hint@, hasarg, occur),
        ),
        option_style(*final(o)) == option_style(*old(o)),
{
    let h = match hasarg {
        HasArg::Yes => getopts::HasArg::Yes,
        HasArg::No => getopts::HasArg::No,
        HasArg::Maybe => getopts::HasArg::Maybe,
    };
    let c = match occur {
        Occur::Req => getopts::Occur::Req,
        Occur::Optional => getopts::Occur::Optional,
        Occur::Multi => getopts::Occur::Multi,
    };
    o.opt(short_name, long_name, desc, hint, h, c);
}

/// getopts' `Options::parsing_style`: sets the style, keeps the declarations.
#[verifier::external_body]
fn options_parsing_style(o: &mut getopts::Options, style: ParsingStyle)
    ensures
        option_groups(*final(o)) == option_groups(*old(o)),
        option_style(*final(o)) == style,
{
    match style {
        ParsingStyle::FloatingFrees => o.parsing_style(getopts::ParsingStyle::FloatingFrees),
        ParsingStyle::StopAtFirstFree => o.parsing_style(getopts::ParsingStyle::StopAtFirstFree),
    };
}

/// getopts' `Options::parse`: the outcome is [`parse_result`] of the
/// declarations, the style and the arguments; the names a successful parse
/// knows are exactly the declared ones. It panics on a declaration without
/// any name.
#[verifier::external_body]
fn options_parse(o: &getopts::Options, args: &[String]) -> (r: Result<getopts::Matches, ArgError>)
    requires
        all_named(option_groups(*o)),
    ensures
        match r {
            Ok(m) => parse_result(option_groups(*o), option_style(*o), strings_view(args@)) == Ok::<
                (Map<Seq<char>, Seq<Option<Seq<char>>>>, Seq<Seq<char>>),
                ArgErrorView,
            >((option_values(m), free_arguments(m))) && option_values(m).dom() == defined_names(
                option_groups(*o),
            ),
            Err(e) => parse_result(option_groups(*o), option_style(*o), strings_view(args@))
                == Err::<(Map<Seq<char>, Seq<Option<Seq<char>>>>, Seq<Seq<char>>), ArgErrorView>(
                e@,
            ),
        },
{
    match o.parse(args) {
        Ok(m) => Ok(m),
        Err(getopts::Fail::ArgumentMissing(s)) => Err(ArgError::ArgumentMissing(s)),
        Err(getopts::Fail::UnrecognizedOption(s)) => Err(ArgError::UnrecognizedOption(s)),
        Err(getopts::Fail::OptionMissing(s)) => Err(ArgError::OptionMissing(s)),
        Err(getopts::Fail::OptionDuplicated(s)) => Err(ArgError::OptionDuplicated(s)),
        Err(getopts::Fail::UnexpectedArgument(s)) => Err(ArgError::UnexpectedArgument(s)),
    }
}

/// getopts' `Options::usage`: the usage text for the declarations and `brief`.
/// It panics on a short name wider than one column, which no accepted
/// declaration has.
#[verifier::external_body]
fn options_usage(o: &getopts::Options, brief: &str) -> (s: String)
    requires
        names_valid(option_groups(*o)),
    ensures
        s@ == usage_text(option_groups(*o), brief@),
{
    o.usage(brief)
}

/// getopts' `Matches::opt_present`: whether the option occurred. It panics
/// on a name that is not declared.
#[verifier::external_body]
pub(crate) fn matches_opt_present(m: &getopts::Matches, name: &str) -> (b: bool)
    requires
        option_values(*m).contains_key(name@),
    ensures
        b == (option_values(*m)[name@].len() > 0),
{
    m.opt_present(name)
}

/// The option flags a declaration adds: `-s` for a short name `s` and
/// `--long` for a long name `long`, for those that are not empty.
pub open spec fn declared_flags(short_name: Seq<char>, long_name: Seq<char>) -> Set<Seq<char>> {
    (if short_name.len() > 0 {
        set!["-"@ + short_name]
    } else {
        Set::empty()
    }) + (if long_name.len() > 0 {
        set!["--"@ + long_name]
    } else {
        Set::empty()
    })
}

/// The message when a flag is declared twice.
pub open spec fn duplicate_flag_text(name: Seq<char>) -> Seq<char> {
    "The flag "@ + name + " is only allowed once"@
}

/// Declarations of command-line options, with the set of flags declared.
pub struct OptionsAndFlags {
    opts: getopts::Options,
    flags: Vec<String>,
}

impl OptionsAndFlags {
    /// The declared names are accepted by getopts, and no flag is listed
    /// twice.
    #[verifier::type_invariant]
    closed spec fn inv(self) -> bool {
        &&& names_valid(option_groups(self.opts))
        &&& strings_view(self.flags@).no_duplicates()
    }

    /// The options declared so far, in order.
    pub closed spec fn groups(&self) -> Seq<GroupView> {
        option_groups(self.opts)
    }

    /// The parsing style.
    pub closed spec fn style(&self) -> ParsingStyle {
        option_style(self.opts)
    }

    /// The flags declared so far.
    pub closed spec fn flag_set(&self) -> Set<Seq<char>> {
        strings_view(self.flags@).to_set()
    }

    /// Whether `flag` is one of `flags`.
    fn contains_flag(flags: &Vec<String>, flag: &str) -> (b: bool)
        ensures
            b == strings_view(flags@).to_set().contains(flag@),
    {
        let f = String::from_str(flag);
        let mut i: usize = 0;
        while i < flags.len()
            invariant
                i <= flags@.len(),
                f@ == flag@,
                forall|j: int| 0 <= j < i ==> #[trigger] strings_view(flags@)[j] != flag@,
            decreases flags@.len() - i,
        {
            if flags[i] == f {
                assert(strings_view(flags@)[i as int] == flag@);
                return true;
            }
            i += 1;
        }
        proof {
            if strings_view(flags@).to_set().contains(flag@) {
                assert(strings_view(flags@).contains(flag@));
            }
        }
        false
    }
}

/// Declaring and parsing command-line options.
pub trait OptionManagement: Sized {
    /// Whether every declared option has a name, which parsing needs.
    spec fn parsable(&self) -> bool;

    fn new() -> Self;

    fn has_flag(&self, flag: &str) -> bool;

    fn opt(
        &mut self,
        short_name: &str,
        long_name: &str,
        desc: &str,
        hint: &str,
        hasarg: HasArg,
        occur: Occur,
    ) -> Result<(), String>
        requires
            valid_short_name(short_name@),
            valid_long_name(long_name@),
    ;

    fn parse(&self, args: &[String]) -> Result<getopts::Matches, String>
        requires
            self.parsable(),
    ;

    fn parsing_style(&mut self, style: ParsingStyle);

    fn usage(&self, brief: &str) -> String;
}

impl OptionManagement for OptionsAndFlags {
    open spec fn parsable(&self) -> bool {
        all_named(self.groups())
    }

    /// No option and no flag declared; options and free arguments may be mixed.
    fn new() -> (r: Self)
        ensures
            r.groups() == Seq::<GroupView>::empty(),
            r.style() == ParsingStyle::FloatingFrees,
            r.flag_set() == Set::<Seq<char>>::empty(),
    {
        let r = OptionsAndFlags { opts: options_new(), flags: Vec::new() };
        assert(r.flag_set() =~= Set::<Seq<char>>::empty());
        r
    }

    /// Whether `flag` (such as `-k` or `--keys`) has been declared.
    fn has_flag(&self, flag: &str) -> (b: bool)
        ensures
            b == self.flag_set().contains(flag@),
    {
        Self::contains_flag(&self.flags, flag)
    }

    /// Declares an option. The names themselves are checked against the
    /// flags declared so far (which hold the dashed forms): when one is
    /// there the declaration is refused and nothing changes; otherwise the
    /// option is declared and its dashed names become flags.
    fn opt(
        &mut self,
        short_name: &str,
        long_name: &str,
        desc: &str,
        hint: &str,
        hasarg: HasArg,
        occur: Occur,
    ) -> (r: Result<(), String>)
        ensures
            old(self).flag_set().contains(short_name@) ==> r == Err::<(), String>(
                r->Err_0,
            ) && r->Err_0@ == duplicate_flag_text(short_name@),
            !old(self).flag_set().contains(short_name@) && old(self).flag_set().contains(
                long_name@,
            ) ==> r is Err && r->Err_0@ == duplicate_flag_text(long_name@),
            r is Err ==> final(self).groups() == old(self).groups() && final(self).style() == old(
                self,
            ).style() && final(self).flag_set() == old(self).flag_set(),
            r is Ok <==> !old(self).flag_set().contains(short_name@) && !old(
                self,
            ).flag_set().contains(long_name@),
            r is Ok ==> final(self).groups() == old(self).groups().push(
                (short_name@, long_name@, desc@, hint@, hasarg, occur),
            ) && final(self).style() == old(self).style() && final(self).flag_set() == old(
                self,
            ).flag_set() + declared_flags(short_name@, long_name@),
    {
        proof {
            use_type_invariant(&*self);
        }
        if Self::contains_flag(&self.flags, short_name) {
            let mut m = String::from_str("The flag ");
            text::push_str(&mut m, short_name);
            text::push_str(&mut m, " is only allowed once");
            return Err(m);
        }
        if Self::contains_flag(&self.flags, long_name) {
            let mut m = String::from_str("The flag ");
            text::push_str(&mut m, long_name);
            text::push_str(&mut m, " is only allowed once");
            return Err(m);
        }
        let ghost before = strings_view(self.flags@);
        let mut new_flags: Vec<String> = Vec::new();
        if !short_name.is_empty() {
            let mut f = String::from_str("-");
            text::push_str(&mut f, short_name);
            new_flags.push(f);
        }
        if !long_name.is_empty() {
            let mut f = String::from_str("--");
            text::push_str(&mut f, long_name);
            new_flags.push(f);
        }
        let mut flags = Self::copy_flags(&self.flags);
        let mut k: usize = 0;
        while k < new_flags.len()
            invariant
                k <= new_flags@.len(),
                strings_view(flags@).to_set() == before.to_set() + strings_view(
                    new_flags@,
                ).take(k as int).to_set(),
                strings_view(flags@).no_duplicates(),
            decreases new_flags@.len() - k,
        {
            let ghost prev = strings_view(flags@);
            let ghost x = new_flags@[k as int]@;
            proof {
                assert(strings_view(new_flags@).take(k + 1) =~= strings_view(new_flags@).take(
                    k as int,
                ).push(x));
                strings_view(new_flags@).take(k as int).lemma_push_to_set_commute(x);
            }
            if !Self::contains_flag(&flags, new_flags[k].as_str()) {
                flags.push(new_flags[k].clone());
                proof {
                    assert(strings_view(flags@) =~= prev.push(x));
                    prev.lemma_push_to_set_commute(x);
                    assoc::lemma_index_of(prev, x);
                    if assoc::index_of(prev, x) < prev.len() {
                        assert(prev.contains(x));
                    }
                    assoc::lemma_push_distinct(prev, x);
                }
            } else {
                assert(strings_view(flags@).to_set() =~= before.to_set() + strings_view(
                    new_flags@,
                ).take(k + 1).to_set());
            }
            k += 1;
        }
        proof {
            assert(strings_view(new_flags@).take(k as int) =~= strings_view(new_flags@));
            let e = Seq::<Seq<char>>::empty();
            let a = "-"@ + short_name@;
            let b = "--"@ + long_name@;
            e.lemma_push_to_set_commute(a);
            e.lemma_push_to_set_commute(b);
            e.push(a).lemma_push_to_set_commute(b);
            assert(e.to_set() =~= Set::<Seq<char>>::empty());
            assert(strings_view(new_flags@).to_set() =~= declared_flags(short_name@, long_name@))
                by {
                if short_name@.len() > 0 && long_name@.len() > 0 {
                    assert(strings_view(new_flags@) =~= e.push(a).push(b));
                } else if short_name@.len() > 0 {
                    assert(strings_view(new_flags@) =~= e.push(a));
                } else if long_name@.len() > 0 {
                    assert(strings_view(new_flags@) =~= e.push(b));
                } else {
                    assert(strings_view(new_flags@) =~= e);
                }
            }
        }
        let ghost g0 = option_groups(self.opts);
        assert(names_valid(g0));
        let mut o = options_new();
        std::mem::swap(&mut o, &mut self.opts);
        options_opt(&mut o, short_name, long_name, desc, hint, hasarg, occur);
        let ghost g1 = option_groups(o);
        proof {
            lemma_names_valid_push(g0, (short_name@, long_name@, desc@, hint@, hasarg, occur));
        }
        assert(names_valid(g1));
        self.opts = o;
        self.flags = flags;
        Ok(())
    }

    /// Parses `args` against the declared options (see [`parse_result`]);
    /// an error is given as its text.
    fn parse(&self, args: &[String]) -> (r: Result<getopts::Matches, String>)
        ensures
            match r {
                Ok(m) => parse_result(self.groups(), self.style(), strings_view(args@)) == Ok::<
                    (Map<Seq<char>, Seq<Option<Seq<char>>>>, Seq<Seq<char>>),
                    ArgErrorView,
                >((option_values(m), free_arguments(m))) && option_values(m).dom()
                    == defined_names(self.groups()),
                Err(s) => parse_result(self.groups(), self.style(), strings_view(args@)) is Err
                    && s@ == arg_error_text(
                    parse_result(self.groups(), self.style(), strings_view(args@))->Err_0,
                ),
            },
    {
        match options_parse(&self.opts, args) {
            Ok(m) => Ok(m),
            Err(e) => Err(e.message()),
        }
    }

    /// Sets the parsing style.
    fn parsing_style(&mut self, style: ParsingStyle)
        ensures
            final(self).groups() == old(self).groups(),
            final(self).style() == style,
            final(self).flag_set() == old(self).flag_set(),
    {
        proof {
            use_type_invariant(&*self);
        }
        let ghost g = option_groups(self.opts);
        assert(names_valid(g));
        let mut o = options_new();
        std::mem::swap(&mut o, &mut self.opts);
        options_parsing_style(&mut o, style);
        assert(option_groups(o) == g);
        self.opts = o;
    }

    /// The usage text of the declared options, introduced by `brief`.
    fn usage(&self, brief: &str) -> (s: String)
        ensures
            s@ == usage_text(self.groups(), brief@),
    {
        proof {
            use_type_invariant(self);
        }
        options_usage(&self.opts, brief)
    }
}

impl OptionsAndFlags {
    /// A copy of a list of flags.
    fn copy_flags(v: &Vec<String>) -> (r: Vec<String>)
        ensures
            strings_view(r@) == strings_view(v@),
    {
        let mut r: Vec<String> = Vec::new();
        let mut i: usize = 0;
        while i < v.len()
            invariant
                i <= v@.len(),
                strings_view(r@) == strings_view(v@).take(i as int),
            decreases v@.len() - i,
        {
            let ghost prev = strings_view(r@);
            r.push(v[i].clone());
            assert(strings_view(r@) =~= prev.push(v@[i as int]@));
            i += 1;
            assert(strings_view(r@) =~= strings_view(v@).take(i as int));
        }
        assert(strings_view(v@).take(i as int) =~= strings_view(v@));
        r
    }
}

} // verus!
