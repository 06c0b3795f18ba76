//! The command line of the tool: its options, its usage text, and what the
//! parsed arguments decide.
use vstd::prelude::*;
use crate::keys::strings_view;
use crate::options::{
    self,
    ArgErrorView,
    GroupView,
    HasArg,
    Occur,
    OptionManagement,
    OptionsAndFlags,
    ParsingStyle,
    matches_opt_present,
};
use crate::text;

verus! {

/// The introduction of the usage text for the program `name`.
pub open spec fn brief_text(name: Seq<char>) -> Seq<char> {
    "\nUsage:\n Alt 1: "@ + name + " [OPTIONS] <property-file> <result-file>\n Alt 2: "@ + name
        + " [OPTIONS] <property-file> (will replace vars in property-file)\n\nAbout:\nThis tool replaces occurances of ${<VAR>} in the property-file and replaces them either with environment variables or from keyfile (if given). Format in keyfile is: VAR=VALUE."@
}

/// What the command line decides.
pub enum ParseOutcome {
    /// Go on with these parsed arguments.
    Proceed(getopts::Matches),
    /// Help was asked for: show the usage text and stop successfully.
    Help,
    /// The arguments do not fit the options: show this error and the usage
    /// text, and stop with failure.
    Failed(String),
}

/// The program's name together with its options.
pub struct ApplicationOptions {
    application_name: String,
    opts: OptionsAndFlags,
}

impl ApplicationOptions {
    /// The program's name.
    pub closed spec fn name(&self) -> Seq<char> {
        self.application_name@
    }

    /// The program's options.
    pub closed spec fn options(&self) -> OptionsAndFlags {
        self.opts
    }
}

/// Setting up, showing and parsing the command line of an application.
pub trait ParseResult: Sized {
    /// Whether the options can be parsed and declare `?` (help).
    spec fn ready(&self) -> bool;

    fn new(application_name: String, opts: OptionsAndFlags) -> Self;

    fn usage_message(&self) -> String;

    fn has_option(&self, opt: &str) -> bool;

    fn parse(&self, args: &[String]) -> ParseOutcome
        requires
            args@.len() >= 1,
            self.ready(),
    ;
}

impl ParseResult for ApplicationOptions {
    open spec fn ready(&self) -> bool {
        &&& self.options().parsable()
        &&& options::defined_names(self.options().groups()).contains("?"@)
    }

    /// The application `application_name` with the options `opts`.
    fn new(application_name: String, opts: OptionsAndFlags) -> (r: Self)
        ensures
            r.name() == application_name@,
            r.options() == opts,
    {
        ApplicationOptions { application_name, opts }
    }

    /// The usage text: the options' usage introduced by [`brief_text`].
    fn usage_message(&self) -> (s: String)
        ensures
            s@ == options::usage_text(self.options().groups(), brief_text(self.name())),
    {
        let mut brief = String::from_str("\nUsage:\n Alt 1: ");
        text::push_str(&mut brief, self.application_name.as_str());
        text::push_str(&mut brief, " [OPTIONS] <property-file> <result-file>\n Alt 2: ");
        text::push_str(&mut brief, self.application_name.as_str());
        text::push_str(
            &mut brief,
            " [OPTIONS] <property-file> (will replace vars in property-file)\n\nAbout:\nThis tool replaces occurances of ${<VAR>} in the property-file and replaces them either with environment variables or from keyfile (if given). Format in keyfile is: VAR=VALUE.",
        );
        self.opts.usage(brief.as_str())
    }

    /// Whether `opt` (such as `-k`) is a declared flag.
    fn has_option(&self, opt: &str) -> (b: bool)
        ensures
            b == self.options().flag_set().contains(opt@),
    {
        self.opts.has_flag(opt)
    }

    /// Parses the arguments after the program name (`args[0]`): a parse
    /// error fails, help wins over everything else, and otherwise the parsed
    /// arguments are handed on.
    fn parse(&self, args: &[String]) -> (r: ParseOutcome)
        ensures
            ({
                let outcome = options::parse_result(
                    self.options().groups(),
                    self.options().style(),
                    strings_view(args@).drop_first(),
                );
                match r {
                    ParseOutcome::Failed(s) => outcome is Err && s@ == options::arg_error_text(
                        outcome->Err_0,
                    ),
                    ParseOutcome::Help => outcome is Ok && outcome->Ok_0.0["?"@].len() > 0,
                    ParseOutcome::Proceed(m) => outcome is Ok && !(outcome->Ok_0.0["?"@].len()
                        > 0) && outcome->Ok_0 == (
                        options::option_values(m),
                        options::free_arguments(m),
                    ) && options::option_values(m).dom() == options::defined_names(
                        self.options().groups(),
                    ),
                }
            }),
    {
        let (_, rest) = args.split_at(1);
        assert(strings_view(rest@) =~= strings_view(args@).drop_first());
        let parsed = self.opts.parse(rest);
        decide(parsed)
    }
}

/// What a parse of the command line decides: a parse error fails with its
/// text, help (`?`) wins over everything else, and otherwise the parsed
/// arguments are handed on.
pub fn decide(parsed: Result<getopts::Matches, String>) -> (r: ParseOutcome)
    requires
        parsed matches Ok(m) ==> options::option_values(m).contains_key("?"@),
    ensures
        match parsed {
            Err(e) => r matches ParseOutcome::Failed(s) && s@ == e@,
            Ok(m) => if options::option_values(m)["?"@].len() > 0 {
                r is Help
            } else {
                r matches ParseOutcome::Proceed(m2) && m2 == m
            },
        },
{
    match parsed {
        Ok(m) => {
            if matches_opt_present(&m, "?") {
                ParseOutcome::Help
            } else {
                ParseOutcome::Proceed(m)
            }
        },
        Err(e) => ParseOutcome::Failed(e),
    }
}

/// The options of the tool, in order.
pub open spec fn tool_groups() -> Seq<GroupView> {
    seq![
        (
            "k"@,
            "keys"@,
            "keyfile(s) with variable substitutions, can occur multiple times"@,
            "FILE(s)"@,
            HasArg::Yes,
            Occur::Multi,
        ),
        (
            "p"@,
            "props-first"@,
            "properties takes precedence over environment variables (default: off)"@,
            ""@,
            HasArg::No,
            Occur::Optional,
        ),
        (
            "s"@,
            "shadow-keys"@,
            "When using multiple keyfiles, key-values will overshadow each other. Default is that multiple values for one key throws an error."@,
            ""@,
            HasArg::No,
            Occur::Optional,
        ),
        ("?"@, "help"@, "print this help menu"@, ""@, HasArg::No, Occur::Optional),
        ("V"@, "version"@, "prints current version number"@, ""@, HasArg::No, Occur::Optional),
    ]
}

/// The flags of the tool.
pub open spec fn tool_flags() -> Set<Seq<char>> {
    set![
        "-k"@,
        "--keys"@,
        "-p"@,
        "--props-first"@,
        "-s"@,
        "--shadow-keys"@,
        "-?"@,
        "--help"@,
        "-V"@,
        "--version"@,
    ]
}

/// The command line of the tool `application_name`: the options `-k/--keys
/// FILE(s)` (any number of times), `-p/--props-first`, `-s/--shadow-keys`,
/// `-?/--help` and `-V/--version`, with everything from the first free
/// argument on free.
pub fn get_arg_parser(application_name: String) -> (r: ApplicationOptions)
    ensures
        r.name() == application_name@,
        r.options().groups() == tool_groups(),
        r.options().style() == ParsingStyle::StopAtFirstFree,
        r.options().flag_set() == tool_flags(),
        r.ready(),
{
    proof {
        reveal_strlit("k");
        reveal_strlit("keys");
        reveal_strlit("p");
        reveal_strlit("props-first");
        reveal_strlit("s");
        reveal_strlit("shadow-keys");
        reveal_strlit("?");
        reveal_strlit("help");
        reveal_strlit("V");
        reveal_strlit("version");
        reveal_strlit("-");
        reveal_strlit("--");
        reveal_strlit("-k");
        reveal_strlit("--keys");
        reveal_strlit("-p");
        reveal_strlit("--props-first");
        reveal_strlit("-s");
        reveal_strlit("--shadow-keys");
        reveal_strlit("-?");
        reveal_strlit("--help");
        reveal_strlit("-V");
        reveal_strlit("--version");
    }
    let mut o = OptionsAndFlags::new();
    o.parsing_style(ParsingStyle::StopAtFirstFree);
    let r1 = o.opt(
        "k",
        "keys",
        "keyfile(s) with variable substitutions, can occur multiple times",
        "FILE(s)",
        HasArg::Yes,
        Occur::Multi,
    );
    assert(r1 is Ok);
    let r2 = o.opt(
        "p",
        "props-first",
        "properties takes precedence over environment variables (default: off)",
        "",
        HasArg::No,
        Occur::Optional,
    );
    assert(r2 is Ok);
    let r3 = o.opt(
        "s",
        "shadow-keys",
        "When using multiple keyfiles, key-values will overshadow each other. Default is that multiple values for one key throws an error.",
        "",
        HasArg::No,
        Occur::Optional,
    );
    assert(r3 is Ok);
    let r4 = o.opt("?", "help", "print this help menu", "", HasArg::No, Occur::Optional);
    assert(r4 is Ok);
    let r5 = o.opt("V", "version", "prints current version number", "", HasArg::No, Occur::Optional);
    assert(r5 is Ok);
    assert(o.groups() =~= tool_groups());
    assert("-"@ + "k"@ =~= "-k"@);
    assert("--"@ + "keys"@ =~= "--keys"@);
    assert("-"@ + "p"@ =~= "-p"@);
    assert("--"@ + "props-first"@ =~= "--props-first"@);
    assert("-"@ + "s"@ =~= "-s"@);
    assert("--"@ + "shadow-keys"@ =~= "--shadow-keys"@);
    assert("-"@ + "?"@ =~= "-?"@);
    assert("--"@ + "help"@ =~= "--help"@);
    assert("-"@ + "V"@ =~= "-V"@);
    assert("--"@ + "version"@ =~= "--version"@);
    assert(o.flag_set() =~= tool_flags());
    assert(options::defined_names(o.groups()).contains("?"@)) by {
        assert(o.groups()[3].0 == "?"@);
    }
    ApplicationOptions::new(application_name, o)
}

/// The property file and the result file named on the command line.
pub struct PropAndResultFilenames {
    pub prop_filename: String,
    pub result_filename: String,
}

/// The decimal digit `d`.
pub open spec fn digit_char(d: nat) -> char {
    ((48 + d) as u8) as char
}

/// The decimal notation of `n`.
pub open spec fn decimal_text(n: nat) -> Seq<char>
    decreases n,
{
    if n < 10 {
        seq![digit_char(n)]
    } else {
        decimal_text(n / 10).push(digit_char(n % 10))
    }
}

/// Appends the decimal notation of `n` to `s`.
pub fn push_decimal(s: &mut String, n: usize)
    ensures
        final(s)@ == old(s)@ + decimal_text(n as nat),
    decreases n,
{
    if n >= 10 {
        push_decimal(s, n / 10);
    }
    let d = (n % 10) as u8;
    text::push_char(s, (48u8 + d) as char);
    assert(decimal_text(n as nat) == (if n < 10 {
        Seq::<char>::empty()
    } else {
        decimal_text((n / 10) as nat)
    }).push(digit_char((n % 10) as nat)));
}

/// The message when the number of file names is not two.
pub open spec fn file_count_text(n: nat) -> Seq<char> {
    "ERROR: Wrong number of file parameters: "@ + decimal_text(n) + ", expected: 2"@
}

/// The property file and the result file, when exactly two free arguments
/// were given; otherwise the error message.
pub fn get_prop_and_result_filename(free_args: &Vec<String>) -> (r: Result<
    PropAndResultFilenames,
    String,
>)
    ensures
        r is Ok <==> free_args@.len() == 2,
        r matches Ok(f) ==> f.prop_filename@ == free_args@[0]@ && f.result_filename@
            == free_args@[1]@,
        r matches Err(m) ==> m@ == file_count_text(free_args@.len()),
{
    if free_args.len() == 2 {
        Ok(
            PropAndResultFilenames {
                prop_filename: free_args[0].clone(),
                result_filename: free_args[1].clone(),
            },
        )
    } else {
        let mut m = String::from_str("ERROR: Wrong number of file parameters: ");
        push_decimal(&mut m, free_args.len());
        text::push_str(&mut m, ", expected: 2");
        Err(m)
    }
}

/// Whether `-p` (properties before environment variables) was given.
pub fn get_props_first(matches: &getopts::Matches) -> (b: bool)
    requires
        options::option_values(*matches).contains_key("p"@),
    ensures
        b == (options::option_values(*matches)["p"@].len() > 0),
{
    if matches_opt_present(matches, "p") {
        true
    } else {
        false
    }
}

/// Whether `-V` (show the version) was given.
pub fn version_requested(matches: &getopts::Matches) -> (b: bool)
    requires
        options::option_values(*matches).contains_key("V"@),
    ensures
        b == (options::option_values(*matches)["V"@].len() > 0),
{
    matches_opt_present(matches, "V")
}

/// Whether `-s` (later keyfiles shadow earlier ones) was given.
pub fn get_shadow(matches: &getopts::Matches) -> (b: bool)
    requires
        options::option_values(*matches).contains_key("s"@),
    ensures
        b == (options::option_values(*matches)["s"@].len() > 0),
{
    matches_opt_present(matches, "s")
}

} // verus!
