use proper::{
    decide, get_arg_parser, get_shadow, version_requested, get_prop_and_result_filename, get_props_first, HasArg, Occur,
    OptionManagement, OptionsAndFlags, ParseOutcome, ParseResult, ParsingStyle,
};

fn args(a: &[&str]) -> Vec<String> {
    a.iter().map(|s| s.to_string()).collect()
}

#[test]
fn the_tool_declares_its_flags() {
    let app = get_arg_parser("proper".to_string());
    for f in ["-k", "--keys", "-p", "--props-first", "-s", "--shadow-keys", "-?", "--help", "-V", "--version"] {
        assert!(app.has_option(f), "{}", f);
    }
    assert!(!app.has_option("k"));
    assert!(!app.has_option("-x"));
}

#[test]
fn parsing_the_tool_command_line() {
    let app = get_arg_parser("proper".to_string());
    let m = match app.parse(&args(&["proper", "-k", "a.keys", "--keys=b.keys", "-p", "in", "out", "-s"])) {
        ParseOutcome::Proceed(m) => m,
        _ => panic!("the arguments fit"),
    };
    assert_eq!(m.opt_strs("k"), args(&["a.keys", "b.keys"]));
    assert!(get_props_first(&m));
    // everything from the first free argument on is free
    assert!(!m.opt_present("s"));
    assert_eq!(m.free.clone(), args(&["in", "out", "-s"]));
    let m = match app.parse(&args(&["proper", "-s", "in", "out"])) {
        ParseOutcome::Proceed(m) => m,
        _ => panic!("the arguments fit"),
    };
    assert!(m.opt_present("s"));
    assert!(!get_props_first(&m));
    let names = get_prop_and_result_filename(&m.free.clone()).ok().unwrap();
    assert_eq!((names.prop_filename.as_str(), names.result_filename.as_str()), ("in", "out"));
}

#[test]
fn help_and_errors() {
    let app = get_arg_parser("proper".to_string());
    assert!(matches!(app.parse(&args(&["proper", "-?"])), ParseOutcome::Help));
    match app.parse(&args(&["proper", "-x"])) {
        ParseOutcome::Failed(e) => assert_eq!(e, "Unrecognized option: 'x'"),
        _ => panic!("-x is not an option"),
    }
    match app.parse(&args(&["proper", "-k"])) {
        ParseOutcome::Failed(e) => assert_eq!(e, "Argument to option 'k' missing"),
        _ => panic!("-k needs an argument"),
    }
    match app.parse(&args(&["proper", "-p", "-p"])) {
        ParseOutcome::Failed(e) => assert_eq!(e, "Option 'props-first' given more than once"),
        _ => panic!("-p may occur once"),
    }
    match app.parse(&args(&["proper", "--help=yes"])) {
        ParseOutcome::Failed(e) => assert_eq!(e, "Option 'help' does not take an argument"),
        _ => panic!("--help takes no argument"),
    }
}

#[test]
fn wrong_number_of_files() {
    match get_prop_and_result_filename(&args(&["a", "b", "c"])) {
        Err(e) => assert_eq!(e, "ERROR: Wrong number of file parameters: 3, expected: 2"),
        Ok(_) => panic!("three files are refused"),
    }
    match get_prop_and_result_filename(&args(&[])) {
        Err(e) => assert_eq!(e, "ERROR: Wrong number of file parameters: 0, expected: 2"),
        Ok(_) => panic!("no file is refused"),
    }
}

#[test]
fn flags_may_be_declared_once() {
    let mut o = OptionsAndFlags::new();
    assert_eq!(o.opt("a", "all", "everything", "", HasArg::No, Occur::Optional), Ok(()));
    assert!(o.has_flag("-a") && o.has_flag("--all"));
    assert_eq!(
        o.opt("-a", "", "again", "", HasArg::No, Occur::Optional),
        Err("The flag -a is only allowed once".to_string())
    );
    assert_eq!(
        o.opt("b", "--all", "again", "", HasArg::No, Occur::Optional),
        Err("The flag --all is only allowed once".to_string())
    );
    assert!(!o.has_flag("-b"));
}

#[test]
fn parsing_style_and_usage() {
    let mut o = OptionsAndFlags::new();
    o.opt("v", "verbose", "talk more", "", HasArg::No, Occur::Multi).unwrap();
    o.opt("", "level", "how much", "N", HasArg::Yes, Occur::Optional).unwrap();
    let m = o.parse(&args(&["free", "-v", "--level", "3"])).ok().unwrap();
    assert_eq!(m.free.clone(), args(&["free"]));
    assert!(m.opt_present("verbose"));
    assert_eq!(m.opt_strs("level"), args(&["3"]));
    o.parsing_style(ParsingStyle::StopAtFirstFree);
    let m = o.parse(&args(&["free", "-v"])).ok().unwrap();
    assert_eq!(m.free.clone(), args(&["free", "-v"]));
    assert!(!m.opt_present("v"));
    let u = o.usage("Intro");
    assert!(u.starts_with("Intro\n\nOptions:\n"));
    assert!(u.contains("-v, --verbose"));
    assert!(u.contains("--level N"));
}

#[test]
fn usage_message_of_the_tool() {
    let app = get_arg_parser("proper".to_string());
    let u = app.usage_message();
    assert!(u.starts_with("\nUsage:\n Alt 1: proper [OPTIONS] <property-file> <result-file>\n Alt 2: proper [OPTIONS] <property-file> (will replace vars in property-file)\n\nAbout:\n"));
    assert!(u.contains("Format in keyfile is: VAR=VALUE.\n\nOptions:\n"));
    assert!(u.contains("-k, --keys FILE(s)"));
}

#[test]
fn deciding_on_a_parse() {
    let mut o = getopts::Options::new();
    o.optflag("?", "help", "help");
    o.optflag("p", "", "p");
    match decide(Ok(o.parse(args(&["-?", "-p"])).unwrap())) {
        ParseOutcome::Help => {}
        _ => panic!("help wins"),
    }
    match decide(Ok(o.parse(args(&["-p", "x"])).unwrap())) {
        ParseOutcome::Proceed(m) => assert_eq!(m.free.clone(), args(&["x"])),
        _ => panic!("no help asked"),
    }
    match decide(Err("bad".to_string())) {
        ParseOutcome::Failed(s) => assert_eq!(s, "bad"),
        _ => panic!("errors fail"),
    }
}

#[test]
fn version_and_shadow_flags() {
    let app = get_arg_parser("proper".to_string());
    let m = match app.parse(&args(&["proper", "-V"])) {
        ParseOutcome::Proceed(m) => m,
        _ => panic!("the arguments fit"),
    };
    assert!(version_requested(&m));
    assert!(!get_shadow(&m));
    let m = match app.parse(&args(&["proper", "--shadow-keys", "in", "out"])) {
        ParseOutcome::Proceed(m) => m,
        _ => panic!("the arguments fit"),
    };
    assert!(!version_requested(&m));
    assert!(get_shadow(&m));
}
