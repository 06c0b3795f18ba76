use proper::{
    env_or_prop, no_property, placeholder_keys, replace_var, EnvLookup, KeysAndSources,
    UsedKeys, ValueAndSource,
};

fn create_test_data(keys: Vec<(&str, &str)>) -> KeysAndSources {
    let mut key_map = KeysAndSources::new();
    for k in keys {
        key_map.insert(
            k.0.to_string(),
            ValueAndSource { value: k.1.to_string(), source: "source_file".to_string() },
        );
    }
    key_map
}

fn substitute_line(
    line: &str,
    keys: &Option<KeysAndSources>,
    props_first: bool,
    env: Vec<EnvLookup>,
    used_keys: &mut UsedKeys,
) -> (String, Vec<String>) {
    let mut result: Vec<String> = Vec::new();
    let notes = replace_var(line, keys, props_first, &env, used_keys, &mut result);
    assert_eq!(result.len(), 1);
    (result.pop().unwrap(), notes.iter().map(|n| n.message()).collect())
}

#[test]
fn can_sub_single_var() {
    let key_map = create_test_data(vec![("val", "world!")]);
    let mut used_keys = UsedKeys::new();
    let mut result: Vec<String> = Vec::new();
    replace_var(
        "Hello ${val}",
        &Some(key_map),
        true,
        &vec![EnvLookup::Unset],
        &mut used_keys,
        &mut result,
    );
    assert!(result.len() == 1);
    assert!(used_keys.get("source_file").unwrap()[0].0 == "val".to_string());
    assert!(result[0] == "Hello world!".to_string());
}

#[test]
fn placeholders_are_replaced_in_order() {
    let keys = Some(create_test_data(vec![("a", "1"), ("b", "2")]));
    let mut used = UsedKeys::new();
    let (line, notes) = substitute_line(
        "x=${a}, y=${ b }, z=${a}",
        &keys,
        true,
        vec![EnvLookup::Unset, EnvLookup::Unset, EnvLookup::Unset],
        &mut used,
    );
    assert_eq!(line, "x=1, y=2, z=1");
    assert!(notes.is_empty());
    let recorded = used.get("source_file").unwrap();
    let keys_used: Vec<&str> = recorded.iter().map(|p| p.0.as_str()).collect();
    assert_eq!(keys_used, vec!["a", "b", "a"]);
}

#[test]
fn comment_is_kept_and_not_substituted() {
    let keys = Some(create_test_data(vec![("a", "1"), ("b", "2")]));
    let mut used = UsedKeys::new();
    let (line, _) =
        substitute_line("v=${a} # see ${b} # again", &keys, true, vec![EnvLookup::Unset], &mut used);
    assert_eq!(line, "v=1 # see ${b} # again");
    assert_eq!(placeholder_keys("v=${a} # see ${b}"), vec!["a".to_string()]);
}

#[test]
fn line_without_placeholder_is_unchanged() {
    let keys = Some(create_test_data(vec![("a", "1")]));
    let mut used = UsedKeys::new();
    let (line, _) = substitute_line("plain $ { text } ${ unclosed", &keys, true, vec![], &mut used);
    assert_eq!(line, "plain $ { text } ${ unclosed");
    assert_eq!(used.len(), 0);
}

#[test]
fn environment_overrides_keyfile_by_default() {
    let keys = Some(create_test_data(vec![("a", "from_file")]));
    let mut used = UsedKeys::new();
    let (line, notes) = substitute_line(
        "${a}",
        &keys,
        false,
        vec![EnvLookup::Value("from_env".to_string())],
        &mut used,
    );
    assert_eq!(line, "from_env");
    assert_eq!(
        notes,
        vec!["[WARNING]: key \"${a}\" from \"source_file\" was overridden by an environment variable."
            .to_string()]
    );
    assert_eq!(used.get("ENV").unwrap()[0], ("a".to_string(), "from_env".to_string()));
}

#[test]
fn keyfile_wins_with_props_first() {
    let keys = Some(create_test_data(vec![("a", "from_file")]));
    let mut used = UsedKeys::new();
    let (line, notes) = substitute_line(
        "${a}",
        &keys,
        true,
        vec![EnvLookup::Value("from_env".to_string())],
        &mut used,
    );
    assert_eq!(line, "from_file");
    assert!(notes.is_empty());
}

#[test]
fn missing_key_stays_and_is_recorded() {
    let mut used = UsedKeys::new();
    let (line, _) = substitute_line("v=${nokey}", &None, false, vec![EnvLookup::Unset], &mut used);
    assert_eq!(line, "v=nokey");
    assert_eq!(
        used.get("Missing properties").unwrap()[0],
        ("nokey".to_string(), "nokey".to_string())
    );
}

#[test]
fn non_unicode_environment_counts_as_unset_without_keyfiles() {
    let mut used = UsedKeys::new();
    let (line, _) =
        substitute_line("${k}", &None, false, vec![EnvLookup::NotUnicode], &mut used);
    assert_eq!(line, "k");
    assert!(used.get("Missing properties").is_some());
}

#[test]
fn dollar_signs_in_values_are_kept() {
    let keys = Some(create_test_data(vec![
        ("a", "cost $$5"),
        ("b", "[$var]"),
        ("c", "<${0}>"),
        ("d", "$1x$"),
        ("val", "$5"),
    ]));
    let mut used = UsedKeys::new();
    let env = vec![EnvLookup::Unset];
    assert_eq!(substitute_line("${a}", &keys, true, env, &mut used).0, "cost $$5");
    let env = vec![EnvLookup::Unset];
    assert_eq!(substitute_line("${ b }", &keys, true, env, &mut used).0, "[$var]");
    let env = vec![EnvLookup::Unset];
    assert_eq!(substitute_line("${c}", &keys, true, env, &mut used).0, "<${0}>");
    let env = vec![EnvLookup::Unset];
    assert_eq!(substitute_line("${d}", &keys, true, env, &mut used).0, "$1x$");
    let mut used = UsedKeys::new();
    let env = vec![EnvLookup::Unset];
    assert_eq!(substitute_line("cost ${val}", &keys, true, env, &mut used).0, "cost $5");
    assert_eq!(
        used.get("source_file").unwrap(),
        &vec![("val".to_string(), "$5".to_string())]
    );
}

#[test]
fn inserted_values_are_not_rescanned() {
    // each placeholder of the line itself is replaced; values are not searched
    let keys = Some(create_test_data(vec![("a", "${b}"), ("b", "B")]));
    let mut used = UsedKeys::new();
    let (line, _) = substitute_line(
        "${a} ${b}",
        &keys,
        true,
        vec![EnvLookup::Unset, EnvLookup::Unset],
        &mut used,
    );
    assert_eq!(line, "${b} B");
    let keys = Some(create_test_data(vec![("a", "{z}"), ("c", "C")]));
    let (line, _) = substitute_line(
        "$${a}${c}",
        &keys,
        true,
        vec![EnvLookup::Unset, EnvLookup::Unset],
        &mut used,
    );
    assert_eq!(line, "${z}C");
}

#[test]
fn no_property_takes_environment_or_marks_missing() {
    let (k, v) = no_property("KEY", Some("val".to_string())).unwrap();
    assert_eq!(k, "KEY");
    assert_eq!((v.value.as_str(), v.source.as_str()), ("val", "ENV"));
    let (k, v) = no_property("KEY", None).unwrap();
    assert_eq!(k, "KEY");
    assert_eq!((v.value.as_str(), v.source.as_str()), ("KEY", "Missing properties"));
}

#[test]
fn env_or_prop_resolution() {
    let keys = Some(create_test_data(vec![("a", "1")]));
    let (r, w) = env_or_prop("a", false, &keys, &EnvLookup::Unset);
    let (_, v) = r.unwrap();
    assert_eq!((v.value.as_str(), v.source.as_str()), ("1", "source_file"));
    assert!(w.is_none());
    let (r, w) = env_or_prop("b", false, &keys, &EnvLookup::Value("e".to_string()));
    let (k, v) = r.unwrap();
    assert_eq!((k.as_str(), v.value.as_str(), v.source.as_str()), ("b", "e", "ENV"));
    assert!(w.is_none());
    let (_, w) = env_or_prop("a", false, &keys, &EnvLookup::Value("e".to_string()));
    let w = w.unwrap();
    assert_eq!((w.key.as_str(), w.source.as_str()), ("a", "source_file"));
}

#[test]
fn single_placeholder_line_becomes_the_value_as_written() {
    let keys = Some(create_test_data(vec![("v", "$x ${y} # z")]));
    let mut used = UsedKeys::new();
    let (line, _) = substitute_line("${v}", &keys, true, vec![EnvLookup::Unset], &mut used);
    assert_eq!(line, "$x ${y} # z");
}

#[test]
fn process_substitutes_every_line_and_collects_notes() {
    let keys = Some(create_test_data(vec![("a", "1"), ("b", "2")]));
    let lines = vec!["x=${a}".to_string(), "# ${b}".to_string(), "y=${b}${a}".to_string()];
    let envs = vec![
        vec![EnvLookup::Value("e".to_string())],
        vec![],
        vec![EnvLookup::Unset, EnvLookup::Unset],
    ];
    let mut used = UsedKeys::new();
    let (result, notes) = proper::process(&lines, &keys, false, &envs, &mut used);
    assert_eq!(result, vec!["x=e", "# ${b}", "y=21"]);
    assert_eq!(notes.len(), 1);
    assert_eq!((notes[0].key.as_str(), notes[0].source.as_str()), ("a", "source_file"));
    assert_eq!(used.get("ENV").unwrap(), &vec![("a".to_string(), "e".to_string())]);
    assert_eq!(used.get("source_file").unwrap().len(), 2);
}

#[test]
fn dictionary_counts_each_key_once() {
    let mut dict = KeysAndSources::new();
    assert_eq!(dict.len(), 0);
    let vs = |v: &str| ValueAndSource { value: v.to_string(), source: "f".to_string() };
    dict.insert("k".to_string(), vs("1"));
    dict.insert("l".to_string(), vs("2"));
    assert_eq!(dict.len(), 2);
    dict.insert("k".to_string(), vs("3"));
    assert_eq!(dict.len(), 2);
    assert_eq!(dict.get(&"k".to_string()).unwrap().value, "3");
}

#[test]
fn removing_a_source_keeps_the_others() {
    let mut used = UsedKeys::new();
    used.record("a".to_string(), "k".to_string(), "1".to_string());
    used.record("b".to_string(), "l".to_string(), "2".to_string());
    let taken = used.remove("a").unwrap();
    assert_eq!(taken, vec![("k".to_string(), "1".to_string())]);
    assert!(used.remove("a").is_none());
    assert_eq!(used.len(), 1);
    assert!(used.get("b").is_some());
}

#[test]
fn lines_stop_at_a_non_unicode_variable_only_with_keyfiles() {
    let envs = vec![
        vec![EnvLookup::Unset],
        vec![],
        vec![EnvLookup::Value("v".to_string()), EnvLookup::NotUnicode],
        vec![EnvLookup::NotUnicode],
    ];
    let keys = Some(create_test_data(vec![("a", "1")]));
    assert_eq!(proper::usable_lines(&keys, &envs), 2);
    assert_eq!(proper::usable_lines(&None, &envs), 4);
    assert_eq!(proper::usable_lines(&keys, &envs[..2].iter().map(|_| vec![]).collect()), 2);
}
