use proper::{
    extract_keys, insert_if_not_exist, insert_key, parse_key_line, read_keyfiles_to_dict,
    KeyfileError, KeysAndSources, KeysFromFiles, ValueAndSource,
};

fn lines(ls: &[&str]) -> Vec<String> {
    ls.iter().map(|l| l.to_string()).collect()
}

fn pairs(ls: &[(&str, &str)]) -> Vec<(String, String)> {
    ls.iter().map(|(k, v)| (k.to_string(), v.to_string())).collect()
}

#[test]
fn key_line_forms() {
    assert_eq!(parse_key_line("VAR=VALUE"), Some(("VAR".to_string(), "VALUE".to_string())));
    assert_eq!(
        parse_key_line("  name =  some value # note"),
        Some(("name".to_string(), "some value ".to_string()))
    );
    assert_eq!(parse_key_line("a=b=c"), Some(("a".to_string(), "b=c".to_string())));
    assert_eq!(
        parse_key_line("URL=http://h/?a=b"),
        Some(("URL".to_string(), "http://h/?a=b".to_string()))
    );
    assert_eq!(parse_key_line("no assignment"), None);
    assert_eq!(parse_key_line("# KEY=VALUE"), None);
}

#[test]
fn first_definition_in_a_keyfile_wins() {
    let entries = extract_keys(&lines(&["a=1", "b=2", "# c=3", "a=4", "junk", "c = 5"]));
    assert_eq!(entries, pairs(&[("a", "1"), ("b", "2"), ("c", "5")]));
}

#[test]
fn insert_key_sets_value_and_records_source() {
    let mut dict = KeysAndSources::new();
    let mut from_files = KeysFromFiles::new();
    insert_key(&mut dict, &mut from_files, "v1".to_string(), "f1".to_string(), "k".to_string());
    insert_key(&mut dict, &mut from_files, "v2".to_string(), "f2".to_string(), "k".to_string());
    let v = dict.get(&"k".to_string()).unwrap();
    assert_eq!((v.value.as_str(), v.source.as_str()), ("v2", "f2"));
    assert!(dict.get(&"other".to_string()).is_none());
}

#[test]
fn keys_conflict_without_shadowing() {
    let mut dict = KeysAndSources::new();
    let mut from_files = KeysFromFiles::new();
    dict.insert("a".to_string(), ValueAndSource { value: "1".to_string(), source: "one".to_string() });
    let r = insert_if_not_exist(
        &mut dict,
        &mut from_files,
        pairs(&[("b", "2"), ("a", "3")]),
        "two".to_string(),
        false,
    );
    let c = match r {
        Err(c) => c,
        Ok(_) => panic!("the duplicate key must be refused"),
    };
    assert_eq!(
        c.message(),
        "[ERROR]: key (a) in file (two) tried to override the same key from file (one)"
    );
    assert_eq!(dict.get(&"a".to_string()).unwrap().value, "1");
    assert_eq!(dict.get(&"b".to_string()).unwrap().value, "2");
}

#[test]
fn keys_shadow_with_shadowing() {
    let mut dict = KeysAndSources::new();
    let mut from_files = KeysFromFiles::new();
    dict.insert("a".to_string(), ValueAndSource { value: "1".to_string(), source: "one".to_string() });
    let notes = match insert_if_not_exist(
        &mut dict,
        &mut from_files,
        pairs(&[("a", "3")]),
        "two".to_string(),
        true,
    ) {
        Ok(n) => n,
        Err(_) => panic!("shadowing never conflicts"),
    };
    assert_eq!(notes.len(), 1);
    assert_eq!(
        notes[0].message(),
        "[WARN]: key (a) in file (two) overrides the same key from file (one)"
    );
    let v = dict.get(&"a".to_string()).unwrap();
    assert_eq!((v.value.as_str(), v.source.as_str()), ("3", "two"));
}

#[test]
fn merging_keyfiles() {
    let files = vec![
        ("one".to_string(), Some(lines(&["a=1", "b=2"]))),
        ("two".to_string(), Some(lines(&["b=3", "c=4"]))),
    ];
    let outcome = read_keyfiles_to_dict(files.clone(), true);
    assert_eq!(outcome.notices.len(), 1);
    let dict = match outcome.result {
        Ok(Some(d)) => d,
        _ => panic!("the merge succeeds"),
    };
    let b = dict.get(&"b".to_string()).unwrap();
    assert_eq!((b.value.as_str(), b.source.as_str()), ("3", "two"));
    let a = dict.get(&"a".to_string()).unwrap();
    assert_eq!((a.value.as_str(), a.source.as_str()), ("1", "one"));

    let outcome = read_keyfiles_to_dict(files, false);
    match outcome.result {
        Err(KeyfileError::Conflict(c)) => assert_eq!(c.key, "b"),
        _ => panic!("without shadowing the duplicate key is refused"),
    }
}

#[test]
fn unreadable_keyfile_stops_the_merge() {
    let files = vec![
        ("one".to_string(), Some(lines(&["a=1"]))),
        ("missing".to_string(), None),
        ("three".to_string(), Some(lines(&["a=2"]))),
    ];
    match read_keyfiles_to_dict(files, false).result {
        Err(KeyfileError::Unreadable(f)) => assert_eq!(f, "missing"),
        _ => panic!("an unreadable keyfile stops the merge"),
    }
}

#[test]
fn keyfiles_without_keys_give_no_dictionary() {
    let files = vec![("empty".to_string(), Some(lines(&["# nothing", ""])))];
    assert!(matches!(read_keyfiles_to_dict(files, false).result, Ok(None)));
    assert!(matches!(read_keyfiles_to_dict(vec![], true).result, Ok(None)));
}
