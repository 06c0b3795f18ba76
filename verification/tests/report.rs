use proper::{result_report, UsedKeys};

fn used(entries: &[(&str, &str, &str)]) -> UsedKeys {
    let mut u = UsedKeys::new();
    for (source, key, value) in entries {
        u.record(source.to_string(), key.to_string(), value.to_string());
    }
    u
}

#[test]
fn report_lists_sources_with_sorted_keys() {
    let mut u = used(&[
        ("keys.txt", "zeta", "1"),
        ("ENV", "HOME", "/root"),
        ("keys.txt", "alpha", "2"),
        ("ENV", "A", "x"),
        ("keys.txt", "alpha", "3"),
    ]);
    let r = result_report(&mut u, "app.properties");
    assert_eq!(
        r.lines,
        vec![
            "======== RESULTS ========",
            "# Environment variables:",
            "${HOME}",
            "${A}",
            "",
            "# keys.txt:",
            "${alpha}",
            "${alpha}",
            "${zeta}",
            "",
            "...DONE!",
        ]
    );
    assert!(r.error.is_none());
    // the environment's list is taken out of the record, the keyfile's stays
    assert!(u.get("ENV").is_none());
    assert_eq!(u.len(), 1);
    assert_eq!(u.get("keys.txt").unwrap().len(), 3);
}

#[test]
fn report_fails_on_missing_keys() {
    let mut u = used(&[("Missing properties", "X", "X"), ("f", "b", "1"), ("f", "B", "2")]);
    let r = result_report(&mut u, "p.properties");
    assert_eq!(
        r.lines,
        vec![
            "======== RESULTS ========",
            "# f:",
            "${B}",
            "${b}",
            "",
            "Missing variables found in p.properties:",
            "${X}",
            "",
        ]
    );
    assert_eq!(r.error, Some("ERROR: Must replace all found variables\n\n".to_string()));
    assert!(u.get("Missing properties").is_none());
    assert_eq!(u.len(), 1);
}

#[test]
fn report_without_variables() {
    let r = result_report(&mut UsedKeys::new(), "p");
    assert_eq!(
        r.lines,
        vec!["======== RESULTS ========", "[No variables to substitute!]\n", "...DONE!"]
    );
    assert!(r.error.is_none());
}
