//! The placeholder and keyfile grammars of the library, checked against the
//! regular expressions they stand for, as the regex crate reads them.
use proper::{parse_key_line, replace_var, EnvLookup, KeysAndSources, UsedKeys, ValueAndSource};
use regex::{Captures, Regex};

fn regex_substitute(line: &str, values: &[(&str, &str)]) -> String {
    let re = Regex::new(r"(?P<full>\$\{\s*(?P<var>[^\}]*)\s*\})").unwrap();
    let head = line.split('#').next().unwrap();
    let tail = &line[head.len()..];
    let replaced = re.replace_all(head, |cap: &Captures| {
        let key = cap.name("var").unwrap().as_str().trim().to_string();
        values.iter().find(|kv| kv.0 == key).map(|kv| kv.1.to_string()).unwrap_or(key)
    });
    format!("{}{}", replaced, tail)
}

fn library_substitute(line: &str, values: &[(&str, &str)]) -> String {
    let mut dict = KeysAndSources::new();
    for (k, v) in values {
        dict.insert(k.to_string(), ValueAndSource { value: v.to_string(), source: "f".to_string() });
    }
    let env: Vec<EnvLookup> =
        proper::placeholder_keys(line).iter().map(|_| EnvLookup::Unset).collect();
    let mut used = UsedKeys::new();
    let mut result = Vec::new();
    replace_var(line, &Some(dict), true, &env, &mut used, &mut result);
    result.pop().unwrap()
}

const LINES: &[&str] = &[
    "",
    "Hello ${val}",
    "${a}${b}${a}",
    "pre ${ a } mid ${\tb\u{a0}} post",
    "${a ${b} }",
    "$${a}{b}",
    "${} and ${ }",
    "${a} # ${b}",
    "no closing ${a",
    "}{${b}}{",
    "$ {a} $$ {{b}} ${b}x${c}",
    "ünï ${ünï} ${c}",
    "${a}${b}${c}${d}${e}",
    "a\u{2003}${ \u{2003}b\u{2003} }",
    "$${a}${c}",
];

const VALUES: &[&[(&str, &str)]] = &[
    &[("a", "1"), ("b", "two"), ("c", "")],
    &[("a", "$$"), ("b", "$var|${full}|$0|$2|${+1}|$1a|$"), ("c", "${b}")],
    &[("a", "${x}"), ("b", "}"), ("c", "$ {"), ("d", "${"), ("e", "x$")],
    &[("a", "{z}"), ("c", "C"), ("b", "$5")],
    &[("ünï", "ö"), ("a", "${99999999999999999999999}"), ("b", "${var}${ var }")],
];

#[test]
fn substitution_agrees_with_the_pattern() {
    for line in LINES {
        for values in VALUES {
            assert_eq!(
                library_substitute(line, values),
                regex_substitute(line, values),
                "line {:?} with {:?}",
                line,
                values
            );
        }
    }
}

fn regex_key_line(line: &str) -> Option<(String, String)> {
    let key_regex = Regex::new(r"^\s*(?P<key>[^\s=]*)\s*=\s*(?P<val>.*)").unwrap();
    let splits: Vec<&str> = line.split('#').collect();
    let cap = key_regex.captures_iter(splits[0]).next()?;
    Some((cap.name("key").unwrap().as_str().to_string(), cap.name("val").unwrap().as_str().to_string()))
}

#[test]
fn key_lines_agree_with_the_pattern() {
    let lines = [
        "KEY=VALUE",
        "  KEY  =  VALUE  ",
        "a=b=c",
        "a=b =c",
        "a =b=c",
        "=x",
        " = ",
        "novalue",
        "a b = c",
        "key= # comment",
        "# only a comment",
        "k=v#c=d",
        "\tk\u{2003}=\u{2003}v w",
        "x==y",
        "URL=http://h/?a=b",
        "a==",
        "a= b",
        "ab=",
        "",
    ];
    for line in lines {
        assert_eq!(parse_key_line(line), regex_key_line(line), "line {:?}", line);
    }
}
