use indexmap::IndexMap;
use ptt::moustache::{find_moustaches, replace_moustaches};
use regex::Regex;

fn matched_names(txt: &str) -> Vec<String> {
    let pattern = Regex::new("\\{\\{(?P<moustache>[a-zA-Z]+)\\}\\}").unwrap();
    let mut names: Vec<String> = Vec::new();
    for cap in pattern.captures_iter(txt) {
        let name = cap["moustache"].to_string();
        if !names.contains(&name) {
            names.push(name);
        }
    }
    names
}

fn found_names(txt: &str) -> Vec<String> {
    let map = find_moustaches(txt);
    assert!(map.values().all(|v| v.is_empty()));
    map.keys().cloned().collect()
}

fn sample_texts() -> Vec<&'static str> {
    vec![
        "",
        "{{this}} {{is}} {{this}} {{again}}",
        "{{b}} {{a}} {{b}}",
        "{{{a}}}",
        "{{{{a}}}}",
        "{{a}{{b}}",
        "{{a}}}}{{",
        "{{a{{b}}c}}",
        "{{ab1}} {{ab}}1}} {{1ab}}",
        "{{}} {{ }} {{_}} {{a b}}",
        "{{Z}}{{z}}{{A}}{{a}}{{Z}}",
        "{{é}}{{name}}⇒{{日本}}{{other}}é",
        "{ {a} } { {{b} } {{c}}",
        "{{a}}\n{{b}}\r\n\t{{c}}",
        "{{abcdefghijklmnopqrstuvwxyzABCDEFGHIJKLMNOPQRSTUVWXYZ}}",
        "{{`}} {{[}} {{@}} {{{}} {{a{}}",
    ]
}

#[test]
fn finds_what_the_pattern_matches() {
    for txt in sample_texts() {
        assert_eq!(found_names(txt), matched_names(txt), "in {:?}", txt);
    }
}

#[test]
fn replaces_as_the_standard_replace_does() {
    let cases = vec![
        ("{{{a}}}", "a", "X"),
        ("{{a}}{{a}}", "a", ""),
        ("{{a}}{{a}}", "a", "{{a}}"),
        ("{{}}{{}}{{}}{{}}{{}}", "}}{{", "-"),
        ("{{{{{{}}", "{{", "+"),
        ("é{{k}}日本{{k}}", "k", "⇒"),
        ("no token", "a", "X"),
        ("{{a}", "a", "X"),
        ("", "a", "X"),
    ];
    for (txt, key, value) in cases {
        let mut map = IndexMap::new();
        map.insert(key.to_string(), value.to_string());
        let token = format!("{{{{{}}}}}", key);
        assert_eq!(replace_moustaches(txt, map), txt.replace(&token, value), "in {:?}", txt);
    }
}
