use indexmap::IndexMap;
use ptt::error::TemplateError;
use ptt::moustache::{
    find_and_replace_moustaches, find_moustaches, get_response_for_moustaches, prompt_for,
    replace_moustaches,
};
use ptt::text::trim;

fn keys(map: &IndexMap<String, String>) -> Vec<String> {
    map.keys().cloned().collect()
}

#[test]
fn find_moustaches_in_template_test() {
    let txt = "{{this}} {{is}} {{this}} {{again}}";
    let mut map = IndexMap::new();
    map.insert("this".to_string(), String::new());
    map.insert("is".to_string(), String::new());
    map.insert("again".to_string(), String::new());
    assert_eq!(find_moustaches(txt), map);
}

#[test]
fn replace_in_template_test() {
    let txt = "{{this}} {{is}} {{this}} {{again}}";
    let out = "another boy another day";
    let mut map = IndexMap::new();
    map.insert("this".to_string(), "another".to_string());
    map.insert("is".to_string(), "boy".to_string());
    map.insert("again".to_string(), "day".to_string());
    assert_eq!(replace_moustaches(txt, map), out);
}

#[test]
fn text_without_tokens_has_no_placeholders() {
    let txt = "plain text, with {braces} and {{ }} and }}{{";
    assert!(find_moustaches(txt).is_empty());
    assert_eq!(replace_moustaches(txt, IndexMap::new()), txt);
}

#[test]
fn empty_text_has_no_placeholders() {
    assert!(find_moustaches("").is_empty());
    assert_eq!(replace_moustaches("", IndexMap::new()), "");
}

#[test]
fn keys_are_in_order_of_first_occurrence() {
    let map = find_moustaches("{{b}} {{a}} {{b}}");
    assert_eq!(keys(&map), vec!["b".to_string(), "a".to_string()]);
    assert!(map.values().all(|v| v.is_empty()));
}

#[test]
fn keys_are_letters_and_stand_once() {
    let map = find_moustaches("{{x}}{{x}}{{Yz}} {{x}} {{Yz}}{{q}}");
    assert_eq!(keys(&map), vec!["x".to_string(), "Yz".to_string(), "q".to_string()]);
    for k in map.keys() {
        assert!(!k.is_empty());
        assert!(k.chars().all(|c| c.is_ascii_alphabetic()));
    }
}

#[test]
fn names_with_other_characters_are_not_tokens() {
    assert!(find_moustaches("{{a1}} {{a_b}} {{}} {{ a }} {{a}").is_empty());
    assert!(find_moustaches("{{é}} {{naïve}}").is_empty());
}

#[test]
fn token_after_a_stray_brace_is_found() {
    assert_eq!(keys(&find_moustaches("{{{a}}}")), vec!["a".to_string()]);
    assert_eq!(keys(&find_moustaches("{{x{{y}}")), vec!["y".to_string()]);
}

#[test]
fn tokens_in_text_with_wide_characters() {
    let map = find_moustaches("é⇒{{name}}日本{{other}}");
    assert_eq!(keys(&map), vec!["name".to_string(), "other".to_string()]);
}

#[test]
fn substitute_round_trip() {
    let mut map = IndexMap::new();
    map.insert("x".to_string(), "1".to_string());
    map.insert("y".to_string(), "2".to_string());
    assert_eq!(replace_moustaches("{{x}} and {{y}}", map), "1 and 2");
}

#[test]
fn a_value_that_holds_a_later_token_is_rewritten() {
    let mut map = IndexMap::new();
    map.insert("a".to_string(), "{{b}}".to_string());
    map.insert("b".to_string(), "z".to_string());
    assert_eq!(replace_moustaches("{{a}} {{b}}", map), "z z");
}

#[test]
fn a_value_that_holds_an_earlier_token_stays() {
    let mut map = IndexMap::new();
    map.insert("a".to_string(), "z".to_string());
    map.insert("b".to_string(), "{{a}}".to_string());
    assert_eq!(replace_moustaches("{{a}} {{b}}", map), "z {{a}}");
}

#[test]
fn keys_without_a_token_change_nothing() {
    let mut map = IndexMap::new();
    map.insert("missing".to_string(), "value".to_string());
    assert_eq!(replace_moustaches("no {{token}} here", map), "no {{token}} here");
}

#[test]
fn responses_are_trimmed_and_stored_by_position() {
    let mut map = find_moustaches("{{b}} {{a}} {{b}}");
    let responses = vec!["  one \n".to_string(), "two\r\n".to_string(), "unused".to_string()];
    assert!(get_response_for_moustaches(&mut map, &responses).is_ok());
    let mut expected = IndexMap::new();
    expected.insert("b".to_string(), "one".to_string());
    expected.insert("a".to_string(), "two".to_string());
    assert_eq!(map, expected);
    assert_eq!(keys(&map), vec!["b".to_string(), "a".to_string()]);
}

#[test]
fn too_few_responses_close_the_input() {
    let mut map = find_moustaches("{{b}} {{a}}");
    let before = map.clone();
    let outcome = get_response_for_moustaches(&mut map, &vec!["one".to_string()]);
    assert!(matches!(outcome, Err(TemplateError::InputStreamClosed)));
    assert_eq!(map, before);
}

#[test]
fn find_and_replace_fills_the_text() {
    let responses = vec![" another ".to_string(), "boy".to_string(), "day\n".to_string()];
    let out = find_and_replace_moustaches("{{this}} {{is}} {{this}} {{again}}", &responses);
    assert_eq!(out.unwrap(), "another boy another day");
}

#[test]
fn find_and_replace_fails_without_enough_responses() {
    let out = find_and_replace_moustaches("{{a}} {{b}}", &vec!["x".to_string()]);
    assert!(matches!(out, Err(TemplateError::InputStreamClosed)));
}

#[test]
fn find_and_replace_without_tokens_needs_no_responses() {
    let out = find_and_replace_moustaches("nothing to fill", &Vec::new());
    assert_eq!(out.unwrap(), "nothing to fill");
}

#[test]
fn prompt_is_key_and_arrow() {
    assert_eq!(prompt_for("name"), "name ⇒ ");
}

#[test]
fn trim_removes_white_space_at_both_ends() {
    assert_eq!(trim("  a b \t\n"), "a b");
    assert_eq!(trim("\u{3000}x\u{a0}"), "x");
    assert_eq!(trim(" \n\t"), "");
    assert_eq!(trim(""), "");
    assert_eq!(trim("kept"), "kept");
}
