use ptt::lister::{get_template_name, list_available_templates};
use ptt::text::{has_prefix, has_suffix};

#[test]
fn dated_and_plain_templates_are_listed_in_order() {
    let files = vec!["note.txt".to_string(), "DATE-log.txt".to_string()];
    assert_eq!(
        list_available_templates(&files),
        vec!["(DATE) log".to_string(), "note".to_string()]
    );
}

#[test]
fn listing_sorts_by_display_name() {
    let files = vec![
        "zeta.txt".to_string(),
        "DATE-zeta.txt".to_string(),
        "alpha.txt".to_string(),
        "Beta.txt".to_string(),
        "alpha.txt".to_string(),
    ];
    assert_eq!(
        list_available_templates(&files),
        vec![
            "(DATE) zeta".to_string(),
            "Beta".to_string(),
            "alpha".to_string(),
            "alpha".to_string(),
            "zeta".to_string(),
        ]
    );
}

#[test]
fn listing_of_no_files_is_empty() {
    assert!(list_available_templates(&Vec::new()).is_empty());
}

#[test]
fn display_names() {
    assert_eq!(get_template_name("DATE-log.txt"), "(DATE) log");
    assert_eq!(get_template_name("note.txt"), "note");
    assert_eq!(get_template_name("README"), "README");
    assert_eq!(get_template_name("DATE-plain"), "(DATE) plain");
    assert_eq!(get_template_name(".txt"), "");
    assert_eq!(get_template_name("DATE-.txt"), "(DATE) ");
    assert_eq!(get_template_name("a.txt.txt"), "a.txt");
    assert_eq!(get_template_name("my-DATE-x.txt"), "my-DATE-x");
}

#[test]
fn prefixes_and_suffixes() {
    assert!(has_prefix("DATE-x", "DATE-"));
    assert!(!has_prefix("DAT", "DATE-"));
    assert!(has_prefix("abc", ""));
    assert!(has_suffix("é.txt", ".txt"));
    assert!(!has_suffix("txt", ".txt"));
    assert!(!has_suffix("a.txT", ".txt"));
}
