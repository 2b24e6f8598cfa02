use mensa_menu::text::{first_token_of, join_with, split_trim, str_ieq, str_lex_le, trim_of};

#[test]
fn trims_unicode_whitespace() {
    assert_eq!(trim_of("  Gulasch \u{a0}"), "Gulasch");
    assert_eq!(trim_of("\t\n"), "");
    assert_eq!(trim_of("x"), "x");
}

#[test]
fn splits_and_trims_segments() {
    let parts = split_trim("Gulasch | Rind, Sauce, Kartoffeln", '|');
    assert_eq!(parts, vec!["Gulasch".to_string(), "Rind, Sauce, Kartoffeln".to_string()]);
    let single = split_trim("  Eintopf ", '|');
    assert_eq!(single, vec!["Eintopf".to_string()]);
    let several = split_trim("a|b| c ", '|');
    assert_eq!(several, vec!["a".to_string(), "b".to_string(), "c".to_string()]);
}

#[test]
fn first_token_of_category_text() {
    assert_eq!(first_token_of("Tellergericht süß"), Some("Tellergericht".to_string()));
    assert_eq!(first_token_of("  Wok  "), Some("Wok".to_string()));
    assert_eq!(first_token_of("   "), None);
    assert_eq!(first_token_of(""), None);
}

#[test]
fn joins_with_separator() {
    let v = vec!["a".to_string(), "b".to_string(), "c".to_string()];
    assert_eq!(join_with(&v, ", "), "a, b, c");
    let one = vec!["x".to_string()];
    assert_eq!(join_with(&one, ", "), "x");
    let empty: Vec<String> = Vec::new();
    assert_eq!(join_with(&empty, ", "), "");
}

#[test]
fn case_insensitive_class_compare() {
    assert!(str_ieq("MENUES", "menues"));
    assert!(str_ieq("Extras", "extras"));
    assert!(!str_ieq("menu", "menues"));
}

#[test]
fn lexicographic_order_of_names() {
    assert!(str_lex_le("Burger", "Wok"));
    assert!(!str_lex_le("Wok", "Burger"));
    assert!(str_lex_le("Wok", "Wok"));
    assert!(str_lex_le("Burger", "Burgers"));
}
