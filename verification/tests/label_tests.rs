use plz::label::{label_of_url, titlecase};

#[test]
fn label_truncates_at_first_dot_after_www() {
    assert_eq!(label_of_url("https://www.example.com/x").unwrap(), "Example");
}

#[test]
fn label_without_www_uses_first_component() {
    assert_eq!(label_of_url("https://mirror.net/file").unwrap(), "Mirror");
}

#[test]
fn label_keeps_inner_case() {
    assert_eq!(label_of_url("https://mediaFire.com/q").unwrap(), "MediaFire");
}

#[test]
fn label_needs_a_scheme() {
    assert!(label_of_url("www.example.com/x").is_none());
}

#[test]
fn label_needs_a_dot_after_the_host_start() {
    assert!(label_of_url("https://localhost/x").is_none());
    assert!(label_of_url("https://.com/x").is_none());
}

#[test]
fn titlecase_uppercases_the_first_alphabetic_character() {
    assert_eq!(titlecase("example"), "Example");
    assert_eq!(titlecase("Already"), "Already");
    assert_eq!(titlecase("1ab"), "1Ab");
    assert_eq!(titlecase("1fichier"), "1Fichier");
    assert_eq!(titlecase("x"), "X");
    assert_eq!(titlecase("123"), "123");
}

#[test]
fn titlecase_applies_the_unicode_mapping() {
    assert_eq!(titlecase("égal"), "Égal");
    assert_eq!(titlecase("ßeta"), "SSeta");
}

#[test]
fn label_titlecases_past_leading_digits() {
    assert_eq!(label_of_url("https://1fichier.com/q").unwrap(), "1Fichier");
}
