use plz::registry::{AddOutcome, Registry, RegistryError};

fn sample_registry() -> Registry {
    let mut r = Registry::new();
    assert_eq!(r.add("ab", "/g/ab.exe", false), AddOutcome::Added);
    assert_eq!(r.add("a", "/g/a.exe", false), AddOutcome::Added);
    assert_eq!(r.add("abc", "/g/abc.exe", false), AddOutcome::Added);
    r
}

#[test]
fn add_and_get_roundtrip() {
    let r = sample_registry();
    assert_eq!(r.len(), 3);
    assert_eq!(r.get("ab").unwrap(), "/g/ab.exe");
    assert_eq!(r.get("a").unwrap(), "/g/a.exe");
    assert_eq!(r.get("abc").unwrap(), "/g/abc.exe");
}

#[test]
fn get_missing_reports_alias_not_found() {
    let r = sample_registry();
    assert_eq!(r.get("zzz"), Err(RegistryError::AliasNotFound));
}

#[test]
fn remove_deletes_and_reports_missing() {
    let mut r = sample_registry();
    assert_eq!(r.remove("ab"), Ok(()));
    assert_eq!(r.len(), 2);
    assert_eq!(r.get("ab"), Err(RegistryError::AliasNotFound));
    assert_eq!(r.remove("ab"), Err(RegistryError::AliasNotFound));
    assert_eq!(r.len(), 2);
}

#[test]
fn overwrite_without_confirmation_changes_nothing() {
    let mut r = Registry::new();
    assert_eq!(r.add("x", "p1", false), AddOutcome::Added);
    assert_eq!(r.add("x", "p2", false), AddOutcome::Refused);
    assert_eq!(r.get("x").unwrap(), "p1");
}

#[test]
fn overwrite_with_confirmation_replaces_the_path() {
    let mut r = Registry::new();
    assert_eq!(r.add("x", "p1", false), AddOutcome::Added);
    assert_eq!(r.add("x", "p2", true), AddOutcome::Overwritten);
    assert_eq!(r.get("x").unwrap(), "p2");
    assert_eq!(r.len(), 1);
}

#[test]
fn names_stay_unique_over_add_and_remove() {
    let mut r = Registry::new();
    r.add("one", "/1", false);
    r.add("two", "/2", false);
    r.add("one", "/1b", true);
    r.remove("two").unwrap();
    r.add("two", "/2b", false);
    r.add("two", "/2c", false);
    let listing = r.list();
    for i in 0..listing.len() {
        for j in (i + 1)..listing.len() {
            assert_ne!(listing[i].0, listing[j].0);
        }
    }
    assert_eq!(r.len(), 2);
    assert_eq!(r.get("one").unwrap(), "/1b");
    assert_eq!(r.get("two").unwrap(), "/2b");
}

#[test]
fn list_orders_by_descending_name_length() {
    let r = sample_registry();
    let listing = r.list();
    let names: Vec<&str> = listing.iter().map(|p| p.0.as_str()).collect();
    assert_eq!(names, vec!["abc", "ab", "a"]);
}

#[test]
fn list_keeps_insertion_order_between_equal_lengths() {
    let mut r = Registry::new();
    r.add("bb", "/1", false);
    r.add("aa", "/2", false);
    r.add("cc", "/3", false);
    let listing = r.list();
    let names: Vec<&str> = listing.iter().map(|p| p.0.as_str()).collect();
    assert_eq!(names, vec!["bb", "aa", "cc"]);
}

#[test]
fn sort_by_key_length_sorts_pairs() {
    let pairs = vec![
        ("a".to_string(), "1".to_string()),
        ("dddd".to_string(), "2".to_string()),
        ("bb".to_string(), "3".to_string()),
    ];
    let sorted = plz::registry::sort_by_key_length(pairs);
    let names: Vec<&str> = sorted.iter().map(|p| p.0.as_str()).collect();
    assert_eq!(names, vec!["dddd", "bb", "a"]);
}

#[test]
fn random_on_empty_registry_reports_empty() {
    let r = Registry::new();
    assert_eq!(r.random(0), Err(RegistryError::EmptyRegistry));
    assert_eq!(r.random(17), Err(RegistryError::EmptyRegistry));
}

#[test]
fn random_picks_by_draw_modulo_len() {
    let mut r = Registry::new();
    r.add("first", "/f", false);
    r.add("second", "/s", false);
    let (name, path) = r.random(3).unwrap();
    assert_eq!(name, "second");
    assert_eq!(path, "/s");
    let (name0, _) = r.random(2).unwrap();
    assert_eq!(name0, "first");
}

#[test]
fn contains_path_finds_exact_targets() {
    let r = sample_registry();
    assert!(r.contains_path("/g/ab.exe"));
    assert!(!r.contains_path("/g/zz.exe"));
}
