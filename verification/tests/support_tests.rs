use plz::checkup::{alias_warning, games_dir_warning, prune_ignore, AliasWarning, GamesDirWarning};
use plz::config::{provider_name, provider_of_name, Provider};
use plz::paths::parent_dir;
use plz::text::{is_affirmative, replace_char, replace_str, str_eq, trim};
use plz::update::update_available;

#[test]
fn parent_dir_cuts_at_last_separator() {
    assert_eq!(parent_dir("/games/doom/doom.exe", '/').unwrap(), "/games/doom");
    assert_eq!(parent_dir("C:\\g\\doom.exe", '\\').unwrap(), "C:\\g");
}

#[test]
fn parent_dir_of_root_entry_is_the_root() {
    assert_eq!(parent_dir("/doom.exe", '/').unwrap(), "/");
}

#[test]
fn parent_dir_without_separator_is_reported() {
    assert!(parent_dir("doom.exe", '/').is_none());
    assert!(parent_dir("", '/').is_none());
}

#[test]
fn parent_dir_of_the_bare_root_is_reported() {
    assert!(parent_dir("/", '/').is_none());
}

#[test]
fn games_dir_warnings_follow_the_filesystem_answers() {
    assert_eq!(games_dir_warning("/g", false, false, '/'), Some(GamesDirWarning::Missing));
    assert_eq!(games_dir_warning("/g", true, false, '/'), Some(GamesDirWarning::NotADirectory));
    assert_eq!(games_dir_warning("g", true, true, '/'), Some(GamesDirWarning::NoSeparator));
    assert_eq!(games_dir_warning("/g", true, true, '/'), None);
}

#[test]
fn alias_warnings_follow_the_filesystem_answers() {
    assert_eq!(alias_warning(false, false), Some(AliasWarning::TargetMissing));
    assert_eq!(alias_warning(true, false), Some(AliasWarning::TargetNotAFile));
    assert_eq!(alias_warning(true, true), None);
}

#[test]
fn prune_keeps_only_existing_targets_in_order() {
    let ignore = vec!["/a".to_string(), "/b".to_string(), "/c".to_string()];
    let keep = vec![true, false, true];
    assert_eq!(prune_ignore(&ignore, &keep), vec!["/a".to_string(), "/c".to_string()]);
}

#[test]
fn update_is_announced_only_for_another_version() {
    assert!(!update_available("v1.2.3", "1.2.3"));
    assert!(update_available("v1.3.0", "1.2.3"));
    assert!(update_available("1.2.3", "1.2.3"));
}

#[test]
fn provider_names_round_trip() {
    for p in [Provider::SteamRip, Provider::Game3rb, Provider::GogGames] {
        assert_eq!(provider_of_name(provider_name(p)), Some(p));
    }
    assert_eq!(provider_name(Provider::GogGames), "GOG Games");
    assert!(provider_of_name("Steam").is_none());
}

#[test]
fn trim_strips_surrounding_whitespace() {
    assert_eq!(trim("  x y\t\n"), "x y");
    assert_eq!(trim("none"), "none");
    assert_eq!(trim(" \t "), "");
}

#[test]
fn trim_strips_unicode_whitespace_too() {
    assert_eq!(trim("\u{0B}x\u{0C}"), "x");
    assert_eq!(trim("\u{A0}wide\u{3000}"), "wide");
    assert_eq!(trim("\u{2028}y\u{2029}"), "y");
}

#[test]
fn replace_str_replaces_every_occurrence() {
    assert_eq!(replace_str("aXbXc", "X", "--"), "a--b--c");
    assert_eq!(replace_str("Download Cool", "Download ", ""), "Cool");
    assert_eq!(replace_str("none", "xyz", "q"), "none");
}

#[test]
fn replace_char_maps_single_characters() {
    assert_eq!(replace_char("a b c", ' ', '-'), "a-b-c");
}

#[test]
fn affirmative_replies_are_y_and_yes() {
    assert!(is_affirmative("y"));
    assert!(is_affirmative("YES"));
    assert!(is_affirmative("  Yes \n"));
    assert!(is_affirmative("yes\u{0B}"));
    assert!(!is_affirmative("no"));
    assert!(!is_affirmative(""));
    assert!(!is_affirmative("yep"));
}

#[test]
fn str_eq_compares_contents() {
    assert!(str_eq("abc", "abc"));
    assert!(!str_eq("abc", "abd"));
    assert!(!str_eq("abc", "ab"));
}
