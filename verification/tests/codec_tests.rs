use plz::codec::{parse_config, render_config};
use plz::config::{Config, Provider};
use plz::registry::Registry;

fn make_config(
    games_dir: &str,
    check_for_updates: bool,
    provider: Provider,
    ignore: Vec<&str>,
    aliases: Vec<(&str, &str)>,
) -> Config {
    let mut registry = Registry::new();
    for (name, path) in aliases {
        registry.add(name, path, false);
    }
    Config {
        games_dir: games_dir.to_string(),
        check_for_updates,
        default_fetch_provider: provider,
        autoadd_ignore: ignore.into_iter().map(|s| s.to_string()).collect(),
        registry,
    }
}

fn assert_same_config(a: &Config, b: &Config) {
    assert_eq!(a.games_dir, b.games_dir);
    assert_eq!(a.check_for_updates, b.check_for_updates);
    assert_eq!(a.default_fetch_provider, b.default_fetch_provider);
    assert_eq!(a.autoadd_ignore, b.autoadd_ignore);
    assert_eq!(a.registry.len(), b.registry.len());
    for i in 0..a.registry.len() {
        assert_eq!(a.registry.entry_at(i), b.registry.entry_at(i));
    }
}

#[test]
fn default_record_renders_exactly() {
    let c = Config::first_run();
    let text = render_config(&c);
    assert_eq!(
        text,
        "games_dir = \"\"\ncheck_for_updates = true\ndefault_fetch_provider = \"SteamRIP\"\nautoadd_ignore = []\n\n[aliases]\n"
    );
}

#[test]
fn full_record_renders_exactly() {
    let c = make_config(
        "/games",
        false,
        Provider::GogGames,
        vec!["/games/skip.exe"],
        vec![("doom", "/games/doom.exe")],
    );
    let text = render_config(&c);
    assert_eq!(
        text,
        "games_dir = \"/games\"\ncheck_for_updates = false\ndefault_fetch_provider = \"GOG Games\"\nautoadd_ignore = [\"/games/skip.exe\"]\n\n[aliases]\n\"doom\" = \"/games/doom.exe\"\n"
    );
}

#[test]
fn round_trip_default_record() {
    let c = Config::first_run();
    let back = parse_config(render_config(&c).as_str()).unwrap();
    assert_same_config(&c, &back);
}

#[test]
fn round_trip_full_record() {
    let c = make_config(
        "C:\\Games",
        true,
        Provider::Game3rb,
        vec!["C:\\Games\\a.exe", "C:\\Games\\b.exe"],
        vec![("doom", "C:\\Games\\doom.exe"), ("quake 2", "C:\\Games\\q2\\quake2.exe")],
    );
    let back = parse_config(render_config(&c).as_str()).unwrap();
    assert_same_config(&c, &back);
}

#[test]
fn round_trip_awkward_field_values() {
    let c = make_config(
        " spaced dir \\ with \"quotes\"",
        true,
        Provider::SteamRip,
        vec!["", "\"", "\\", "a, b]", "line\nbreak"],
        vec![("", "empty name target"), ("w\"e\\ird", "p\nq")],
    );
    let back = parse_config(render_config(&c).as_str()).unwrap();
    assert_same_config(&c, &back);
}

#[test]
fn round_trip_empty_mappings() {
    let c = make_config("", false, Provider::SteamRip, vec![], vec![]);
    let back = parse_config(render_config(&c).as_str()).unwrap();
    assert_same_config(&c, &back);
}

#[test]
fn parse_rejects_garbage() {
    assert!(parse_config("not a config at all").is_none());
    assert!(parse_config("").is_none());
}

#[test]
fn parse_rejects_truncated_document() {
    let c = Config::first_run();
    let text = render_config(&c);
    let cut = &text[..text.len() - 12];
    assert!(parse_config(cut).is_none());
}

#[test]
fn parse_rejects_bad_boolean() {
    let text = "games_dir = \"\"\ncheck_for_updates = maybe\ndefault_fetch_provider = \"SteamRIP\"\nautoadd_ignore = []\n\n[aliases]\n";
    assert!(parse_config(text).is_none());
}

#[test]
fn parse_rejects_unknown_provider() {
    let text = "games_dir = \"\"\ncheck_for_updates = true\ndefault_fetch_provider = \"Nowhere\"\nautoadd_ignore = []\n\n[aliases]\n";
    assert!(parse_config(text).is_none());
}

#[test]
fn parse_rejects_duplicate_alias_names() {
    let text = "games_dir = \"\"\ncheck_for_updates = true\ndefault_fetch_provider = \"SteamRIP\"\nautoadd_ignore = []\n\n[aliases]\n\"a\" = \"/1\"\n\"a\" = \"/2\"\n";
    assert!(parse_config(text).is_none());
}

#[test]
fn parse_rejects_trailing_garbage() {
    let c = Config::first_run();
    let mut text = render_config(&c);
    text.push_str("extra");
    assert!(parse_config(text.as_str()).is_none());
}

#[test]
fn parse_accepts_handwritten_canonical_text() {
    let text = "games_dir = \"/g\"\ncheck_for_updates = false\ndefault_fetch_provider = \"Game3rb\"\nautoadd_ignore = [\"/g/x.exe\", \"/g/y.exe\"]\n\n[aliases]\n\"d\" = \"/g/d.exe\"\n";
    let c = parse_config(text).unwrap();
    assert_eq!(c.games_dir, "/g");
    assert!(!c.check_for_updates);
    assert_eq!(c.default_fetch_provider, Provider::Game3rb);
    assert_eq!(c.autoadd_ignore, vec!["/g/x.exe".to_string(), "/g/y.exe".to_string()]);
    assert_eq!(c.registry.len(), 1);
    assert_eq!(c.registry.get("d").unwrap(), "/g/d.exe");
    assert_eq!(render_config(&c), text);
}
