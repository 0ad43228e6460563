use plz::config::Config;
use plz::registry::AddOutcome;
use plz::scanner::{
    apply_scan_response, classify_entries, entry_is_executable, scan_decision, should_prompt,
    ScanAction, ScanEntry,
};

fn file(name: &str, path: &str) -> ScanEntry {
    ScanEntry { name: name.to_string(), path: path.to_string(), is_file: true, is_dir: false }
}

fn dir(name: &str, path: &str) -> ScanEntry {
    ScanEntry { name: name.to_string(), path: path.to_string(), is_file: false, is_dir: true }
}

#[test]
fn classify_splits_executables_and_subdirs() {
    let entries = vec![
        file("game.exe", "/g/game.exe"),
        file("readme.txt", "/g/readme.txt"),
        dir("dlc", "/g/dlc"),
        file("unins000.exe", "/g/unins000.exe"),
        file("UnityCrashHandler64.exe", "/g/UnityCrashHandler64.exe"),
        file("UnityCrashHandler32.exe", "/g/UnityCrashHandler32.exe"),
        dir("saves", "/g/saves"),
    ];
    let (execs, dirs) = classify_entries(&entries);
    let exec_names: Vec<&str> = execs.iter().map(|e| e.name.as_str()).collect();
    let dir_names: Vec<&str> = dirs.iter().map(|e| e.name.as_str()).collect();
    assert_eq!(exec_names, vec!["game.exe"]);
    assert_eq!(dir_names, vec!["dlc", "saves"]);
}

#[test]
fn blacklisted_installers_are_not_executables() {
    assert!(!entry_is_executable(&file("unins000.exe", "/g/unins000.exe")));
    assert!(!entry_is_executable(&file("game.exe.bak", "/g/game.exe.bak")));
    assert!(!entry_is_executable(&dir("odd.exe", "/g/odd.exe")));
    assert!(entry_is_executable(&file("launcher.exe", "/g/launcher.exe")));
}

#[test]
fn walk_prompts_where_executables_are() {
    assert_eq!(scan_decision(2, 3), ScanAction::PromptExecutables);
    assert_eq!(scan_decision(1, 0), ScanAction::PromptExecutables);
}

#[test]
fn walk_descends_where_only_subdirs_are() {
    assert_eq!(scan_decision(0, 2), ScanAction::RecurseSubdirs);
}

#[test]
fn leaf_directory_stops_without_prompts_or_changes() {
    let entries: Vec<ScanEntry> = vec![file("notes.txt", "/g/notes.txt")];
    let (execs, dirs) = classify_entries(&entries);
    assert!(execs.is_empty());
    assert!(dirs.is_empty());
    assert_eq!(scan_decision(execs.len(), dirs.len()), ScanAction::Stop);
    // The walk touches the record only on a prompt's reply, and a stopped
    // branch issues none; the record stays exactly as it was.
    let config = Config::first_run();
    assert_eq!(config.registry.len(), 0);
    assert!(config.autoadd_ignore.is_empty());
}

#[test]
fn prompt_is_skipped_for_ignored_and_aliased_paths() {
    let mut config = Config::first_run();
    config.autoadd_ignore.push("/g/skip.exe".to_string());
    config.registry.add("doom", "/g/doom.exe", false);
    assert!(!should_prompt(&config, "/g/skip.exe"));
    assert!(!should_prompt(&config, "/g/doom.exe"));
    assert!(should_prompt(&config, "/g/new.exe"));
}

#[test]
fn empty_reply_ignores_the_path() {
    let mut config = Config::first_run();
    let r = apply_scan_response(&mut config, "/g/new.exe", "", false);
    assert!(r.is_none());
    assert_eq!(config.autoadd_ignore, vec!["/g/new.exe".to_string()]);
    assert_eq!(config.registry.len(), 0);
}

#[test]
fn named_reply_adds_the_alias() {
    let mut config = Config::first_run();
    let r = apply_scan_response(&mut config, "/g/new.exe", "new", false);
    assert_eq!(r, Some(AddOutcome::Added));
    assert!(config.autoadd_ignore.is_empty());
    assert_eq!(config.registry.get("new").unwrap(), "/g/new.exe");
}

#[test]
fn colliding_reply_is_gated_on_confirmation() {
    let mut config = Config::first_run();
    config.registry.add("doom", "/old/doom.exe", false);
    let refused = apply_scan_response(&mut config, "/g/doom2.exe", "doom", false);
    assert_eq!(refused, Some(AddOutcome::Refused));
    assert_eq!(config.registry.get("doom").unwrap(), "/old/doom.exe");
    let overwritten = apply_scan_response(&mut config, "/g/doom2.exe", "doom", true);
    assert_eq!(overwritten, Some(AddOutcome::Overwritten));
    assert_eq!(config.registry.get("doom").unwrap(), "/g/doom2.exe");
}
