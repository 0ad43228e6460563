//! The executable scanner behind bulk registration.
//!
//! The walk itself — reading directories, prompting on the console — is the
//! caller's affair. This module holds the rules: which entries of a
//! directory count as executables, which as subdirectories to descend into,
//! what the walk does at each level, which executables are offered for a
//! name at all, and what one prompt's reply does to the record. The record
//! is only ever touched through `apply_scan_response`, and only for an
//! entry the walk decided to prompt for.

use crate::config::Config;
use crate::registry::AddOutcome;
use crate::registry::has_name;
use crate::registry::name_index;
use crate::text::ends_with;
use crate::text::ends_with_str;
use crate::text::str_eq;
use vstd::prelude::*;
use vstd::seq_lib::group_filter_ensures;
use vstd::string::StrSliceExecFns;

verus! {

broadcast use group_filter_ensures;

/// One directory entry as the walk sees it: bare name, full path, and what
/// the filesystem says it is.
pub struct ScanEntry {
    pub name: String,
    pub path: String,
    pub is_file: bool,
    pub is_dir: bool,
}

/// Installer and crash-handler binaries that are never offered for an alias.
pub open spec fn is_blacklisted(name: Seq<char>) -> bool {
    name == "unins000.exe"@ || name == "UnityCrashHandler64.exe"@
        || name == "UnityCrashHandler32.exe"@
}

/// A file whose name ends in `.exe` and is not blacklisted.
pub open spec fn is_executable_entry(e: ScanEntry) -> bool {
    e.is_file && ends_with(e.name@, ".exe"@) && !is_blacklisted(e.name@)
}

/// A directory entry the walk may descend into: anything that is a
/// directory and did not already count as an executable.
pub open spec fn is_subdir_entry(e: ScanEntry) -> bool {
    !is_executable_entry(e) && e.is_dir
}

/// The executables of a directory listing, in listing order.
pub open spec fn spec_executables(s: Seq<ScanEntry>) -> Seq<ScanEntry> {
    s.filter(|e: ScanEntry| is_executable_entry(e))
}

/// The subdirectories of a directory listing, in listing order.
pub open spec fn spec_subdirs(s: Seq<ScanEntry>) -> Seq<ScanEntry> {
    s.filter(|e: ScanEntry| is_subdir_entry(e))
}

/// Whether this bare file name is on the blacklist.
fn blacklisted(name: &str) -> (r: bool)
    ensures
        r == is_blacklisted(name@),
{
    str_eq(name, "unins000.exe") || str_eq(name, "UnityCrashHandler64.exe") || str_eq(
        name,
        "UnityCrashHandler32.exe",
    )
}

/// Whether this entry counts as an executable.
pub fn entry_is_executable(e: &ScanEntry) -> (r: bool)
    ensures
        r == is_executable_entry(*e),
{
    e.is_file && ends_with_str(e.name.as_str(), ".exe") && !blacklisted(e.name.as_str())
}

/// Split a directory listing into its executables and its subdirectories,
/// both in listing order.
pub fn classify_entries(entries: &Vec<ScanEntry>) -> (r: (Vec<ScanEntry>, Vec<ScanEntry>))
    ensures
        r.0@ == spec_executables(entries@),
        r.1@ == spec_subdirs(entries@),
{
    let mut execs: Vec<ScanEntry> = Vec::new();
    let mut dirs: Vec<ScanEntry> = Vec::new();
    let n = entries.len();
    proof {
        reveal(Seq::filter);
        assert(execs@ =~= spec_executables(entries@.subrange(0, 0)));
        assert(dirs@ =~= spec_subdirs(entries@.subrange(0, 0)));
    }
    let mut i: usize = 0;
    while i < n
        invariant
            i <= n,
            n == entries@.len(),
            execs@ == spec_executables(entries@.subrange(0, i as int)),
            dirs@ == spec_subdirs(entries@.subrange(0, i as int)),
        decreases n - i,
    {
        let e = &entries[i];
        let copy = ScanEntry {
            name: e.name.clone(),
            path: e.path.clone(),
            is_file: e.is_file,
            is_dir: e.is_dir,
        };
        proof {
            assert(copy == entries@[i as int]);
        }
        if entry_is_executable(&copy) {
            execs.push(copy);
        } else if copy.is_dir {
            dirs.push(copy);
        }
        proof {
            reveal(Seq::filter);
            assert(entries@.subrange(0, i + 1).drop_last() =~= entries@.subrange(0, i as int));
            assert(entries@.subrange(0, i + 1).last() == entries@[i as int]);
            assert(execs@ =~= spec_executables(entries@.subrange(0, i + 1)));
            assert(dirs@ =~= spec_subdirs(entries@.subrange(0, i + 1)));
        }
        i = i + 1;
    }
    proof {
        assert(entries@.subrange(0, n as int) =~= entries@);
    }
    (execs, dirs)
}

/// What the walk does at one directory level.
#[derive(Clone, Copy, Debug, PartialEq, Eq, Structural)]
pub enum ScanAction {
    /// Offer each executable found at this level for a name.
    PromptExecutables,
    /// No executables here: descend into every subdirectory.
    RecurseSubdirs,
    /// Neither executables nor subdirectories: this branch is done.
    Stop,
}

/// The walk prompts where there are executables, descends where there are
/// only subdirectories, and otherwise stops.
pub open spec fn spec_scan_decision(has_execs: bool, has_dirs: bool) -> ScanAction {
    if has_execs {
        ScanAction::PromptExecutables
    } else if has_dirs {
        ScanAction::RecurseSubdirs
    } else {
        ScanAction::Stop
    }
}

/// Decide what the walk does at a level with these many executables and
/// subdirectories.
pub fn scan_decision(exec_count: usize, dir_count: usize) -> (r: ScanAction)
    ensures
        r == spec_scan_decision(exec_count > 0, dir_count > 0),
{
    if exec_count > 0 {
        ScanAction::PromptExecutables
    } else if dir_count > 0 {
        ScanAction::RecurseSubdirs
    } else {
        ScanAction::Stop
    }
}

/// Law: a directory with no executables and no subdirectories ends the walk
/// at that branch — the decision is `Stop`, so no prompt is issued there,
/// and the record, which the walk touches only on a prompt's reply, is left
/// as it was.
pub proof fn lemma_leaf_directory_stops(entries: Seq<ScanEntry>)
    requires
        spec_executables(entries).len() == 0,
        spec_subdirs(entries).len() == 0,
    ensures
        spec_scan_decision(
            spec_executables(entries).len() > 0,
            spec_subdirs(entries).len() > 0,
        ) == ScanAction::Stop,
{
}

/// Whether a discovered executable is offered for a name at all: not when
/// its path is already ignored, nor when some alias already points at it.
pub fn should_prompt(config: &Config, path: &str) -> (r: bool)
    ensures
        r == (!config@.autoadd_ignore.contains(path@) && !exists|i: int|
            0 <= i < config@.aliases.len() && config@.aliases[i].1 == path@),
{
    let n = config.autoadd_ignore.len();
    let mut i: usize = 0;
    while i < n
        invariant
            i <= n,
            n == config.autoadd_ignore@.len(),
            forall|j: int| 0 <= j < i ==> config.autoadd_ignore@[j]@ != path@,
        decreases n - i,
    {
        if str_eq(config.autoadd_ignore[i].as_str(), path) {
            proof {
                assert(config@.autoadd_ignore[i as int] == path@);
                assert(config@.autoadd_ignore.contains(path@));
            }
            return false;
        }
        i = i + 1;
    }
    proof {
        assert forall|j: int| 0 <= j < config@.autoadd_ignore.len() implies config@.autoadd_ignore[j]
            != path@ by {
            assert(config@.autoadd_ignore[j] == config.autoadd_ignore@[j]@);
        }
        assert(!config@.autoadd_ignore.contains(path@));
    }
    let has = config.registry.contains_path(path);
    proof {
        assert(config@.aliases == config.registry@);
        if has {
            let w = choose|i: int|
                0 <= i < config.registry@.len() && config.registry@[i].1 == path@;
            assert(0 <= w < config@.aliases.len() && config@.aliases[w].1 == path@);
        }
    }
    !has
}

/// Apply one prompt's reply for a discovered executable: an empty name puts
/// the path on the ignore list instead, any other name inserts the binding,
/// overwriting an existing one only when the caller confirmed it.
pub fn apply_scan_response(config: &mut Config, path: &str, name: &str, confirmed: bool) -> (r:
    Option<AddOutcome>)
    requires
        old(config).wf(),
    ensures
        final(config).wf(),
        final(config).games_dir == old(config).games_dir,
        final(config).check_for_updates == old(config).check_for_updates,
        final(config).default_fetch_provider == old(config).default_fetch_provider,
        name@.len() == 0 ==> r is None && final(config).registry@ == old(config).registry@
            && final(config)@.autoadd_ignore == old(config)@.autoadd_ignore.push(path@),
        name@.len() > 0 ==> final(config)@.autoadd_ignore == old(config)@.autoadd_ignore && {
            let m = old(config).registry@;
            &&& !has_name(m, name@) ==> r == Some(AddOutcome::Added) && final(config).registry@
                == m.push((name@, path@))
            &&& has_name(m, name@) && confirmed ==> r == Some(AddOutcome::Overwritten)
                && final(config).registry@ == m.update(name_index(m, name@), (name@, path@))
            &&& has_name(m, name@) && !confirmed ==> r == Some(AddOutcome::Refused)
                && final(config).registry@ == m
        },
{
    if name.is_empty() {
        config.autoadd_ignore.push(path.to_owned());
        proof {
            assert(config@.autoadd_ignore =~= old(config)@.autoadd_ignore.push(path@));
        }
        None
    } else {
        let outcome = config.registry.add(name, path, confirmed);
        proof {
            assert(config@.autoadd_ignore =~= old(config)@.autoadd_ignore);
        }
        Some(outcome)
    }
}

} // verus!
