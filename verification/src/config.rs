//! The persisted config record: games directory, update-check switch,
//! preferred fetch provider, the scanner's ignore list, and the alias
//! registry itself.

use crate::registry::AliasModel;
use crate::registry::Registry;
use crate::registry::unique_names;
use crate::text::str_eq;
use vstd::prelude::*;

verus! {

/// A download-link provider site.
#[derive(Clone, Copy, Debug, PartialEq, Eq, Structural)]
pub enum Provider {
    SteamRip,
    Game3rb,
    GogGames,
}

/// The name a provider goes by in the config file and on the command line.
pub open spec fn spec_provider_name(p: Provider) -> Seq<char> {
    match p {
        Provider::SteamRip => "SteamRIP"@,
        Provider::Game3rb => "Game3rb"@,
        Provider::GogGames => "GOG Games"@,
    }
}

/// The provider carrying the given name, if any.
pub open spec fn spec_provider_of_name(s: Seq<char>) -> Option<Provider> {
    if s == spec_provider_name(Provider::SteamRip) {
        Some(Provider::SteamRip)
    } else if s == spec_provider_name(Provider::Game3rb) {
        Some(Provider::Game3rb)
    } else if s == spec_provider_name(Provider::GogGames) {
        Some(Provider::GogGames)
    } else {
        None
    }
}

/// The three provider names are pairwise distinct, so a name picks out at
/// most one provider.
pub proof fn lemma_provider_names_distinct()
    ensures
        forall|p: Provider| spec_provider_of_name(spec_provider_name(p)) == Some(p),
{
    reveal_strlit("SteamRIP");
    reveal_strlit("Game3rb");
    reveal_strlit("GOG Games");
    assert(spec_provider_name(Provider::SteamRip).len() == 8);
    assert(spec_provider_name(Provider::Game3rb).len() == 7);
    assert(spec_provider_name(Provider::GogGames).len() == 9);
    assert forall|p: Provider| spec_provider_of_name(spec_provider_name(p)) == Some(p) by {
        match p {
            Provider::SteamRip => {},
            Provider::Game3rb => {},
            Provider::GogGames => {},
        }
    }
}

/// The display / config-file name of a provider.
pub fn provider_name(p: Provider) -> (r: &'static str)
    ensures
        r@ == spec_provider_name(p),
{
    match p {
        Provider::SteamRip => "SteamRIP",
        Provider::Game3rb => "Game3rb",
        Provider::GogGames => "GOG Games",
    }
}

/// Look a provider up by its name.
pub fn provider_of_name(s: &str) -> (r: Option<Provider>)
    ensures
        r == spec_provider_of_name(s@),
{
    proof {
        lemma_provider_names_distinct();
    }
    if str_eq(s, "SteamRIP") {
        Some(Provider::SteamRip)
    } else if str_eq(s, "Game3rb") {
        Some(Provider::Game3rb)
    } else if str_eq(s, "GOG Games") {
        Some(Provider::GogGames)
    } else {
        None
    }
}

/// Mathematical model of a config record.
pub struct ConfigModel {
    pub games_dir: Seq<char>,
    pub check_for_updates: bool,
    pub default_fetch_provider: Provider,
    pub autoadd_ignore: Seq<Seq<char>>,
    pub aliases: AliasModel,
}

impl ConfigModel {
    /// Alias names are pairwise distinct.
    pub open spec fn wf(self) -> bool {
        unique_names(self.aliases)
    }
}

/// The config record as held in memory and persisted between runs.
pub struct Config {
    pub games_dir: String,
    pub check_for_updates: bool,
    pub default_fetch_provider: Provider,
    pub autoadd_ignore: Vec<String>,
    pub registry: Registry,
}

impl View for Config {
    type V = ConfigModel;

    open spec fn view(&self) -> ConfigModel {
        ConfigModel {
            games_dir: self.games_dir@,
            check_for_updates: self.check_for_updates,
            default_fetch_provider: self.default_fetch_provider,
            autoadd_ignore: self.autoadd_ignore@.map_values(|s: String| s@),
            aliases: self.registry@,
        }
    }
}

impl Config {
    /// The record is well formed when its registry is.
    pub open spec fn wf(&self) -> bool {
        self.registry.wf()
    }

    /// The record a first run starts from: everything empty, update checks
    /// on, SteamRIP preferred.
    pub fn first_run() -> (r: Config)
        ensures
            r@.games_dir.len() == 0,
            r@.check_for_updates,
            r@.default_fetch_provider == Provider::SteamRip,
            r@.autoadd_ignore.len() == 0,
            r@.aliases.len() == 0,
            r.wf(),
    {
        let r = Config {
            games_dir: String::new(),
            check_for_updates: true,
            default_fetch_provider: Provider::SteamRip,
            autoadd_ignore: Vec::new(),
            registry: Registry::new(),
        };
        proof {
            assert(r@.autoadd_ignore =~= Seq::<Seq<char>>::empty());
        }
        r
    }
}

} // verus!
