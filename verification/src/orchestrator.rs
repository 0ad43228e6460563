//! The fetch orchestrator: a state machine over providers.
//!
//! A run starts by trying the preferred provider. A failed attempt — the
//! page missing or the site unreachable — advances along a fixed two-step
//! fallback rotation; a success ends the run with the provider's result;
//! when the rotation is spent the run is exhausted. The caller performs one
//! blocking fetch per `Trying` state and feeds the outcome back in.

use crate::config::Provider;
use crate::providers::FetchOutcome;
use crate::providers::FetchResult;
use vstd::prelude::*;

verus! {

/// Where a fetch run stands.
pub enum OrchestratorState {
    /// The named provider is to be queried next.
    Trying(Provider),
    /// A provider answered; the run is over.
    Succeeded(FetchResult),
    /// Every provider in the rotation failed.
    Exhausted,
}

/// The provider tried after `current` fails, under the fixed fallback
/// rotation belonging to `primary`; nothing when the rotation is spent.
pub open spec fn spec_next_provider(primary: Provider, current: Provider) -> Option<Provider> {
    match primary {
        Provider::SteamRip => match current {
            Provider::SteamRip => Some(Provider::Game3rb),
            Provider::Game3rb => Some(Provider::GogGames),
            Provider::GogGames => None,
        },
        Provider::Game3rb => match current {
            Provider::Game3rb => Some(Provider::SteamRip),
            Provider::SteamRip => Some(Provider::GogGames),
            Provider::GogGames => None,
        },
        Provider::GogGames => match current {
            Provider::GogGames => Some(Provider::SteamRip),
            Provider::SteamRip => Some(Provider::Game3rb),
            Provider::Game3rb => None,
        },
    }
}

/// Executable form of the rotation.
pub fn next_provider(primary: Provider, current: Provider) -> (r: Option<Provider>)
    ensures
        r == spec_next_provider(primary, current),
{
    match primary {
        Provider::SteamRip => match current {
            Provider::SteamRip => Some(Provider::Game3rb),
            Provider::Game3rb => Some(Provider::GogGames),
            Provider::GogGames => None,
        },
        Provider::Game3rb => match current {
            Provider::Game3rb => Some(Provider::SteamRip),
            Provider::SteamRip => Some(Provider::GogGames),
            Provider::GogGames => None,
        },
        Provider::GogGames => match current {
            Provider::GogGames => Some(Provider::SteamRip),
            Provider::SteamRip => Some(Provider::Game3rb),
            Provider::Game3rb => None,
        },
    }
}

/// What one step of the run does: a success ends it with the provider's
/// result, a failure moves along the rotation or exhausts it, and a run
/// that is already over is left exactly as it stands.
pub open spec fn spec_step(
    primary: Provider,
    state: OrchestratorState,
    outcome: FetchOutcome,
) -> OrchestratorState {
    match state {
        OrchestratorState::Trying(p) => match outcome {
            FetchOutcome::Found(res) => OrchestratorState::Succeeded(res),
            FetchOutcome::NotFound => match spec_next_provider(primary, p) {
                Some(np) => OrchestratorState::Trying(np),
                None => OrchestratorState::Exhausted,
            },
            FetchOutcome::TransportError => match spec_next_provider(primary, p) {
                Some(np) => OrchestratorState::Trying(np),
                None => OrchestratorState::Exhausted,
            },
        },
        OrchestratorState::Succeeded(res) => OrchestratorState::Succeeded(res),
        OrchestratorState::Exhausted => OrchestratorState::Exhausted,
    }
}

/// The state a run starts in: trying the preferred provider.
pub fn start(primary: Provider) -> (r: OrchestratorState)
    ensures
        r == OrchestratorState::Trying(primary),
{
    OrchestratorState::Trying(primary)
}

/// Advance the run by one attempt's outcome.
pub fn step(primary: Provider, state: OrchestratorState, outcome: FetchOutcome) -> (r:
    OrchestratorState)
    ensures
        r == spec_step(primary, state, outcome),
{
    match state {
        OrchestratorState::Trying(p) => match outcome {
            FetchOutcome::Found(res) => OrchestratorState::Succeeded(res),
            FetchOutcome::NotFound => match next_provider(primary, p) {
                Some(np) => OrchestratorState::Trying(np),
                None => OrchestratorState::Exhausted,
            },
            FetchOutcome::TransportError => match next_provider(primary, p) {
                Some(np) => OrchestratorState::Trying(np),
                None => OrchestratorState::Exhausted,
            },
        },
        OrchestratorState::Succeeded(res) => OrchestratorState::Succeeded(res),
        OrchestratorState::Exhausted => OrchestratorState::Exhausted,
    }
}

/// Law: when the first two providers of the rotation report failure and the
/// third answers, the run ends in the third's result — and any further
/// outcome leaves a finished run untouched, so no call follows a success.
pub proof fn lemma_fallback_termination(
    primary: Provider,
    found: FetchResult,
    later: FetchOutcome,
)
    ensures
        ({
            let s1 = spec_step(
                primary,
                OrchestratorState::Trying(primary),
                FetchOutcome::NotFound,
            );
            let s2 = spec_step(primary, s1, FetchOutcome::NotFound);
            let s3 = spec_step(primary, s2, FetchOutcome::Found(found));
            &&& s1 is Trying
            &&& s2 is Trying
            &&& s3 == OrchestratorState::Succeeded(found)
            &&& spec_step(primary, s3, later) == s3
        }),
{
    match primary {
        Provider::SteamRip => {},
        Provider::Game3rb => {},
        Provider::GogGames => {},
    }
}

/// Law: a run makes at most three attempts: from any `Trying` state, three
/// failed outcomes leave the run out of providers.
pub proof fn lemma_rotation_bounded(
    primary: Provider,
    p: Provider,
    o1: FetchOutcome,
    o2: FetchOutcome,
    o3: FetchOutcome,
)
    requires
        !(o1 is Found),
        !(o2 is Found),
        !(o3 is Found),
    ensures
        ({
            let s1 = spec_step(primary, OrchestratorState::Trying(p), o1);
            let s2 = spec_step(primary, s1, o2);
            let s3 = spec_step(primary, s2, o3);
            s3 is Exhausted
        }),
{
    match primary {
        Provider::SteamRip => {},
        Provider::Game3rb => {},
        Provider::GogGames => {},
    }
}

} // verus!
