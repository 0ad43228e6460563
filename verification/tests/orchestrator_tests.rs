use plz::config::Provider;
use plz::orchestrator::{next_provider, start, step, OrchestratorState};
use plz::providers::{FetchOutcome, FetchResult};

fn found(title: &str) -> FetchOutcome {
    FetchOutcome::Found(FetchResult { title: title.to_string(), entries: Vec::new() })
}

#[test]
fn fallback_rotation_is_fixed_per_primary() {
    assert_eq!(next_provider(Provider::SteamRip, Provider::SteamRip), Some(Provider::Game3rb));
    assert_eq!(next_provider(Provider::SteamRip, Provider::Game3rb), Some(Provider::GogGames));
    assert_eq!(next_provider(Provider::SteamRip, Provider::GogGames), None);
    assert_eq!(next_provider(Provider::Game3rb, Provider::Game3rb), Some(Provider::SteamRip));
    assert_eq!(next_provider(Provider::Game3rb, Provider::SteamRip), Some(Provider::GogGames));
    assert_eq!(next_provider(Provider::Game3rb, Provider::GogGames), None);
    assert_eq!(next_provider(Provider::GogGames, Provider::GogGames), Some(Provider::SteamRip));
    assert_eq!(next_provider(Provider::GogGames, Provider::SteamRip), Some(Provider::Game3rb));
    assert_eq!(next_provider(Provider::GogGames, Provider::Game3rb), None);
}

#[test]
fn two_failures_then_success_returns_third_result() {
    let primary = Provider::Game3rb;
    let s0 = start(primary);
    assert!(matches!(s0, OrchestratorState::Trying(Provider::Game3rb)));
    let s1 = step(primary, s0, FetchOutcome::NotFound);
    assert!(matches!(s1, OrchestratorState::Trying(Provider::SteamRip)));
    let s2 = step(primary, s1, FetchOutcome::TransportError);
    assert!(matches!(s2, OrchestratorState::Trying(Provider::GogGames)));
    let s3 = step(primary, s2, found("Cool Game"));
    match &s3 {
        OrchestratorState::Succeeded(r) => assert_eq!(r.title, "Cool Game"),
        _ => panic!("run should have succeeded"),
    }
    // No further call follows a success: the state is left untouched.
    let s4 = step(primary, s3, FetchOutcome::NotFound);
    match &s4 {
        OrchestratorState::Succeeded(r) => assert_eq!(r.title, "Cool Game"),
        _ => panic!("a finished run must stay finished"),
    }
}

#[test]
fn three_failures_exhaust_the_rotation() {
    let primary = Provider::SteamRip;
    let mut state = start(primary);
    for _ in 0..3 {
        state = step(primary, state, FetchOutcome::NotFound);
    }
    assert!(matches!(state, OrchestratorState::Exhausted));
    let after = step(primary, state, found("late"));
    assert!(matches!(after, OrchestratorState::Exhausted));
}

#[test]
fn first_success_ends_the_run_at_once() {
    let primary = Provider::GogGames;
    let s0 = start(primary);
    let s1 = step(primary, s0, found("Direct"));
    match &s1 {
        OrchestratorState::Succeeded(r) => assert_eq!(r.title, "Direct"),
        _ => panic!("run should have succeeded"),
    }
}
