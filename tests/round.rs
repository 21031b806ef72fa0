use umbrella::app::App;
use umbrella::client::Client;
use umbrella::latest::{BondingState, IdentityKey, Latest, State, Status, Uptime};
use umbrella::options::Options;

fn key(b: u8) -> IdentityKey {
    IdentityKey([b; 32])
}

fn obs(height: u64) -> (Status, Uptime) {
    (
        Status { state: State::Active, bonding_state: BondingState::Bonded, voting_power: 1 },
        Uptime { as_of_height: height, missed_blocks_window: 100, missed_blocks: vec![] },
    )
}

fn app_of(tiers: &[&[&str]], cells: &[u8]) -> App<u32> {
    let node_sets = tiers
        .iter()
        .map(|t| t.iter().map(|u| Client::new(u.to_string())).collect::<Vec<_>>())
        .collect::<Vec<_>>();
    let info = cells.iter().map(|b| Latest::new(key(*b))).collect::<Vec<_>>();
    App::new(node_sets, info, 1000, 5000)
}

/// What one round did: the sources dialled and the sources fetched from.
struct Trace {
    dialled: Vec<(usize, usize)>,
    fetched: Vec<(usize, usize, usize)>,
}

/// Run one round. `reachable(t, h)` says whether a dial succeeds; `serves(t,
/// h, c)` gives the height that source serves for cell `c`, if any. Sessions
/// are taken for every pair before any outcome is applied, as concurrent
/// fetch tasks do.
fn run_round(
    app: &mut App<u32>,
    reachable: &dyn Fn(usize, usize) -> bool,
    serves: &dyn Fn(usize, usize, usize) -> Option<u64>,
) -> (bool, Trace) {
    let mut trace = Trace { dialled: vec![], fetched: vec![] };
    let mut round = app.begin_round();
    while let Some(pairs) = app.start_tier(&round) {
        let t = round.tier;
        for h in 0..app.tier_len(t) {
            if app.session(t, h).is_none() {
                trace.dialled.push((t, h));
                if reachable(t, h) {
                    app.connected(t, h, (t * 10 + h) as u32);
                }
            }
        }
        let live: Vec<(usize, usize, bool)> =
            pairs.iter().map(|&(h, c)| (h, c, app.session(t, h).is_some())).collect();
        for (h, c, has_session) in live {
            if !has_session {
                continue;
            }
            trace.fetched.push((t, h, c));
            let outcome = serves(t, h, c).map(obs);
            app.record_fetch(t, h, c, outcome);
        }
        app.finish_tier(&mut round);
    }
    (round.success(), trace)
}

fn height(app: &App<u32>, c: usize) -> Option<u64> {
    app.cell(c).uptime().map(|u| u.as_of_height)
}

#[test]
fn concrete_two_tier_scenario() {
    // tiers [[A, B], [C]], validators [v1, v2]
    let mut app = app_of(&[&["A", "B"], &["C"]], &[1, 2]);
    let (ok, trace) = run_round(&mut app, &|t, _| t == 0, &|t, h, c| match (t, h, c) {
        (0, 0, 0) => Some(100),
        (0, 1, 1) => Some(100),
        _ => None,
    });
    assert!(ok);
    assert!(trace.dialled.iter().all(|&(t, _)| t == 0));
    assert!(trace.fetched.iter().all(|&(t, _, _)| t == 0));
    assert!(app.cell(0).is_fresh());
    assert!(app.cell(1).is_fresh());
    assert_eq!(height(&app, 0), Some(100));
    assert_eq!(height(&app, 1), Some(100));
}

#[test]
fn satisfied_first_tier_leaves_second_untouched() {
    let mut app = app_of(&[&["A"], &["B"]], &[1, 2, 3]);
    let (ok, trace) = run_round(&mut app, &|_, _| true, &|t, _, _| if t == 0 { Some(5) } else { None });
    assert!(ok);
    assert_eq!(trace.dialled, vec![(0, 0)]);
    assert_eq!(trace.fetched.len(), 3);
    // A second round with existing records: still no fetch from tier 1.
    let (ok, trace) = run_round(&mut app, &|_, _| true, &|t, _, _| if t == 0 { Some(6) } else { None });
    assert!(ok);
    assert!(trace.fetched.iter().all(|&(t, _, _)| t == 0));
    assert!(trace.dialled.is_empty());
    assert_eq!(height(&app, 2), Some(6));
}

#[test]
fn each_cell_converges_from_its_own_tier() {
    let mut app = app_of(&[&["A"], &["B"]], &[1, 2]);
    // First round: both tiers serve both, so every cell gets a record.
    let (ok, _) = run_round(&mut app, &|_, _| true, &|_, _, _| Some(10));
    assert!(ok);
    // Now tier 0 serves cell 0 only and tier 1 serves cell 1 only.
    let (ok, trace) = run_round(&mut app, &|_, _| true, &|t, _, c| if t == c { Some(11) } else { None });
    assert!(ok);
    assert!(app.cell(0).is_fresh());
    assert!(app.cell(1).is_fresh());
    assert_eq!(height(&app, 0), Some(11));
    assert_eq!(height(&app, 1), Some(11));
    // Tier 1 was asked for the cell that tier 0 missed only.
    let from_tier1: Vec<usize> =
        trace.fetched.iter().filter(|f| f.0 == 1).map(|f| f.2).collect();
    assert_eq!(from_tier1, vec![1]);
}

#[test]
fn cell_without_record_counts_as_fresh_in_a_round() {
    let mut app = app_of(&[&["A"], &["B"]], &[1, 2]);
    let (ok, trace) = run_round(&mut app, &|_, _| true, &|t, _, c| if t == c { Some(3) } else { None });
    assert!(ok);
    assert!(app.cell(1).is_fresh());
    assert_eq!(height(&app, 1), None);
    assert!(trace.fetched.iter().all(|&(t, _, _)| t == 0));
}

#[test]
fn failed_fetch_disconnects_source() {
    let mut app = app_of(&[&["A", "B"]], &[1, 2]);
    let mut round = app.begin_round();
    let pairs = app.start_tier(&round).unwrap();
    assert_eq!(pairs, vec![(0, 0), (0, 1), (1, 0), (1, 1)]);
    app.connected(0, 0, 1);
    app.connected(0, 1, 2);
    app.record_fetch(0, 0, 0, None);
    assert!(app.session(0, 0).is_none());
    app.record_fetch(0, 0, 1, Some(obs(4)));
    app.record_fetch(0, 1, 0, Some(obs(4)));
    app.record_fetch(0, 1, 1, Some(obs(4)));
    assert!(app.session(0, 0).is_none());
    assert_eq!(app.session(0, 1), Some(2));
    assert_eq!(app.uri(0, 0), "A");
    app.finish_tier(&mut round);
    assert!(round.success());
    assert_eq!(round.tier, 1);
    assert!(app.start_tier(&round).is_none());
}

#[test]
fn unreachable_everywhere_fails_round() {
    let mut app = app_of(&[&["A"], &["B"]], &[1]);
    let (ok, _) = run_round(&mut app, &|_, _| true, &|_, _, _| Some(1));
    assert!(ok);
    // The session to A from the first round is still open but its fetch
    // fails; B was never needed before and cannot be dialled.
    let (ok, trace) = run_round(&mut app, &|_, _| false, &|_, _, _| None);
    assert!(!ok);
    assert_eq!(trace.fetched, vec![(0, 0, 0)]);
    assert_eq!(trace.dialled, vec![(1, 0)]);
    assert!(app.cell(0).is_stale());
    assert_eq!(height(&app, 0), Some(1));
    // Both sources are now disconnected and cannot be dialled: nothing is fetched.
    let (ok, trace) = run_round(&mut app, &|_, _| false, &|_, _, _| Some(2));
    assert!(!ok);
    assert!(trace.fetched.is_empty());
    assert_eq!(trace.dialled, vec![(0, 0), (1, 0)]);
}

#[test]
fn stale_retry_cannot_regress_height() {
    let mut app = app_of(&[&["A", "B"]], &[1]);
    let mut round = app.begin_round();
    app.start_tier(&round).unwrap();
    app.record_fetch(0, 1, 0, Some(obs(100)));
    app.record_fetch(0, 0, 0, Some(obs(90)));
    assert_eq!(height(&app, 0), Some(100));
    app.finish_tier(&mut round);
    assert!(round.success());
}

#[test]
fn no_tiers_succeeds_only_without_cells() {
    let mut app = app_of(&[], &[1]);
    let (ok, _) = run_round(&mut app, &|_, _| true, &|_, _, _| None);
    assert!(!ok);
    let mut empty = app_of(&[], &[]);
    let (ok, _) = run_round(&mut empty, &|_, _| true, &|_, _, _| None);
    assert!(ok);
}

#[test]
fn scrape_gate_on_app() {
    let mut app = app_of(&[&["A"]], &[1]);
    assert!(app.on_scrape(0));
    assert!(!app.on_scrape(500));
    app.finish_refresh(false);
    let r = app.report(700);
    assert_eq!(r.success, 0);
    assert_eq!(r.staleness, 700);
    assert!(r.validators.is_empty());
    assert!(app.on_scrape(1000));
    assert_eq!(app.connect_timeout(), 5000);
    assert_eq!(app.tier_count(), 1);
    assert_eq!(app.cell_count(), 1);
    assert_eq!(app.identity(0), key(1));
}

#[test]
fn options_build_tiers() {
    let options = Options {
        validator: vec![key(1), key(2)],
        node: vec!["n1".to_string(), "n2".to_string()],
        fallback: vec!["f1".to_string(), "f2".to_string()],
        poll_interval: 1000,
        connect_timeout: 5000,
    };
    let app: App<u32> = options.into_app();
    assert_eq!(app.tier_count(), 3);
    assert_eq!(app.tier_len(0), 2);
    assert_eq!(app.tier_len(1), 1);
    assert_eq!(app.tier_len(2), 1);
    assert_eq!(app.uri(0, 1), "n2");
    assert_eq!(app.uri(1, 0), "f1");
    assert_eq!(app.uri(2, 0), "f2");
    assert_eq!(app.cell_count(), 2);
    assert_eq!(app.identity(1), key(2));
    assert!(app.session(0, 0).is_none());
    assert_eq!(app.connect_timeout(), 5000);
}

#[test]
fn options_without_primary_nodes() {
    let options = Options {
        validator: vec![key(1)],
        node: vec![],
        fallback: vec!["f1".to_string()],
        poll_interval: 1,
        connect_timeout: 1,
    };
    let mut app: App<u32> = options.into_app();
    assert_eq!(app.tier_count(), 2);
    assert_eq!(app.tier_len(0), 0);
    let round = app.begin_round();
    assert_eq!(app.start_tier(&round), Some(vec![]));
}
