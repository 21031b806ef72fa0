use umbrella::latest::{BondingState, IdentityKey, Latest, State, Status, Uptime};
use umbrella::report::{consecutive_missed_blocks, report, state_number, success_info, validator_info};

fn cell(b: u8, state: State, as_of: u64, window: u64, missed: Vec<u64>) -> Latest {
    let mut c = Latest::new(IdentityKey([b; 32]));
    c.update(
        Status { state, bonding_state: BondingState::Bonded, voting_power: 3 },
        Uptime { as_of_height: as_of, missed_blocks_window: window, missed_blocks: missed },
    );
    c
}

#[test]
fn success_gauge_values() {
    assert_eq!(success_info(true), 1);
    assert_eq!(success_info(false), 0);
}

#[test]
fn state_ordinals() {
    assert_eq!(state_number(State::Defined), 0);
    assert_eq!(state_number(State::Disabled), 1);
    assert_eq!(state_number(State::Inactive), 2);
    assert_eq!(state_number(State::Active), 3);
    assert_eq!(state_number(State::Jailed), 4);
    assert_eq!(state_number(State::Tombstoned), 5);
}

#[test]
fn consecutive_run_stops_at_gap() {
    assert_eq!(consecutive_missed_blocks(100, &vec![100, 99, 97, 96]), 2);
    assert_eq!(consecutive_missed_blocks(100, &vec![]), 0);
    assert_eq!(consecutive_missed_blocks(100, &vec![99, 98]), 0);
    assert_eq!(consecutive_missed_blocks(3, &vec![3, 2, 1, 0]), 4);
    assert_eq!(consecutive_missed_blocks(0, &vec![0]), 1);
    assert_eq!(consecutive_missed_blocks(u64::MAX, &vec![u64::MAX, u64::MAX - 1]), 2);
}

#[test]
fn cell_without_record_is_skipped() {
    let empty = Latest::new(IdentityKey([9; 32]));
    assert_eq!(validator_info(&empty), None);
    let cells = vec![
        cell(1, State::Active, 50, 10, vec![50, 48]),
        empty,
        cell(2, State::Jailed, 20, 8, vec![]),
    ];
    let r = report(true, 1500, &cells);
    assert_eq!(r.success, 1);
    assert_eq!(r.staleness, 1500);
    assert_eq!(r.validators.len(), 2);
    let a = r.validators[0];
    assert_eq!(a.identity, IdentityKey([1; 32]));
    assert_eq!(a.state, 3);
    assert_eq!(a.num_missed_blocks, 2);
    assert_eq!(a.missed_blocks_window, 10);
    assert_eq!(a.consecutive_missed_blocks, 1);
    let b = r.validators[1];
    assert_eq!(b.identity, IdentityKey([2; 32]));
    assert_eq!(b.state, 4);
    assert_eq!(b.num_missed_blocks, 0);
    assert_eq!(b.consecutive_missed_blocks, 0);
}
