use umbrella::latest::{BondingState, IdentityKey, Latest, State, Status, Uptime};

fn key(b: u8) -> IdentityKey {
    IdentityKey([b; 32])
}

fn status(state: State, power: u64) -> Status {
    Status { state, bonding_state: BondingState::Bonded, voting_power: power }
}

fn uptime(height: u64) -> Uptime {
    Uptime { as_of_height: height, missed_blocks_window: 100, missed_blocks: vec![] }
}

fn height(cell: &Latest) -> Option<u64> {
    cell.uptime().map(|u| u.as_of_height)
}

#[test]
fn new_cell_is_fresh_and_empty() {
    let cell = Latest::new(key(1));
    assert!(cell.is_fresh());
    assert!(!cell.is_stale());
    assert_eq!(cell.identity(), key(1));
    assert_eq!(cell.state(), None);
    assert_eq!(cell.bonding_state(), None);
    assert_eq!(cell.voting_power(), None);
    assert!(cell.uptime().is_none());
}

#[test]
fn reset_of_empty_cell_keeps_it_fresh() {
    let mut cell = Latest::new(key(1));
    cell.reset();
    assert!(cell.is_fresh());
    assert!(cell.uptime().is_none());
}

#[test]
fn update_then_reset_makes_stale() {
    let mut cell = Latest::new(key(1));
    cell.update(status(State::Active, 7), uptime(10));
    assert!(cell.is_fresh());
    cell.reset();
    assert!(!cell.is_fresh());
    assert!(cell.is_stale());
    assert_eq!(height(&cell), Some(10));
    assert_eq!(cell.voting_power(), Some(7));
    cell.update(status(State::Jailed, 8), uptime(10));
    assert!(cell.is_fresh());
    assert_eq!(cell.state(), Some(State::Jailed));
}

#[test]
fn older_update_is_discarded() {
    let mut cell = Latest::new(key(2));
    cell.update(status(State::Active, 5), uptime(100));
    cell.reset();
    cell.update(status(State::Jailed, 1), uptime(90));
    assert_eq!(height(&cell), Some(100));
    assert_eq!(cell.state(), Some(State::Active));
    assert_eq!(cell.voting_power(), Some(5));
    assert!(cell.is_stale());
}

#[test]
fn equal_height_update_replaces() {
    let mut cell = Latest::new(key(2));
    cell.update(status(State::Active, 5), uptime(100));
    cell.update(
        Status {
            state: State::Inactive,
            bonding_state: BondingState::Unbonding { unbonds_at_height: 120 },
            voting_power: 0,
        },
        uptime(100),
    );
    assert_eq!(cell.state(), Some(State::Inactive));
    assert_eq!(cell.bonding_state(), Some(BondingState::Unbonding { unbonds_at_height: 120 }));
    assert_eq!(cell.voting_power(), Some(0));
}

#[test]
fn stored_height_is_maximum_in_any_order() {
    let orders: Vec<Vec<u64>> = vec![
        vec![5, 9, 3, 7],
        vec![9, 7, 5, 3],
        vec![3, 5, 7, 9],
        vec![7, 3, 9, 5],
    ];
    for order in orders {
        let mut cell = Latest::new(key(3));
        for h in order {
            cell.update(status(State::Active, h), uptime(h));
        }
        assert_eq!(height(&cell), Some(9));
        assert_eq!(cell.voting_power(), Some(9));
    }
}

#[test]
fn late_stale_retry_does_not_regress() {
    let mut cell = Latest::new(key(4));
    cell.update(status(State::Active, 1), uptime(100));
    cell.update(status(State::Active, 2), uptime(90));
    assert_eq!(height(&cell), Some(100));
}

#[test]
fn uptime_copy_keeps_missed_blocks() {
    let mut cell = Latest::new(key(5));
    let u = Uptime { as_of_height: 50, missed_blocks_window: 10, missed_blocks: vec![50, 49, 44] };
    cell.update(status(State::Active, 1), u);
    let got = cell.uptime().unwrap();
    assert_eq!(got.as_of_height, 50);
    assert_eq!(got.missed_blocks_window, 10);
    assert_eq!(got.missed_blocks, vec![50, 49, 44]);
}
