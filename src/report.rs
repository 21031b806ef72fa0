use vstd::prelude::*;

use crate::latest::{IdentityKey, Latest, LatestView, State, UptimeView};

verus! {

/// The value of the update-success gauge: 1 for success, 0 otherwise.
pub open spec fn success_value(success: bool) -> u8 {
    if success {
        1
    } else {
        0
    }
}

/// The ordinal under which a validator state is reported.
pub open spec fn state_ordinal(state: State) -> u8 {
    match state {
        State::Defined => 0,
        State::Disabled => 1,
        State::Inactive => 2,
        State::Active => 3,
        State::Jailed => 4,
        State::Tombstoned => 5,
    }
}

/// The number of entries of `missed`, from position `i` on, that continue an
/// unbroken run of heights counting down from `top` at position 0.
pub open spec fn missed_run_from(top: int, missed: Seq<u64>, i: int) -> nat
    decreases missed.len() - i,
{
    if i < 0 || i >= missed.len() || missed[i] as int != top - i {
        0
    } else {
        1 + missed_run_from(top, missed, i + 1)
    }
}

/// The number of most recent blocks missed in a row, up to the uptime's height.
pub open spec fn consecutive_missed(uptime: UptimeView) -> nat {
    missed_run_from(uptime.as_of_height as int, uptime.missed_blocks, 0)
}

/// The metric values of one validator.
#[derive(Clone, Copy, PartialEq, Eq, Debug)]
pub struct ValidatorReport {
    pub identity: IdentityKey,
    /// The state, as its ordinal.
    pub state: u8,
    /// The number of blocks missed in the uptime window.
    pub num_missed_blocks: usize,
    /// The length of the uptime window, in blocks.
    pub missed_blocks_window: u64,
    /// The number of most recent blocks missed in a row.
    pub consecutive_missed_blocks: usize,
}

/// The metric values of one cell, if it holds a record.
pub open spec fn report_of(cell: LatestView) -> Option<ValidatorReport> {
    match cell.record {
        None => None,
        Some(r) => Some(
            ValidatorReport {
                identity: cell.identity,
                state: state_ordinal(r.status.state),
                num_missed_blocks: r.uptime.missed_blocks.len() as usize,
                missed_blocks_window: r.uptime.missed_blocks_window,
                consecutive_missed_blocks: consecutive_missed(r.uptime) as usize,
            },
        ),
    }
}

/// The metric values of the cells that hold a record, in order.
pub open spec fn reports_of(cells: Seq<LatestView>) -> Seq<ValidatorReport>
    decreases cells.len(),
{
    if cells.len() == 0 {
        Seq::empty()
    } else {
        let prev = reports_of(cells.drop_last());
        match report_of(cells.last()) {
            None => prev,
            Some(v) => prev.push(v),
        }
    }
}

/// A snapshot of every metric value.
#[derive(Debug)]
pub struct Report {
    /// Whether the last refresh succeeded, as 1 or 0.
    pub success: u8,
    /// Milliseconds since the last refresh started.
    pub staleness: u64,
    /// One entry for each validator with a record, in cell order; cells with
    /// no record yet are left out rather than reported as zero.
    pub validators: Vec<ValidatorReport>,
}

/// The value of the update-success gauge.
pub fn success_info(success: bool) -> (r: u8)
    ensures
        r == success_value(success),
{
    if success {
        1
    } else {
        0
    }
}

/// The ordinal under which a validator state is reported.
pub fn state_number(state: State) -> (r: u8)
    ensures
        r == state_ordinal(state),
        r <= 5,
{
    match state {
        State::Defined => 0,
        State::Disabled => 1,
        State::Inactive => 2,
        State::Active => 3,
        State::Jailed => 4,
        State::Tombstoned => 5,
    }
}

/// Walk the missed blocks from the most recent one back, while each is one
/// below the one before, starting at the uptime's own height.
pub fn consecutive_missed_blocks(as_of_height: u64, missed_blocks: &Vec<u64>) -> (r: usize)
    ensures
        r == missed_run_from(as_of_height as int, missed_blocks@, 0),
{
    let ghost top = as_of_height as int;
    let mut i: usize = 0;
    let mut next: u64 = as_of_height;
    proof {
        lemma_run_bounded(top, missed_blocks@, 0);
    }
    while i < missed_blocks.len()
        invariant_except_break
            next == top - i,
            missed_run_from(top, missed_blocks@, 0) == i + missed_run_from(top, missed_blocks@, i as int),
        invariant
            i <= missed_blocks@.len(),
        ensures
            missed_run_from(top, missed_blocks@, 0) == i,
        decreases missed_blocks@.len() - i,
    {
        if missed_blocks[i] != next {
            assert(missed_run_from(top, missed_blocks@, i as int) == 0);
            break;
        }
        assert(missed_run_from(top, missed_blocks@, i as int) == 1 + missed_run_from(
            top,
            missed_blocks@,
            i + 1,
        ));
        i += 1;
        if next == 0 {
            assert(missed_run_from(top, missed_blocks@, i as int) == 0);
            break;
        }
        next -= 1;
    }
    i
}

proof fn lemma_run_bounded(top: int, missed: Seq<u64>, i: int)
    requires
        0 <= i <= missed.len(),
    ensures
        missed_run_from(top, missed, i) <= missed.len() - i,
    decreases missed.len() - i,
{
    if i < missed.len() {
        lemma_run_bounded(top, missed, i + 1);
    }
}

/// The metric values of one cell, or nothing while it holds no record.
pub fn validator_info(latest: &Latest) -> (r: Option<ValidatorReport>)
    ensures
        r == report_of(latest@),
        r matches Some(v) ==> v.num_missed_blocks as int == latest@.uptime()->0.missed_blocks.len()
            && v.consecutive_missed_blocks as int == consecutive_missed(latest@.uptime()->0),
{
    let uptime = latest.uptime();
    let state = latest.state();
    match (uptime, state) {
        (Some(uptime), Some(state)) => {
            let consecutive = consecutive_missed_blocks(uptime.as_of_height, &uptime.missed_blocks);
            Some(
                ValidatorReport {
                    identity: latest.identity(),
                    state: state_number(state),
                    num_missed_blocks: uptime.missed_blocks.len(),
                    missed_blocks_window: uptime.missed_blocks_window,
                    consecutive_missed_blocks: consecutive,
                },
            )
        },
        _ => None,
    }
}

/// The metric values of a refresh outcome, the time since the last refresh,
/// and every cell that holds a record.
pub fn report(success: bool, staleness: u64, info: &Vec<Latest>) -> (r: Report)
    ensures
        r.success == success_value(success),
        r.staleness == staleness,
        r.validators@ == reports_of(info@.map_values(|c: Latest| c@)),
{
    let ghost cells = info@.map_values(|c: Latest| c@);
    let mut validators: Vec<ValidatorReport> = Vec::new();
    let mut i: usize = 0;
    while i < info.len()
        invariant
            i <= info@.len(),
            cells == info@.map_values(|c: Latest| c@),
            validators@ == reports_of(cells.take(i as int)),
        decreases info@.len() - i,
    {
        assert(cells.take(i as int + 1).drop_last() =~= cells.take(i as int));
        if let Some(v) = validator_info(&info[i]) {
            validators.push(v);
        }
        i += 1;
    }
    assert(cells.take(i as int) =~= cells);
    Report { success: success_info(success), staleness, validators }
}

} // verus!
