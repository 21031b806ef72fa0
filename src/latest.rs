use vstd::prelude::*;

verus! {

/// The public identity key of a validator, as its 32 raw bytes.
#[derive(Clone, Copy, PartialEq, Eq, Debug)]
pub struct IdentityKey(pub [u8; 32]);

/// The lifecycle state of a validator.
#[derive(Clone, Copy, PartialEq, Eq, Debug, Structural)]
pub enum State {
    Defined,
    Disabled,
    Inactive,
    Active,
    Jailed,
    Tombstoned,
}

/// The bonding state of a validator's delegation pool.
#[derive(Clone, Copy, PartialEq, Eq, Debug, Structural)]
pub enum BondingState {
    Bonded,
    Unbonding { unbonds_at_height: u64 },
    Unbonded,
}

/// The status of a validator as reported by a source.
#[derive(Clone, Copy, PartialEq, Eq, Debug, Structural)]
pub struct Status {
    pub state: State,
    pub bonding_state: BondingState,
    pub voting_power: u64,
}

/// The uptime of a validator as reported by a source.
///
/// `missed_blocks` lists the heights of the missed blocks in the window,
/// most recent first.
#[derive(Debug)]
pub struct Uptime {
    pub as_of_height: u64,
    pub missed_blocks_window: u64,
    pub missed_blocks: Vec<u64>,
}

/// The mathematical content of an [`Uptime`].
pub ghost struct UptimeView {
    pub as_of_height: u64,
    pub missed_blocks_window: u64,
    pub missed_blocks: Seq<u64>,
}

impl View for Uptime {
    type V = UptimeView;

    open spec fn view(&self) -> UptimeView {
        UptimeView {
            as_of_height: self.as_of_height,
            missed_blocks_window: self.missed_blocks_window,
            missed_blocks: self.missed_blocks@,
        }
    }
}

impl Uptime {
    /// A copy of this uptime.
    pub fn duplicate(&self) -> (r: Uptime)
        ensures
            r@ == self@,
    {
        let mut missed: Vec<u64> = Vec::new();
        let mut i: usize = 0;
        while i < self.missed_blocks.len()
            invariant
                i <= self.missed_blocks@.len(),
                missed@ == self.missed_blocks@.take(i as int),
            decreases self.missed_blocks@.len() - i,
        {
            missed.push(self.missed_blocks[i]);
            i += 1;
            assert(missed@ =~= self.missed_blocks@.take(i as int));
        }
        assert(missed@ =~= self.missed_blocks@);
        Uptime {
            as_of_height: self.as_of_height,
            missed_blocks_window: self.missed_blocks_window,
            missed_blocks: missed,
        }
    }
}

/// The record held by a cache cell once a first observation was accepted.
pub ghost struct RecordView {
    pub status: Status,
    pub uptime: UptimeView,
    /// Whether the record was written during the current refresh round.
    pub fresh: bool,
}

/// The mathematical content of a cache cell.
pub ghost struct LatestView {
    pub identity: IdentityKey,
    pub record: Option<RecordView>,
}

impl LatestView {
    /// A cell with no record yet counts as fresh.
    pub open spec fn is_fresh(self) -> bool {
        match self.record {
            None => true,
            Some(r) => r.fresh,
        }
    }

    /// The stored reference height, or -1 while no record exists.
    pub open spec fn height(self) -> int {
        match self.record {
            None => -1,
            Some(r) => r.uptime.as_of_height as int,
        }
    }

    /// An observation is accepted when it is not older than the stored one.
    pub open spec fn accepts(self, uptime: UptimeView) -> bool {
        uptime.as_of_height as int >= self.height()
    }

    pub open spec fn after_update(self, status: Status, uptime: UptimeView) -> LatestView {
        if self.accepts(uptime) {
            LatestView {
                identity: self.identity,
                record: Some(RecordView { status, uptime, fresh: true }),
            }
        } else {
            self
        }
    }

    pub open spec fn after_reset(self) -> LatestView {
        match self.record {
            None => self,
            Some(r) => LatestView {
                identity: self.identity,
                record: Some(RecordView { status: r.status, uptime: r.uptime, fresh: false }),
            },
        }
    }

    pub open spec fn status(self) -> Option<Status> {
        match self.record {
            None => None,
            Some(r) => Some(r.status),
        }
    }

    pub open spec fn uptime(self) -> Option<UptimeView> {
        match self.record {
            None => None,
            Some(r) => Some(r.uptime),
        }
    }
}

/// The latest information held about a validator.
pub struct Info {
    status: Status,
    uptime: Uptime,
    /// Whether the info was written during the current refresh round.
    updated: bool,
}

/// A cache cell holding the latest information about one validator.
///
/// The stored uptime height never decreases: an observation older than the
/// stored one is discarded.
pub struct Latest {
    identity: IdentityKey,
    info: Option<Info>,
}

impl View for Latest {
    type V = LatestView;

    closed spec fn view(&self) -> LatestView {
        LatestView {
            identity: self.identity,
            record: match self.info {
                None => None,
                Some(i) => Some(RecordView { status: i.status, uptime: i.uptime@, fresh: i.updated }),
            },
        }
    }
}

impl Latest {
    /// A cell for the given validator, with no record yet.
    pub fn new(identity: IdentityKey) -> (r: Latest)
        ensures
            r@ == (LatestView { identity, record: None }),
            r@.is_fresh(),
    {
        Latest { identity, info: None }
    }

    /// The identity key of the validator.
    pub fn identity(&self) -> (r: IdentityKey)
        ensures
            r == self@.identity,
    {
        self.identity
    }

    fn status(&self) -> (r: Option<Status>)
        ensures
            r == self@.status(),
    {
        match &self.info {
            None => None,
            Some(i) => Some(i.status),
        }
    }

    /// The state of the validator, once a record exists.
    pub fn state(&self) -> (r: Option<State>)
        ensures
            r == (match self@.status() {
                None => None,
                Some(s) => Some(s.state),
            }),
    {
        match self.status() {
            None => None,
            Some(s) => Some(s.state),
        }
    }

    /// The bonding state of the validator, once a record exists.
    pub fn bonding_state(&self) -> (r: Option<BondingState>)
        ensures
            r == (match self@.status() {
                None => None,
                Some(s) => Some(s.bonding_state),
            }),
    {
        match self.status() {
            None => None,
            Some(s) => Some(s.bonding_state),
        }
    }

    /// The voting power of the validator, once a record exists.
    pub fn voting_power(&self) -> (r: Option<u64>)
        ensures
            r == (match self@.status() {
                None => None,
                Some(s) => Some(s.voting_power),
            }),
    {
        match self.status() {
            None => None,
            Some(s) => Some(s.voting_power),
        }
    }

    /// The uptime of the validator, once a record exists.
    pub fn uptime(&self) -> (r: Option<Uptime>)
        ensures
            match r {
                None => self@.uptime() is None,
                Some(u) => self@.uptime() == Some(u@),
            },
    {
        match &self.info {
            None => None,
            Some(i) => Some(i.uptime.duplicate()),
        }
    }

    /// Clear the freshness flag; called at the start of each refresh round.
    pub fn reset(&mut self)
        ensures
            final(self)@ == old(self)@.after_reset(),
    {
        match &mut self.info {
            None => {},
            Some(i) => {
                i.updated = false;
            },
        }
    }

    /// Offer an observation: it replaces the record, marked fresh, unless its
    /// uptime is older than the stored one, in which case nothing changes.
    pub fn update(&mut self, status: Status, uptime: Uptime)
        ensures
            final(self)@ == old(self)@.after_update(status, uptime@),
    {
        let accept = match &self.info {
            None => true,
            Some(i) => uptime.as_of_height >= i.uptime.as_of_height,
        };
        if accept {
            self.info = Some(Info { status, uptime, updated: true });
        }
    }

    /// Whether the cell was updated in the current round, or has no record yet.
    pub fn is_fresh(&self) -> (r: bool)
        ensures
            r == self@.is_fresh(),
    {
        match &self.info {
            None => true,
            Some(i) => i.updated,
        }
    }

    /// Whether the cell was not updated in the current round.
    pub fn is_stale(&self) -> (r: bool)
        ensures
            r == !self@.is_fresh(),
    {
        !self.is_fresh()
    }
}


/// Apply a sequence of observations to a cell, in order.
pub open spec fn apply_all(cell: LatestView, obs: Seq<(Status, UptimeView)>) -> LatestView
    decreases obs.len(),
{
    if obs.len() == 0 {
        cell
    } else {
        apply_all(cell.after_update(obs[0].0, obs[0].1), obs.drop_first())
    }
}

/// The largest reference height among the observations, or -1 if there are none.
pub open spec fn max_height(obs: Seq<(Status, UptimeView)>) -> int
    decreases obs.len(),
{
    if obs.len() == 0 {
        -1
    } else {
        let rest = max_height(obs.drop_first());
        if obs[0].1.as_of_height as int >= rest {
            obs[0].1.as_of_height as int
        } else {
            rest
        }
    }
}

/// After any sequence of updates, in whatever order they arrive, a cell holds
/// the larger of its earlier height and the largest height offered.
pub proof fn updates_keep_max_height(cell: LatestView, obs: Seq<(Status, UptimeView)>)
    ensures
        apply_all(cell, obs).height() == if cell.height() >= max_height(obs) {
            cell.height()
        } else {
            max_height(obs)
        },
    decreases obs.len(),
{
    if obs.len() > 0 {
        updates_keep_max_height(cell.after_update(obs[0].0, obs[0].1), obs.drop_first());
    }
}

/// A cell that starts empty ends, after a sequence of updates, at the largest
/// height offered, whatever the order of arrival.
pub proof fn updates_reach_max_height(identity: IdentityKey, obs: Seq<(Status, UptimeView)>)
    requires
        obs.len() > 0,
    ensures
        apply_all(LatestView { identity, record: None }, obs).height() == max_height(obs),
        apply_all(LatestView { identity, record: None }, obs).record is Some,
{
    let empty = LatestView { identity, record: None };
    updates_keep_max_height(empty, obs);
    lemma_max_height_nonnegative(obs);
}

proof fn lemma_max_height_nonnegative(obs: Seq<(Status, UptimeView)>)
    requires
        obs.len() > 0,
    ensures
        max_height(obs) >= 0,
    decreases obs.len(),
{
    if obs.len() > 1 {
        lemma_max_height_nonnegative(obs.drop_first());
    }
}

/// The largest height bounds every offered height and, when something was
/// offered, is one of them.
proof fn lemma_max_height_is_max(obs: Seq<(Status, UptimeView)>)
    ensures
        forall|i: int| 0 <= i < obs.len() ==> max_height(obs) >= (#[trigger] obs[i]).1.as_of_height,
        obs.len() == 0 ==> max_height(obs) == -1,
        obs.len() > 0 ==> exists|i: int|
            0 <= i < obs.len() && max_height(obs) == (#[trigger] obs[i]).1.as_of_height,
    decreases obs.len(),
{
    if obs.len() > 0 {
        let rest = obs.drop_first();
        lemma_max_height_is_max(rest);
        assert forall|i: int| 0 <= i < obs.len() implies max_height(obs) >= (#[trigger] obs[i]).1.as_of_height by {
            if i > 0 {
                assert(obs[i] == rest[i - 1]);
            }
        }
        if max_height(obs) != obs[0].1.as_of_height {
            let j = choose|j: int| 0 <= j < rest.len() && max_height(rest) == (#[trigger] rest[j]).1.as_of_height;
            assert(obs[j + 1] == rest[j]);
        }
    }
}

/// The largest height offered does not depend on the order of arrival.
pub proof fn max_height_ignores_order(obs1: Seq<(Status, UptimeView)>, obs2: Seq<(Status, UptimeView)>)
    requires
        obs1.to_multiset() == obs2.to_multiset(),
    ensures
        max_height(obs1) == max_height(obs2),
{
    obs1.to_multiset_ensures();
    obs2.to_multiset_ensures();
    lemma_max_height_is_max(obs1);
    lemma_max_height_is_max(obs2);
    assert(obs1.len() == obs2.len());
    if obs1.len() > 0 {
        let i = choose|i: int| 0 <= i < obs1.len() && max_height(obs1) == (#[trigger] obs1[i]).1.as_of_height;
        let j = choose|j: int| 0 <= j < obs2.len() && max_height(obs2) == (#[trigger] obs2[j]).1.as_of_height;
        assert(obs1.contains(obs1[i]));
        assert(obs1.to_multiset().count(obs1[i]) > 0);
        assert(obs2.to_multiset().count(obs1[i]) > 0);
        assert(obs2.contains(obs1[i]));
        let i2 = choose|k: int| 0 <= k < obs2.len() && obs2[k] == obs1[i];
        assert(max_height(obs2) >= obs2[i2].1.as_of_height);
        assert(obs2.contains(obs2[j]));
        assert(obs2.to_multiset().count(obs2[j]) > 0);
        assert(obs1.to_multiset().count(obs2[j]) > 0);
        assert(obs1.contains(obs2[j]));
        let j1 = choose|k: int| 0 <= k < obs1.len() && obs1[k] == obs2[j];
        assert(max_height(obs1) >= obs1[j1].1.as_of_height);
    }
}

/// The same observations, arriving in any two orders, leave a cell at the
/// same height.
pub proof fn arrival_order_does_not_change_height(
    cell: LatestView,
    obs1: Seq<(Status, UptimeView)>,
    obs2: Seq<(Status, UptimeView)>,
)
    requires
        obs1.to_multiset() == obs2.to_multiset(),
    ensures
        apply_all(cell, obs1).height() == apply_all(cell, obs2).height(),
{
    updates_keep_max_height(cell, obs1);
    updates_keep_max_height(cell, obs2);
    max_height_ignores_order(obs1, obs2);
}

/// A reset cell that holds a record is stale until its next accepted update,
/// and a cell with no record stays fresh.
pub proof fn reset_makes_stale(cell: LatestView)
    ensures
        cell.record is Some ==> !cell.after_reset().is_fresh(),
        cell.record is None ==> cell.after_reset().is_fresh(),
        cell.after_reset().height() == cell.height(),
{
}

/// An accepted update leaves the cell fresh.
pub proof fn accepted_update_is_fresh(cell: LatestView, status: Status, uptime: UptimeView)
    requires
        cell.accepts(uptime),
    ensures
        cell.after_update(status, uptime).is_fresh(),
        cell.after_update(status, uptime).height() == uptime.as_of_height,
{
}

} // verus!
