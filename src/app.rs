use vstd::prelude::*;

use crate::client::{Client, Node};
use crate::gate::{GateView, PollGate};
use crate::latest::{IdentityKey, Latest, LatestView, Status, Uptime, UptimeView};
use crate::report::{report, reports_of, success_value, Report};

verus! {

/// What a fetch of one validator from one source produced: a status and an
/// uptime, or a failure of any kind.
pub open spec fn outcome_view(outcome: Option<(Status, Uptime)>) -> Option<(Status, UptimeView)> {
    match outcome {
        None => None,
        Some((s, u)) => Some((s, u@)),
    }
}

/// Every pair of a source index below `n` and a cell of `cells`, source by
/// source.
pub open spec fn fetch_plan(n: nat, cells: Seq<usize>) -> Seq<(usize, usize)>
    decreases n,
{
    if n == 0 {
        Seq::empty()
    } else {
        fetch_plan((n - 1) as nat, cells) + cells.map_values(|c: usize| ((n - 1) as usize, c))
    }
}

/// The plan of a tier holds each source paired with each cell, source by
/// source: `n * m` pairs, the pair at `h * m + k` being source `h` with the
/// `k`-th cell.
pub proof fn fetch_plan_pairs_every_source_with_every_cell(n: nat, cells: Seq<usize>)
    requires
        n <= usize::MAX + 1,
    ensures
        fetch_plan(n, cells).len() == n * cells.len(),
        forall|h: int, k: int|
            0 <= h < n && 0 <= k < cells.len() ==> #[trigger] fetch_plan(n, cells)[h * cells.len()
                + k] == (h as usize, cells[k]),
    decreases n,
{
    let m = cells.len();
    if n > 0 {
        let prev = fetch_plan((n - 1) as nat, cells);
        fetch_plan_pairs_every_source_with_every_cell((n - 1) as nat, cells);
        assert(prev.len() == (n - 1) * m);
        assert((n - 1) * m + m == n * m) by (nonlinear_arith);
        assert forall|h: int, k: int| 0 <= h < n && 0 <= k < m implies #[trigger] fetch_plan(
            n,
            cells,
        )[h * m + k] == (h as usize, cells[k]) by {
            if h < n - 1 {
                assert(h * m + k < (n - 1) * m) by (nonlinear_arith)
                    requires
                        0 <= h < n - 1,
                        0 <= k < m,
                ;
                assert(fetch_plan(n, cells)[h * m + k] == prev[h * m + k]);
            } else {
                assert(h * m == (n - 1) * m);
                assert(fetch_plan(n, cells)[h * m + k] == cells.map_values(
                    |c: usize| ((n - 1) as usize, c),
                )[k]);
            }
        }
    }
}

/// Whether `i` is one of the cell indices in `cells`.
pub open spec fn lists(cells: Seq<usize>, i: int) -> bool {
    exists|k: int| 0 <= k < cells.len() && cells[k] as int == i
}

/// The mathematical content of an [`App`].
pub ghost struct AppView<S> {
    /// The tiers of sources, tried in order.
    pub tiers: Seq<Seq<Node<S>>>,
    /// One cache cell per validator.
    pub cells: Seq<LatestView>,
    pub gate: GateView,
    pub connect_timeout: u64,
}

impl<S> AppView<S> {
    pub open spec fn valid_cells(self, cells: Seq<usize>) -> bool {
        forall|k: int| 0 <= k < cells.len() ==> (#[trigger] cells[k]) < self.cells.len()
    }

    pub open spec fn valid_source(self, tier: int, handle: int) -> bool {
        0 <= tier < self.tiers.len() && 0 <= handle < self.tiers[tier].len()
    }

    /// The fetches that a tier starts for the cells still to update: none once
    /// the tiers are exhausted or no cell is left.
    pub open spec fn tier_plan(self, tier: usize, remaining: Seq<usize>) -> Option<Seq<(usize, usize)>> {
        if tier >= self.tiers.len() || remaining.len() == 0 {
            None
        } else {
            Some(fetch_plan(self.tiers[tier as int].len(), remaining))
        }
    }

    /// Starting a tier clears the freshness of the cells still to update.
    pub open spec fn after_start(self, tier: usize, remaining: Seq<usize>) -> AppView<S> {
        if self.tier_plan(tier, remaining) is None {
            self
        } else {
            AppView {
                cells: Seq::new(
                    self.cells.len(),
                    |i: int|
                        if lists(remaining, i) {
                            self.cells[i].after_reset()
                        } else {
                            self.cells[i]
                        },
                ),
                ..self
            }
        }
    }

    /// A successful fetch is offered to its cell; a failed one disconnects its
    /// source.
    pub open spec fn after_fetch(
        self,
        tier: int,
        handle: int,
        cell: int,
        outcome: Option<(Status, UptimeView)>,
    ) -> AppView<S> {
        match outcome {
            Some((s, u)) => AppView {
                cells: self.cells.update(cell, self.cells[cell].after_update(s, u)),
                ..self
            },
            None => AppView {
                tiers: self.tiers.update(
                    tier,
                    self.tiers[tier].update(
                        handle,
                        Node::Disconnected { uri: self.tiers[tier][handle].spec_uri() },
                    ),
                ),
                ..self
            },
        }
    }

    /// The cells among `remaining` that are stale, in order.
    pub open spec fn stale_of(self, remaining: Seq<usize>) -> Seq<usize>
        decreases remaining.len(),
    {
        if remaining.len() == 0 {
            Seq::empty()
        } else {
            let prev = self.stale_of(remaining.drop_last());
            if self.cells[remaining.last() as int].is_fresh() {
                prev
            } else {
                prev.push(remaining.last())
            }
        }
    }
}

/// The outcome of a fetch of one cell from one source, located by tier,
/// source and cell.
pub type FetchEvent = (int, int, int, Option<(Status, UptimeView)>);

/// Apply fetch outcomes in order.
pub open spec fn after_fetches<S>(v: AppView<S>, events: Seq<FetchEvent>) -> AppView<S>
    decreases events.len(),
{
    if events.len() == 0 {
        v
    } else {
        after_fetches(
            v.after_fetch(events[0].0, events[0].1, events[0].2, events[0].3),
            events.drop_first(),
        )
    }
}

/// The cells left after a tier are exactly the listed cells that are stale.
pub proof fn stale_cells_are_exactly_the_unrefreshed<S>(v: AppView<S>, remaining: Seq<usize>, i: int)
    requires
        v.valid_cells(remaining),
    ensures
        lists(v.stale_of(remaining), i) <==> (lists(remaining, i) && !v.cells[i].is_fresh()),
    decreases remaining.len(),
{
    if remaining.len() > 0 {
        let prev = remaining.drop_last();
        stale_cells_are_exactly_the_unrefreshed(v, prev, i);
        let sp = v.stale_of(prev);
        let last = remaining.last();
        if lists(remaining, i) && !lists(prev, i) {
            let w = choose|w: int| 0 <= w < remaining.len() && remaining[w] as int == i;
            if w < prev.len() {
                assert(prev[w] == remaining[w]);
            }
        }
        if lists(prev, i) {
            let w = choose|w: int| 0 <= w < prev.len() && prev[w] as int == i;
            assert(remaining[w] == prev[w]);
        }
        if !v.cells[last as int].is_fresh() {
            let s = sp.push(last);
            if lists(sp, i) {
                let w = choose|w: int| 0 <= w < sp.len() && sp[w] as int == i;
                assert(s[w] == sp[w]);
            }
            if lists(s, i) && i != last {
                let w = choose|w: int| 0 <= w < s.len() && s[w] as int == i;
                assert(s[w] == sp[w]);
            }
            if i == last as int {
                assert(s[sp.len() as int] == last);
            }
        }
        if i == last as int {
            assert(remaining[remaining.len() - 1] == last);
        }
    }
}

/// A tier leaves no cell to update exactly when every listed cell is fresh
/// after it; then the round is over, and no later tier fetches anything.
pub proof fn satisfied_tier_ends_round<S>(v: AppView<S>, remaining: Seq<usize>)
    requires
        v.valid_cells(remaining),
    ensures
        (v.stale_of(remaining).len() == 0) <==> (forall|k: int|
            0 <= k < remaining.len() ==> v.cells[#[trigger] remaining[k] as int].is_fresh()),
        (forall|k: int| 0 <= k < remaining.len() ==> v.cells[#[trigger] remaining[k] as int].is_fresh())
            ==> forall|t: usize| v.tier_plan(t, v.stale_of(remaining)) is None,
{
    let st = v.stale_of(remaining);
    if st.len() == 0 {
        assert forall|k: int| 0 <= k < remaining.len() implies v.cells[#[trigger] remaining[k] as int].is_fresh() by {
            stale_cells_are_exactly_the_unrefreshed(v, remaining, remaining[k] as int);
        }
    } else {
        let i = st[0] as int;
        stale_cells_are_exactly_the_unrefreshed(v, remaining, i);
        assert(lists(st, i));
        let w = choose|w: int| 0 <= w < remaining.len() && remaining[w] as int == i;
        assert(!v.cells[remaining[w] as int].is_fresh());
    }
}

/// Fetches never connect a source.
proof fn lemma_fetch_keeps_disconnected<S>(v: AppView<S>, e: FetchEvent, tier: int, handle: int)
    requires
        v.valid_source(e.0, e.1),
        0 <= e.2 < v.cells.len(),
        v.valid_source(tier, handle),
    ensures
        ({
            let w = v.after_fetch(e.0, e.1, e.2, e.3);
            &&& w.tiers.len() == v.tiers.len()
            &&& forall|t: int| 0 <= t < v.tiers.len() ==> #[trigger] w.tiers[t].len() == v.tiers[t].len()
            &&& w.cells.len() == v.cells.len()
            &&& w.tiers[tier][handle].spec_uri() == v.tiers[tier][handle].spec_uri()
            &&& (w.tiers[tier][handle].is_connected() ==> v.tiers[tier][handle].is_connected())
        }),
{
}

/// A source whose fetch fails is disconnected right after, and stays so
/// whatever the other fetches of the tier return and in whatever order.
pub proof fn failed_fetch_disconnects<S>(
    v: AppView<S>,
    tier: int,
    handle: int,
    cell: int,
    others: Seq<FetchEvent>,
)
    requires
        v.valid_source(tier, handle),
        0 <= cell < v.cells.len(),
        forall|j: int|
            0 <= j < others.len() ==> v.valid_source(#[trigger] others[j].0, others[j].1)
                && 0 <= others[j].2 < v.cells.len(),
    ensures
        !after_fetches(v.after_fetch(tier, handle, cell, None), others).tiers[tier][handle].is_connected(),
{
    let w = v.after_fetch(tier, handle, cell, None);
    lemma_fetch_keeps_disconnected(v, (tier, handle, cell, None), tier, handle);
    lemma_fetches_keep_disconnected(w, others, tier, handle);
}

proof fn lemma_fetches_keep_disconnected<S>(v: AppView<S>, events: Seq<FetchEvent>, tier: int, handle: int)
    requires
        v.valid_source(tier, handle),
        forall|j: int|
            0 <= j < events.len() ==> v.valid_source(#[trigger] events[j].0, events[j].1)
                && 0 <= events[j].2 < v.cells.len(),
    ensures
        after_fetches(v, events).tiers[tier][handle].is_connected() ==> v.tiers[tier][handle].is_connected(),
    decreases events.len(),
{
    if events.len() > 0 {
        let e = events[0];
        let w = v.after_fetch(e.0, e.1, e.2, e.3);
        lemma_fetch_keeps_disconnected(v, e, tier, handle);
        let rest = events.drop_first();
        assert forall|j: int| 0 <= j < rest.len() implies w.valid_source(#[trigger] rest[j].0, rest[j].1)
            && 0 <= rest[j].2 < w.cells.len() by {
            assert(rest[j] == events[j + 1]);
        }
        lemma_fetches_keep_disconnected(w, rest, tier, handle);
    }
}

/// Fetches never make a fresh cell stale.
proof fn lemma_fetch_keeps_fresh<S>(v: AppView<S>, e: FetchEvent, cell: int)
    requires
        v.valid_source(e.0, e.1),
        0 <= e.2 < v.cells.len(),
        0 <= cell < v.cells.len(),
        v.cells[cell].is_fresh(),
    ensures
        ({
            let w = v.after_fetch(e.0, e.1, e.2, e.3);
            &&& w.tiers.len() == v.tiers.len()
            &&& forall|t: int| 0 <= t < v.tiers.len() ==> #[trigger] w.tiers[t].len() == v.tiers[t].len()
            &&& w.cells.len() == v.cells.len()
            &&& w.cells[cell].is_fresh()
        }),
{
}

/// A cell that a fetch of the tier served with data no older than its own
/// is fresh after the tier, whatever the other fetches of the tier return
/// and in whatever order, so it is not among the cells left to update.
pub proof fn served_cell_leaves_remaining<S>(
    v: AppView<S>,
    tier: int,
    handle: int,
    cell: int,
    observation: (Status, UptimeView),
    others: Seq<FetchEvent>,
    remaining: Seq<usize>,
)
    requires
        v.valid_source(tier, handle),
        0 <= cell < v.cells.len(),
        v.cells[cell].accepts(observation.1),
        forall|j: int|
            0 <= j < others.len() ==> v.valid_source(#[trigger] others[j].0, others[j].1)
                && 0 <= others[j].2 < v.cells.len(),
        v.valid_cells(remaining),
    ensures
        after_fetches(v.after_fetch(tier, handle, cell, Some(observation)), others).cells[cell].is_fresh(),
        !lists(
            after_fetches(v.after_fetch(tier, handle, cell, Some(observation)), others).stale_of(remaining),
            cell,
        ),
{
    let w = v.after_fetch(tier, handle, cell, Some(observation));
    assert(w.cells[cell].is_fresh());
    lemma_fetches_keep_fresh(w, others, cell);
    let end = after_fetches(w, others);
    stale_cells_are_exactly_the_unrefreshed(end, remaining, cell);
}

proof fn lemma_fetches_keep_fresh<S>(v: AppView<S>, events: Seq<FetchEvent>, cell: int)
    requires
        0 <= cell < v.cells.len(),
        v.cells[cell].is_fresh(),
        valid_events(v, events),
    ensures
        after_fetches(v, events).cells[cell].is_fresh(),
        after_fetches(v, events).cells.len() == v.cells.len(),
    decreases events.len(),
{
    if events.len() > 0 {
        let e = events[0];
        let w = v.after_fetch(e.0, e.1, e.2, e.3);
        lemma_fetch_keeps_fresh(v, e, cell);
        let rest = events.drop_first();
        assert forall|j: int| 0 <= j < rest.len() implies w.valid_source(#[trigger] rest[j].0, rest[j].1)
            && 0 <= rest[j].2 < w.cells.len() by {
            assert(rest[j] == events[j + 1]);
        }
        lemma_fetches_keep_fresh(w, rest, cell);
    }
}

/// Every event names an existing source and an existing cell.
pub open spec fn valid_events<S>(v: AppView<S>, events: Seq<FetchEvent>) -> bool {
    forall|j: int|
        0 <= j < events.len() ==> v.valid_source(#[trigger] events[j].0, events[j].1) && 0
            <= events[j].2 < v.cells.len()
}

/// Some fetch among `events` brings `cell` data that the cell accepts when
/// it arrives.
pub open spec fn served_in<S>(v: AppView<S>, events: Seq<FetchEvent>, cell: int) -> bool {
    exists|j: int|
        0 <= j < events.len() && (#[trigger] events[j]).2 == cell && events[j].3 is Some
            && after_fetches(v, events.take(j)).cells[cell].accepts((events[j].3->0).1)
}

proof fn lemma_fetches_keep_shape<S>(v: AppView<S>, events: Seq<FetchEvent>)
    requires
        valid_events(v, events),
    ensures
        after_fetches(v, events).tiers.len() == v.tiers.len(),
        forall|t: int|
            0 <= t < v.tiers.len() ==> #[trigger] after_fetches(v, events).tiers[t].len()
                == v.tiers[t].len(),
        after_fetches(v, events).cells.len() == v.cells.len(),
    decreases events.len(),
{
    if events.len() > 0 {
        let e = events[0];
        let w = v.after_fetch(e.0, e.1, e.2, e.3);
        lemma_fetch_keeps_disconnected(v, e, e.0, e.1);
        let rest = events.drop_first();
        assert forall|j: int| 0 <= j < rest.len() implies w.valid_source(#[trigger] rest[j].0, rest[j].1)
            && 0 <= rest[j].2 < w.cells.len() by {
            assert(rest[j] == events[j + 1]);
        }
        lemma_fetches_keep_shape(w, rest);
    }
}

proof fn lemma_fetches_split<S>(v: AppView<S>, events: Seq<FetchEvent>, j: int)
    requires
        0 <= j <= events.len(),
    ensures
        after_fetches(v, events) == after_fetches(after_fetches(v, events.take(j)), events.skip(j)),
    decreases j,
{
    if j == 0 {
        assert(events.take(0) =~= Seq::<FetchEvent>::empty());
        assert(events.skip(0) =~= events);
    } else {
        let e = events[0];
        let w = v.after_fetch(e.0, e.1, e.2, e.3);
        let rest = events.drop_first();
        lemma_fetches_split(w, rest, j - 1);
        assert(events.take(j).drop_first() =~= rest.take(j - 1));
        assert(events.take(j)[0] == e);
        assert(rest.skip(j - 1) =~= events.skip(j));
    }
}

/// A tier whose fetches serve every cell still to update, each with data
/// that the cell accepts when it arrives, leaves no cell to update, whatever
/// else the fetches return and in whatever order: the round then succeeds.
pub proof fn served_cells_complete_tier<S>(v: AppView<S>, remaining: Seq<usize>, events: Seq<FetchEvent>)
    requires
        v.valid_cells(remaining),
        valid_events(v, events),
        forall|k: int| 0 <= k < remaining.len() ==> served_in(v, events, #[trigger] remaining[k] as int),
    ensures
        forall|k: int|
            0 <= k < remaining.len() ==> after_fetches(v, events).cells[#[trigger] remaining[k] as int].is_fresh(),
        after_fetches(v, events).stale_of(remaining).len() == 0,
{
    let end = after_fetches(v, events);
    lemma_fetches_keep_shape(v, events);
    assert forall|k: int| 0 <= k < remaining.len() implies end.cells[#[trigger] remaining[k] as int].is_fresh() by {
        let c = remaining[k] as int;
        assert(served_in(v, events, c));
        let j = choose|j: int|
            0 <= j < events.len() && (#[trigger] events[j]).2 == c && events[j].3 is Some
                && after_fetches(v, events.take(j)).cells[c].accepts((events[j].3->0).1);
        let e = events[j];
        let before = events.take(j);
        let mid = after_fetches(v, before);
        assert forall|i: int| 0 <= i < before.len() implies v.valid_source(#[trigger] before[i].0, before[i].1)
            && 0 <= before[i].2 < v.cells.len() by {
            assert(before[i] == events[i]);
            assert(v.valid_source(events[i].0, events[i].1));
        }
        lemma_fetches_keep_shape(v, before);
        lemma_fetches_split(v, events, j);
        let after = events.skip(j + 1);
        assert(events.skip(j).drop_first() =~= after);
        assert(events.skip(j)[0] == e);
        assert forall|i: int| 0 <= i < after.len() implies mid.valid_source(#[trigger] after[i].0, after[i].1)
            && 0 <= after[i].2 < mid.cells.len() by {
            assert(after[i] == events[j + 1 + i]);
        }
        served_cell_leaves_remaining(mid, e.0, e.1, c, e.3->0, after, remaining);
    }
    satisfied_tier_ends_round(end, remaining);
}

/// The largest height that successful fetches among `events` bring to
/// `cell`, or -1 if none does.
pub open spec fn max_brought(events: Seq<FetchEvent>, cell: int) -> int
    decreases events.len(),
{
    if events.len() == 0 {
        -1
    } else {
        let rest = max_brought(events.drop_first(), cell);
        match events[0].3 {
            Some(o) => if events[0].2 == cell && o.1.as_of_height as int > rest {
                o.1.as_of_height as int
            } else {
                rest
            },
            None => rest,
        }
    }
}

/// After a tier's fetches, in whatever order they arrive, a cell holds the
/// larger of its own height and the largest height brought to it.
pub proof fn fetches_keep_max_height<S>(v: AppView<S>, events: Seq<FetchEvent>, cell: int)
    requires
        valid_events(v, events),
        0 <= cell < v.cells.len(),
    ensures
        after_fetches(v, events).cells[cell].height() == if v.cells[cell].height() >= max_brought(
            events,
            cell,
        ) {
            v.cells[cell].height()
        } else {
            max_brought(events, cell)
        },
    decreases events.len(),
{
    if events.len() > 0 {
        let e = events[0];
        let w = v.after_fetch(e.0, e.1, e.2, e.3);
        lemma_fetch_keeps_disconnected(v, e, e.0, e.1);
        let rest = events.drop_first();
        assert forall|j: int| 0 <= j < rest.len() implies w.valid_source(#[trigger] rest[j].0, rest[j].1)
            && 0 <= rest[j].2 < w.cells.len() by {
            assert(rest[j] == events[j + 1]);
        }
        fetches_keep_max_height(w, rest, cell);
    }
}

/// Every cell index below `n`, in order: the cells a round starts with.
pub open spec fn all_cells(n: nat) -> Seq<usize> {
    Seq::new(n, |i: int| i as usize)
}

/// When the first tier's fetches serve every cell, the round ends after it:
/// no cell is left, and no later tier is handed a single fetch.
pub proof fn serving_first_tier_short_circuits<S>(v: AppView<S>, events: Seq<FetchEvent>)
    requires
        v.cells.len() <= usize::MAX + 1,
        valid_events(v.after_start(0, all_cells(v.cells.len())), events),
        forall|c: int|
            0 <= c < v.cells.len() ==> #[trigger] served_in(
                v.after_start(0, all_cells(v.cells.len())),
                events,
                c,
            ),
    ensures
        ({
            let all = all_cells(v.cells.len());
            let end = after_fetches(v.after_start(0, all), events);
            &&& end.stale_of(all).len() == 0
            &&& forall|t: usize| end.tier_plan(t, end.stale_of(all)) is None
        }),
{
    let all = all_cells(v.cells.len());
    let s0 = v.after_start(0, all);
    assert(s0.cells.len() == v.cells.len());
    assert(s0.valid_cells(all));
    assert forall|k: int| 0 <= k < all.len() implies served_in(s0, events, #[trigger] all[k] as int) by {
        assert(all[k] as int == k);
    }
    served_cells_complete_tier(s0, all, events);
}

/// Starting a tier keeps the shape and resets only the listed cells.
proof fn lemma_start_keeps_unlisted<S>(v: AppView<S>, tier: usize, remaining: Seq<usize>, cell: int)
    requires
        0 <= cell < v.cells.len(),
        !lists(remaining, cell),
    ensures
        v.after_start(tier, remaining).cells[cell] == v.cells[cell],
        v.after_start(tier, remaining).cells.len() == v.cells.len(),
        v.after_start(tier, remaining).tiers == v.tiers,
{
}

/// Per-entity convergence over two tiers: when the first tier's fetches
/// serve cell `a` and the second tier's fetches serve cell `b`, a round over
/// `a` and `b` ends with both fresh and no cell left, whatever else the
/// fetches of either tier return.
pub proof fn each_cell_converges_in_its_own_tier<S>(
    v: AppView<S>,
    a: usize,
    b: usize,
    events0: Seq<FetchEvent>,
    events1: Seq<FetchEvent>,
)
    requires
        v.tiers.len() >= 2,
        a < v.cells.len(),
        b < v.cells.len(),
        valid_events(v.after_start(0, seq![a, b]), events0),
        served_in(v.after_start(0, seq![a, b]), events0, a as int),
        ({
            let e0 = after_fetches(v.after_start(0, seq![a, b]), events0);
            let s1 = e0.after_start(1, e0.stale_of(seq![a, b]));
            &&& valid_events(s1, events1)
            &&& served_in(s1, events1, b as int)
        }),
    ensures
        ({
            let e0 = after_fetches(v.after_start(0, seq![a, b]), events0);
            let rem1 = e0.stale_of(seq![a, b]);
            let e1 = after_fetches(e0.after_start(1, rem1), events1);
            &&& e1.stale_of(rem1).len() == 0
            &&& e1.cells[a as int].is_fresh()
            &&& e1.cells[b as int].is_fresh()
        }),
{
    let rem = seq![a, b];
    let s0 = v.after_start(0, rem);
    assert(s0.cells.len() == v.cells.len());
    assert(s0.valid_cells(rem));
    let ra = seq![a];
    assert(s0.valid_cells(ra));
    assert forall|k: int| 0 <= k < ra.len() implies served_in(s0, events0, #[trigger] ra[k] as int) by {
        assert(ra[k] == a);
    }
    served_cells_complete_tier(s0, ra, events0);
    assert(ra[0] == a);
    let e0 = after_fetches(s0, events0);
    lemma_fetches_keep_shape(s0, events0);
    assert(e0.cells[a as int].is_fresh());
    assert(e0.valid_cells(rem));
    let rem1 = e0.stale_of(rem);
    assert forall|k: int| 0 <= k < rem1.len() implies #[trigger] rem1[k] == b && rem1[k] < e0.cells.len() by {
        assert(lists(rem1, rem1[k] as int));
        stale_cells_are_exactly_the_unrefreshed(e0, rem, rem1[k] as int);
        let w = choose|w: int| 0 <= w < rem.len() && rem[w] as int == rem1[k] as int;
        assert(w == 0 || w == 1);
    }
    let s1 = e0.after_start(1, rem1);
    assert(s1.cells.len() == e0.cells.len());
    assert(s1.valid_cells(rem1));
    assert forall|k: int| 0 <= k < rem1.len() implies served_in(s1, events1, #[trigger] rem1[k] as int) by {
        assert(rem1[k] == b);
    }
    served_cells_complete_tier(s1, rem1, events1);
    let e1 = after_fetches(s1, events1);
    stale_cells_are_exactly_the_unrefreshed(e0, rem, a as int);
    assert(lists(rem, a as int)) by {
        assert(rem[0] == a);
    }
    assert(!lists(rem1, a as int));
    lemma_start_keeps_unlisted(e0, 1, rem1, a as int);
    lemma_fetches_keep_fresh(s1, events1, a as int);
    if lists(rem1, b as int) {
        let w = choose|w: int| 0 <= w < rem1.len() && rem1[w] as int == b as int;
        assert(e1.cells[rem1[w] as int].is_fresh());
    } else {
        stale_cells_are_exactly_the_unrefreshed(e0, rem, b as int);
        assert(lists(rem, b as int)) by {
            assert(rem[1] == b);
        }
        lemma_start_keeps_unlisted(e0, 1, rem1, b as int);
        lemma_fetches_keep_fresh(s1, events1, b as int);
    }
}

/// The progress of one refresh round: the next tier to try and the cells
/// still to update.
#[derive(Debug)]
pub struct Round {
    pub tier: usize,
    pub remaining: Vec<usize>,
}

impl Round {
    /// A round succeeds when no cell is left stale.
    pub fn success(&self) -> (r: bool)
        ensures
            r == (self.remaining@.len() == 0),
    {
        self.remaining.len() == 0
    }
}

/// The service state: the tiers of sources, one cache cell per validator,
/// and the poll gate.
pub struct App<S> {
    /// Each tier is tried in order, all of its sources concurrently; once
    /// every validator is up to date no further tier is tried.
    node_sets: Vec<Vec<Client<S>>>,
    info: Vec<Latest>,
    gate: PollGate,
    /// Milliseconds allowed for connecting to a source, and for each fetch.
    connect_timeout: u64,
}

impl<S> View for App<S> {
    type V = AppView<S>;

    closed spec fn view(&self) -> AppView<S> {
        AppView {
            tiers: self.node_sets@.map_values(|t: Vec<Client<S>>| t@.map_values(|c: Client<S>| c@)),
            cells: self.info@.map_values(|c: Latest| c@),
            gate: self.gate@,
            connect_timeout: self.connect_timeout,
        }
    }
}

impl<S> App<S> {
    /// A service over the given tiers and cells that has never refreshed.
    pub fn new(
        node_sets: Vec<Vec<Client<S>>>,
        info: Vec<Latest>,
        poll_interval: u64,
        connect_timeout: u64,
    ) -> (r: App<S>)
        ensures
            r@.tiers == node_sets@.map_values(|t: Vec<Client<S>>| t@.map_values(|c: Client<S>| c@)),
            r@.cells == info@.map_values(|c: Latest| c@),
            r@.gate == (GateView { last_update: None, last_success: true, poll_interval }),
            r@.connect_timeout == connect_timeout,
    {
        App { node_sets, info, gate: PollGate::new(poll_interval), connect_timeout }
    }

    /// Milliseconds allowed for connecting to a source, and for each fetch.
    pub fn connect_timeout(&self) -> (r: u64)
        ensures
            r == self@.connect_timeout,
    {
        self.connect_timeout
    }

    /// The number of tiers.
    pub fn tier_count(&self) -> (r: usize)
        ensures
            r == self@.tiers.len(),
    {
        self.node_sets.len()
    }

    /// The number of sources in a tier.
    pub fn tier_len(&self, tier: usize) -> (r: usize)
        requires
            tier < self@.tiers.len(),
        ensures
            r == self@.tiers[tier as int].len(),
    {
        self.node_sets[tier].len()
    }

    /// The number of cells.
    pub fn cell_count(&self) -> (r: usize)
        ensures
            r == self@.cells.len(),
    {
        self.info.len()
    }

    /// The identity of the validator of a cell.
    pub fn identity(&self, cell: usize) -> (r: IdentityKey)
        requires
            cell < self@.cells.len(),
        ensures
            r == self@.cells[cell as int].identity,
    {
        self.info[cell].identity()
    }

    /// The cell of a validator.
    pub fn cell(&self, cell: usize) -> (r: &Latest)
        requires
            cell < self@.cells.len(),
        ensures
            r@ == self@.cells[cell as int],
    {
        &self.info[cell]
    }

    /// The endpoint address of a source.
    pub fn uri(&self, tier: usize, handle: usize) -> (r: String)
        requires
            self@.valid_source(tier as int, handle as int),
        ensures
            r@ == self@.tiers[tier as int][handle as int].spec_uri()@,
    {
        self.node_sets[tier][handle].uri()
    }

    /// The session of a source, if it is connected; never dials.
    pub fn session(&self, tier: usize, handle: usize) -> (r: Option<S>) where S: Clone
        requires
            self@.valid_source(tier as int, handle as int),
        ensures
            r is Some <==> self@.tiers[tier as int][handle as int].is_connected(),
            r is Some ==> vstd::pervasive::cloned(
                self@.tiers[tier as int][handle as int]->Connected_session,
                r->0,
            ),
    {
        self.node_sets[tier][handle].get()
    }

    /// Record a session opened against a source.
    pub fn connected(&mut self, tier: usize, handle: usize, session: S)
        requires
            old(self)@.valid_source(tier as int, handle as int),
        ensures
            final(self)@ == (AppView {
                tiers: old(self)@.tiers.update(
                    tier as int,
                    old(self)@.tiers[tier as int].update(
                        handle as int,
                        Node::Connected {
                            session,
                            uri: old(self)@.tiers[tier as int][handle as int].spec_uri(),
                        },
                    ),
                ),
                ..old(self)@
            }),
    {
        self.node_sets[tier][handle].connected(session);
        proof {
            self.lemma_tiers_view_updated(old(self), tier as int, handle as int);
        }
    }

    /// Apply the outcome of fetching a cell from a source: a success is
    /// offered to the cell, a failure disconnects the source.
    pub fn record_fetch(
        &mut self,
        tier: usize,
        handle: usize,
        cell: usize,
        outcome: Option<(Status, Uptime)>,
    )
        requires
            old(self)@.valid_source(tier as int, handle as int),
            cell < old(self)@.cells.len(),
        ensures
            final(self)@ == old(self)@.after_fetch(
                tier as int,
                handle as int,
                cell as int,
                outcome_view(outcome),
            ),
    {
        let ghost ov = outcome_view(outcome);
        match outcome {
            Some((status, uptime)) => {
                self.info[cell].update(status, uptime);
                proof {
                    assert(self@.cells =~= old(self)@.cells.update(
                        cell as int,
                        old(self)@.cells[cell as int].after_update(status, uptime@),
                    ));
                    assert(self@.tiers =~= old(self)@.tiers);
                }
            },
            None => {
                self.node_sets[tier][handle].disconnect();
                proof {
                    self.lemma_tiers_view_updated(old(self), tier as int, handle as int);
                }
            },
        }
    }

    /// A new round: from the first tier, with every cell still to update.
    pub fn begin_round(&self) -> (r: Round)
        ensures
            r.tier == 0,
            r.remaining@ == all_cells(self@.cells.len()),
    {
        let mut remaining: Vec<usize> = Vec::new();
        let mut i: usize = 0;
        while i < self.info.len()
            invariant
                i <= self.info@.len(),
                self@.cells.len() == self.info@.len(),
                remaining@ == Seq::new(i as nat, |k: int| k as usize),
            decreases self.info@.len() - i,
        {
            remaining.push(i);
            i += 1;
            assert(remaining@ =~= Seq::new(i as nat, |k: int| k as usize));
        }
        Round { tier: 0, remaining }
    }

    /// Start the round's current tier: clear the freshness of the cells still
    /// to update and hand back every (source, cell) pair to fetch. Nothing
    /// happens, and nothing is handed back, once the tiers are exhausted or
    /// no cell is left.
    pub fn start_tier(&mut self, round: &Round) -> (r: Option<Vec<(usize, usize)>>)
        requires
            old(self)@.valid_cells(round.remaining@),
        ensures
            final(self)@ == old(self)@.after_start(round.tier, round.remaining@),
            match r {
                None => old(self)@.tier_plan(round.tier, round.remaining@) is None,
                Some(p) => old(self)@.tier_plan(round.tier, round.remaining@) == Some(p@),
            },
    {
        if round.tier >= self.node_sets.len() || round.remaining.len() == 0 {
            return None;
        }
        let ghost rem = round.remaining@;
        let ghost start = self@;
        let mut k: usize = 0;
        while k < round.remaining.len()
            invariant
                start == old(self)@,
                rem == round.remaining@,
                start.valid_cells(rem),
                k <= rem.len(),
                self.node_sets == old(self).node_sets,
                self.gate == old(self).gate,
                self.connect_timeout == old(self).connect_timeout,
                self.info@.len() == start.cells.len(),
                forall|i: int|
                    0 <= i < start.cells.len() ==> (#[trigger] self.info@[i])@ == if lists(
                        rem.take(k as int),
                        i,
                    ) {
                        start.cells[i].after_reset()
                    } else {
                        start.cells[i]
                    },
            decreases rem.len() - k,
        {
            let c = round.remaining[k];
            proof {
                assert(rem[k as int] < start.cells.len());
            }
            self.info[c].reset();
            proof {
                assert forall|i: int| 0 <= i < start.cells.len() implies #[trigger] lists(
                    rem.take(k + 1),
                    i,
                ) == (lists(rem.take(k as int), i) || i == c) by {
                    let next = rem.take(k + 1);
                    let prev = rem.take(k as int);
                    if i == c {
                        assert(next[k as int] == c);
                    }
                    if lists(prev, i) {
                        let w = choose|w: int| 0 <= w < prev.len() && prev[w] as int == i;
                        assert(next[w] == prev[w]);
                    }
                    if lists(next, i) && i != c {
                        let w = choose|w: int| 0 <= w < next.len() && next[w] as int == i;
                        assert(prev[w] == next[w]);
                    }
                }
            }
            k += 1;
        }
        proof {
            assert(rem.take(k as int) =~= rem);
            assert(self@.cells =~= start.after_start(round.tier, rem).cells);
            assert(self@.tiers =~= start.tiers);
        }
        let n = self.node_sets[round.tier].len();
        let mut pairs: Vec<(usize, usize)> = Vec::new();
        let mut h: usize = 0;
        while h < n
            invariant
                h <= n,
                rem == round.remaining@,
                pairs@ == fetch_plan(h as nat, rem),
            decreases n - h,
        {
            let mut j: usize = 0;
            while j < round.remaining.len()
                invariant
                    h < n,
                    j <= rem.len(),
                    rem == round.remaining@,
                    pairs@ == fetch_plan(h as nat, rem) + rem.take(j as int).map_values(
                        |c: usize| (h, c),
                    ),
                decreases rem.len() - j,
            {
                pairs.push((h, round.remaining[j]));
                j += 1;
                proof {
                    assert(rem.take(j as int).map_values(|c: usize| (h, c)) =~= rem.take(
                        j - 1,
                    ).map_values(|c: usize| (h, c)).push((h, rem[j - 1])));
                }
            }
            proof {
                assert(rem.take(j as int) =~= rem);
                assert(fetch_plan((h + 1) as nat, rem) == fetch_plan(h as nat, rem) + rem.map_values(
                    |c: usize| (h, c),
                ));
            }
            h += 1;
        }
        Some(pairs)
    }

    /// End the round's current tier: keep only the cells that are still stale
    /// and move on to the next tier.
    pub fn finish_tier(&self, round: &mut Round)
        requires
            old(round).tier < self@.tiers.len(),
            self@.valid_cells(old(round).remaining@),
        ensures
            final(round).tier == old(round).tier + 1,
            final(round).remaining@ == self@.stale_of(old(round).remaining@),
            self@.valid_cells(final(round).remaining@),
    {
        let ghost rem = round.remaining@;
        let mut stale: Vec<usize> = Vec::new();
        let mut k: usize = 0;
        while k < round.remaining.len()
            invariant
                rem == round.remaining@,
                self@.valid_cells(rem),
                k <= rem.len(),
                stale@ == self@.stale_of(rem.take(k as int)),
                self@.valid_cells(stale@),
            decreases rem.len() - k,
        {
            let c = round.remaining[k];
            assert(rem.take(k + 1).drop_last() =~= rem.take(k as int));
            assert(rem.take(k + 1).last() == c);
            assert(c < self@.cells.len());
            if self.info[c].is_stale() {
                stale.push(c);
            }
            k += 1;
        }
        assert(rem.take(k as int) =~= rem);
        let n = self.node_sets.len();
        assert(round.tier < n);
        round.tier = round.tier + 1;
        round.remaining = stale;
    }

    /// Decide, for a scrape at `now`, whether it starts a refresh.
    pub fn on_scrape(&mut self, now: u64) -> (r: bool)
        ensures
            r == old(self)@.gate.due(now),
            final(self)@ == (AppView { gate: old(self)@.gate.after_scrape(now), ..old(self)@ }),
    {
        self.gate.on_scrape(now)
    }

    /// Store the outcome of a refresh round.
    pub fn finish_refresh(&mut self, success: bool)
        ensures
            final(self)@ == (AppView {
                gate: GateView { last_success: success, ..old(self)@.gate },
                ..old(self)@
            }),
    {
        self.gate.finish(success)
    }

    /// The metric values at time `now`: the last refresh outcome, the time
    /// since the last refresh started, and every cell that holds a record.
    pub fn report(&self, now: u64) -> (r: Report)
        ensures
            r.success == success_value(self@.gate.last_success),
            r.staleness == self@.gate.staleness(now),
            r.validators@ == reports_of(self@.cells),
    {
        report(self.gate.last_success(), self.gate.staleness(now), &self.info)
    }

    proof fn lemma_tiers_view_updated(&self, before: &Self, tier: int, handle: int)
        requires
            0 <= tier < before.node_sets@.len(),
            0 <= handle < before.node_sets@[tier]@.len(),
            self.node_sets@ == before.node_sets@.update(
                tier,
                self.node_sets@[tier],
            ),
            self.node_sets@[tier]@ == before.node_sets@[tier]@.update(
                handle,
                self.node_sets@[tier]@[handle],
            ),
            self.info == before.info,
            self.gate == before.gate,
            self.connect_timeout == before.connect_timeout,
        ensures
            self@ == (AppView {
                tiers: before@.tiers.update(
                    tier,
                    before@.tiers[tier].update(handle, self.node_sets@[tier]@[handle]@),
                ),
                ..before@
            }),
    {
        assert(self@.tiers[tier] =~= before@.tiers[tier].update(
            handle,
            self.node_sets@[tier]@[handle]@,
        ));
        assert(self@.tiers =~= before@.tiers.update(
            tier,
            before@.tiers[tier].update(handle, self.node_sets@[tier]@[handle]@),
        ));
    }
}

} // verus!
