use vstd::prelude::*;

verus! {

/// Time elapsed from `last` to `now`, in milliseconds; zero if the clock
/// reading went backwards.
pub open spec fn elapsed(now: u64, last: u64) -> int {
    if now >= last {
        now - last
    } else {
        0
    }
}

/// The mathematical content of a [`PollGate`].
pub ghost struct GateView {
    pub last_update: Option<u64>,
    pub last_success: bool,
    pub poll_interval: u64,
}

impl GateView {
    /// Whether a scrape at `now` starts a refresh.
    pub open spec fn due(self, now: u64) -> bool {
        match self.last_update {
            None => true,
            Some(last) => elapsed(now, last) >= self.poll_interval,
        }
    }

    pub open spec fn after_scrape(self, now: u64) -> GateView {
        if self.due(now) {
            GateView { last_update: Some(now), ..self }
        } else {
            self
        }
    }

    pub open spec fn staleness(self, now: u64) -> int {
        match self.last_update {
            None => 0,
            Some(last) => elapsed(now, last),
        }
    }
}

/// Deduplicates refresh requests: at most one refresh starts per poll
/// interval, however many scrapes arrive. Times are monotonic clock readings
/// in milliseconds.
pub struct PollGate {
    last_update: Option<u64>,
    last_success: bool,
    poll_interval: u64,
}

impl View for PollGate {
    type V = GateView;

    closed spec fn view(&self) -> GateView {
        GateView {
            last_update: self.last_update,
            last_success: self.last_success,
            poll_interval: self.poll_interval,
        }
    }
}

impl PollGate {
    /// A gate that has never refreshed; the last outcome counts as a success.
    pub fn new(poll_interval: u64) -> (r: PollGate)
        ensures
            r@ == (GateView { last_update: None, last_success: true, poll_interval }),
    {
        PollGate { last_update: None, last_success: true, poll_interval }
    }

    /// Decide, for a scrape at `now`, whether it starts a refresh; if so, the
    /// refresh time becomes `now`.
    pub fn on_scrape(&mut self, now: u64) -> (r: bool)
        ensures
            r == old(self)@.due(now),
            final(self)@ == old(self)@.after_scrape(now),
    {
        let due = match self.last_update {
            None => true,
            Some(last) => {
                let gap: u64 = if now >= last {
                    now - last
                } else {
                    0
                };
                gap >= self.poll_interval
            },
        };
        if due {
            self.last_update = Some(now);
        }
        due
    }

    /// Store the outcome of the refresh that the last due scrape started.
    pub fn finish(&mut self, success: bool)
        ensures
            final(self)@ == (GateView { last_success: success, ..old(self)@ }),
    {
        self.last_success = success;
    }

    /// The outcome of the last refresh.
    pub fn last_success(&self) -> (r: bool)
        ensures
            r == self@.last_success,
    {
        self.last_success
    }

    /// The time of the last refresh, if any.
    pub fn last_update(&self) -> (r: Option<u64>)
        ensures
            r == self@.last_update,
    {
        self.last_update
    }

    /// Milliseconds since the last refresh started, zero if none has.
    pub fn staleness(&self, now: u64) -> (r: u64)
        ensures
            r == self@.staleness(now),
    {
        match self.last_update {
            None => 0,
            Some(last) => if now >= last {
                now - last
            } else {
                0
            },
        }
    }
}

/// Of two scrapes less than a poll interval apart, at most one starts a
/// refresh; a third scrape a full interval after the second starts one.
/// Times never go backwards: the first scrape is no earlier than the last refresh.
pub proof fn scrapes_within_interval_refresh_once(g: GateView, t1: u64, t2: u64, t3: u64)
    requires
        g.last_update matches Some(last) ==> last <= t1,
        t1 <= t2,
        t2 - t1 < g.poll_interval,
        t2 <= t3,
        t3 - t2 >= g.poll_interval,
    ensures
        !(g.due(t1) && g.after_scrape(t1).due(t2)),
        g.after_scrape(t1).after_scrape(t2).due(t3),
{
}

} // verus!
