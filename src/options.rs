use vstd::prelude::*;

use crate::app::App;
use crate::client::{Client, Node};
use crate::gate::GateView;
use crate::latest::{IdentityKey, Latest, LatestView};

verus! {

/// The service configuration.
pub struct Options {
    /// The validators to monitor.
    pub validator: Vec<IdentityKey>,
    /// The primary sources, tried together.
    pub node: Vec<String>,
    /// The fallback sources, tried one at a time in this order.
    pub fallback: Vec<String>,
    /// The minimum time between refreshes, in milliseconds.
    pub poll_interval: u64,
    /// The time allowed for connecting to a source, in milliseconds.
    pub connect_timeout: u64,
}

/// Disconnected handles for the given endpoints, in order.
fn clients<S>(uris: &Vec<String>) -> (r: Vec<Client<S>>)
    ensures
        r@.len() == uris@.len(),
        forall|i: int|
            0 <= i < uris@.len() ==> (#[trigger] r@[i])@ is Disconnected && r@[i]@.spec_uri()@
                == uris@[i]@,
{
    let mut r: Vec<Client<S>> = Vec::new();
    let mut i: usize = 0;
    while i < uris.len()
        invariant
            i <= uris@.len(),
            r@.len() == i,
            forall|k: int|
                0 <= k < i ==> (#[trigger] r@[k])@ is Disconnected && r@[k]@.spec_uri()@
                    == uris@[k]@,
        decreases uris@.len() - i,
    {
        r.push(Client::new(uris[i].clone()));
        i += 1;
    }
    r
}

impl Options {
    /// The service state: a first tier with every primary source, then one
    /// tier for each fallback source in order, all disconnected; one empty
    /// cell per validator; a gate that has never refreshed.
    pub fn into_app<S>(self) -> (r: App<S>)
        ensures
            r@.tiers.len() == 1 + self.fallback@.len(),
            r@.tiers[0].len() == self.node@.len(),
            forall|i: int|
                0 <= i < self.node@.len() ==> (#[trigger] r@.tiers[0][i]) is Disconnected
                    && r@.tiers[0][i].spec_uri()@ == self.node@[i]@,
            forall|i: int|
                0 <= i < self.fallback@.len() ==> (#[trigger] r@.tiers[i + 1]).len() == 1
                    && r@.tiers[i + 1][0] is Disconnected && r@.tiers[i + 1][0].spec_uri()@
                    == self.fallback@[i]@,
            r@.cells == self.validator@.map_values(
                |id: IdentityKey| LatestView { identity: id, record: None },
            ),
            r@.gate == (GateView {
                last_update: None,
                last_success: true,
                poll_interval: self.poll_interval,
            }),
            r@.connect_timeout == self.connect_timeout,
    {
        let mut node_sets: Vec<Vec<Client<S>>> = Vec::new();
        node_sets.push(clients(&self.node));
        let mut i: usize = 0;
        while i < self.fallback.len()
            invariant
                i <= self.fallback@.len(),
                node_sets@.len() == 1 + i,
                node_sets@[0]@.len() == self.node@.len(),
                forall|k: int|
                    0 <= k < self.node@.len() ==> (#[trigger] node_sets@[0]@[k])@ is Disconnected
                        && node_sets@[0]@[k]@.spec_uri()@ == self.node@[k]@,
                forall|k: int|
                    0 <= k < i ==> (#[trigger] node_sets@[k + 1])@.len() == 1
                        && node_sets@[k + 1]@[0]@ is Disconnected
                        && node_sets@[k + 1]@[0]@.spec_uri()@ == self.fallback@[k]@,
            decreases self.fallback@.len() - i,
        {
            let mut tier: Vec<Client<S>> = Vec::new();
            tier.push(Client::new(self.fallback[i].clone()));
            node_sets.push(tier);
            i += 1;
        }
        let mut info: Vec<Latest> = Vec::new();
        let mut j: usize = 0;
        while j < self.validator.len()
            invariant
                j <= self.validator@.len(),
                info@.len() == j,
                forall|k: int|
                    0 <= k < j ==> (#[trigger] info@[k])@ == (LatestView {
                        identity: self.validator@[k],
                        record: None,
                    }),
            decreases self.validator@.len() - j,
        {
            info.push(Latest::new(self.validator[j]));
            j += 1;
        }
        assert(info@.map_values(|c: Latest| c@) =~= self.validator@.map_values(
            |id: IdentityKey| LatestView { identity: id, record: None },
        ));
        let app = App::new(node_sets, info, self.poll_interval, self.connect_timeout);
        proof {
            assert forall|k: int| 0 <= k < self.fallback@.len() implies (#[trigger] app@.tiers[k
                + 1]).len() == 1 && app@.tiers[k + 1][0] is Disconnected
                && app@.tiers[k + 1][0].spec_uri()@ == self.fallback@[k]@ by {
                assert(node_sets@[k + 1]@.len() == 1);
            }
        }
        app
    }
}

} // verus!
