use umbrella::client::{Client, Node};
use umbrella::gate::PollGate;

#[test]
fn first_scrape_refreshes() {
    let mut g = PollGate::new(1000);
    assert!(g.last_success());
    assert_eq!(g.last_update(), None);
    assert_eq!(g.staleness(500), 0);
    assert!(g.on_scrape(500));
    assert_eq!(g.last_update(), Some(500));
}

#[test]
fn scrapes_within_interval_refresh_once() {
    let mut g = PollGate::new(1000);
    let runs = [g.on_scrape(0), g.on_scrape(999), g.on_scrape(1000)];
    assert_eq!(runs, [true, false, true]);
    assert_eq!(g.last_update(), Some(1000));
}

#[test]
fn staleness_counts_from_last_refresh() {
    let mut g = PollGate::new(1000);
    assert!(g.on_scrape(2000));
    assert!(!g.on_scrape(2400));
    assert_eq!(g.staleness(2400), 400);
    assert_eq!(g.staleness(1000), 0);
}

#[test]
fn finish_stores_outcome() {
    let mut g = PollGate::new(10);
    g.finish(false);
    assert!(!g.last_success());
    g.finish(true);
    assert!(g.last_success());
}

#[test]
fn zero_interval_always_refreshes() {
    let mut g = PollGate::new(0);
    assert!(g.on_scrape(5));
    assert!(g.on_scrape(5));
}

#[test]
fn client_connects_and_disconnects() {
    let mut c: Client<u32> = Client::new("http://a:1".to_string());
    assert!(!c.is_connected());
    assert_eq!(c.get(), None);
    c.connected(7);
    assert!(c.is_connected());
    assert_eq!(c.get(), Some(7));
    assert_eq!(c.uri(), "http://a:1");
    c.disconnect();
    assert!(!c.is_connected());
    assert_eq!(c.get(), None);
    assert_eq!(c.uri(), "http://a:1");
    c.disconnect();
    assert!(!c.is_connected());
}

#[test]
fn node_keeps_uri() {
    let n: Node<u32> = Node::Connected { session: 1, uri: "u".to_string() };
    assert_eq!(n.uri(), "u");
    let d: Node<u32> = Node::Disconnected { uri: "v".to_string() };
    assert_eq!(d.uri(), "v");
}
