use rustp2p::node::NodeID;
use rustp2p::packet::{PacketHeader, ProtocolType};
use rustp2p::route::{ForwardDecision, Route, RouteKey, RouteTable};

fn id(b: u8) -> NodeID {
    NodeID::Short([10, 0, 0, b])
}

fn route(key: u64, cost: u32, rtt: u32, direct: bool, last: u64) -> Route {
    Route {
        key: RouteKey { index: key },
        cost,
        rtt_estimate: rtt,
        is_direct: direct,
        relay_via: None,
        last_activity: last,
    }
}

#[test]
fn select_on_empty_table_is_none() {
    let table = RouteTable::new();
    assert_eq!(table.select(&id(1), false), None);
}

#[test]
fn insert_then_select_returns_the_route() {
    let mut table = RouteTable::new();
    assert!(table.insert_or_refresh(id(1), route(7, 0, 30, true, 100)));
    let got = table.select(&id(1), false).unwrap();
    assert_eq!(got.key, RouteKey { index: 7 });
}

#[test]
fn select_prefers_lower_cost() {
    let mut table = RouteTable::new();
    // Relayed UDP (cost 2) in first, direct UDP (cost 0) second.
    table.insert_or_refresh(id(1), route(1, 2, 5, false, 100));
    table.insert_or_refresh(id(1), route(2, 0, 40, true, 100));
    let got = table.select(&id(1), false).unwrap();
    assert_eq!(got.key.index, 2);
    assert!(got.is_direct);
}

#[test]
fn select_breaks_cost_ties_by_latency() {
    let mut table = RouteTable::new();
    table.insert_or_refresh(id(1), route(1, 0, 40, true, 100));
    table.insert_or_refresh(id(1), route(2, 0, 10, true, 100));
    assert_eq!(table.select(&id(1), false).unwrap().key.index, 2);
}

#[test]
fn select_with_first_latency_prefers_low_rtt_over_low_cost() {
    let mut table = RouteTable::new();
    table.insert_or_refresh(id(1), route(1, 0, 40, true, 100));
    table.insert_or_refresh(id(1), route(2, 2, 5, false, 100));
    assert_eq!(table.select(&id(1), false).unwrap().key.index, 1);
    assert_eq!(table.select(&id(1), true).unwrap().key.index, 2);
}

#[test]
fn select_is_stable_on_full_ties() {
    let mut table = RouteTable::new();
    table.insert_or_refresh(id(1), route(1, 0, 10, true, 100));
    table.insert_or_refresh(id(1), route(2, 0, 10, true, 100));
    assert_eq!(table.select(&id(1), false).unwrap().key.index, 1);
}

#[test]
fn refresh_updates_latency_in_place() {
    let mut table = RouteTable::new();
    table.insert_or_refresh(id(1), route(1, 0, 10, true, 100));
    table.insert_or_refresh(id(1), route(2, 0, 20, true, 100));
    // Same key 2: its estimate drops below route 1's.
    table.insert_or_refresh(id(1), route(2, 0, 3, true, 200));
    let got = table.select(&id(1), false).unwrap();
    assert_eq!(got.key.index, 2);
    assert_eq!(got.rtt_estimate, 3);
    assert_eq!(got.last_activity, 200);
}

#[test]
fn insert_rejects_a_route_relayed_through_its_destination() {
    let mut table = RouteTable::new();
    let mut r = route(1, 2, 10, false, 100);
    r.relay_via = Some(id(1));
    assert!(!table.insert_or_refresh(id(1), r));
    assert_eq!(table.select(&id(1), false), None);
    // Relaying through some other node is fine.
    r.relay_via = Some(id(9));
    assert!(table.insert_or_refresh(id(1), r));
    assert!(table.select(&id(1), false).is_some());
}

#[test]
fn drop_key_removes_the_path_everywhere() {
    let mut table = RouteTable::new();
    table.insert_or_refresh(id(1), route(7, 0, 10, true, 100));
    table.insert_or_refresh(id(2), route(7, 0, 10, true, 100));
    table.insert_or_refresh(id(2), route(8, 2, 10, false, 100));
    table.drop_key(RouteKey { index: 7 });
    assert_eq!(table.select(&id(1), false), None);
    assert_eq!(table.select(&id(2), false).unwrap().key.index, 8);
}

#[test]
fn sweep_evicts_idle_routes_and_empty_destinations() {
    let mut table = RouteTable::new();
    table.insert_or_refresh(id(1), route(1, 0, 10, true, 1_000));
    table.insert_or_refresh(id(2), route(2, 0, 10, true, 12_000));
    // At t=12s with a 10s budget, the route last active at t=1s goes.
    table.sweep(12_000, 10_000);
    assert_eq!(table.select(&id(1), false), None);
    assert!(table.select(&id(2), false).is_some());
    let known = table.known_destinations();
    assert_eq!(known, vec![id(2)]);
}

#[test]
fn sweep_keeps_a_route_exactly_at_the_idle_bound() {
    let mut table = RouteTable::new();
    table.insert_or_refresh(id(1), route(1, 0, 10, true, 2_000));
    table.sweep(12_000, 10_000);
    assert!(table.select(&id(1), false).is_some());
    table.sweep(12_001, 10_000);
    assert_eq!(table.select(&id(1), false), None);
}

#[test]
fn known_destinations_lists_every_entry() {
    let mut table = RouteTable::new();
    table.insert_or_refresh(id(3), route(1, 0, 10, true, 100));
    table.insert_or_refresh(id(1), route(2, 0, 10, true, 100));
    assert_eq!(table.known_destinations(), vec![id(3), id(1)]);
}

fn header(src: NodeID, dst: NodeID, ttl: u8) -> PacketHeader {
    PacketHeader {
        protocol: ProtocolType::UserData,
        ttl,
        flags: 0,
        src_id: src,
        dst_id: dst,
    }
}

#[test]
fn forward_drops_own_packets_coming_back() {
    let table = RouteTable::new();
    let h = header(id(5), id(1), 9);
    assert_eq!(
        rustp2p::route::forward_decision(&h, &table, &id(5), false),
        ForwardDecision::Drop
    );
}

#[test]
fn forward_delivers_packets_addressed_here_or_unset() {
    let table = RouteTable::new();
    let here = id(5);
    let to_me = header(id(1), here, 9);
    let to_unset = header(id(1), NodeID::Short([0, 0, 0, 0]), 9);
    assert_eq!(
        rustp2p::route::forward_decision(&to_me, &table, &here, false),
        ForwardDecision::Deliver
    );
    assert_eq!(
        rustp2p::route::forward_decision(&to_unset, &table, &here, false),
        ForwardDecision::Deliver
    );
}

#[test]
fn forward_drops_when_the_hop_budget_runs_out() {
    let mut table = RouteTable::new();
    table.insert_or_refresh(id(2), route(1, 0, 10, true, 100));
    let h = header(id(1), id(2), 1);
    assert_eq!(
        rustp2p::route::forward_decision(&h, &table, &id(5), false),
        ForwardDecision::Drop
    );
}

#[test]
fn forward_drops_without_a_route() {
    let table = RouteTable::new();
    let h = header(id(1), id(2), 9);
    assert_eq!(
        rustp2p::route::forward_decision(&h, &table, &id(5), false),
        ForwardDecision::Drop
    );
}

#[test]
fn forward_turns_with_the_budget_counted_down() {
    let mut table = RouteTable::new();
    table.insert_or_refresh(id(2), route(4, 2, 10, false, 100));
    table.insert_or_refresh(id(2), route(3, 0, 10, true, 100));
    let h = header(id(1), id(2), 9);
    assert_eq!(
        rustp2p::route::forward_decision(&h, &table, &id(5), false),
        ForwardDecision::Turn { key: RouteKey { index: 3 }, ttl: 8 }
    );
}
