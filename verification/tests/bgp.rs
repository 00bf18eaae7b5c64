use ubgp::addr::{IpAddr, Ipv4Addr, Ipv6Addr};
use ubgp::bgp::{
    check_local_addresses, confirmation, desired, dispatch, link_local_next_hop, listeners, opened,
    redundant, report, Action as Next, AddressError, Assigned, PeerAction, PeerEvent, PeerLoop, PeerStage,
    Plan, Reaction, Selection, Session, Stage, Transmit, Verdict,
};
use ubgp::config::{Acl, Action, Config, Kernel, Management, NamedAcl, Peer, Rule};
use ubgp::net::{IpNet, Prefixes};
use ubgp::netlink::{Export, Exports};
use ubgp::text::parse_net;
use ubgp::wire::{
    end_of_rib, frame, notification, open, update_prefixes, Error, Negotiated, ProtocolError,
    KEEPALIVE, NOTIFICATION, OPEN, ROUTE_REFRESH, UPDATE,
};

fn net(text: &str) -> IpNet {
    parse_net(text).unwrap()
}

fn config() -> Config {
    Config {
        asn: 64512,
        router_id: Ipv4Addr::new(192, 0, 2, 1),
        ipv6: false,
        listen_port: 179,
        kernel: Kernel::default(),
        management: Management::default(),
        acls: vec![NamedAcl {
            name: "export".to_string(),
            acl: Acl {
                rules: vec![Rule {
                    action: Action::Permit,
                    prefix: net("203.0.113.0/24"),
                    min_length: None,
                    max_length: None,
                }],
            },
        }],
        peers: vec![Peer {
            address: IpAddr::V4(Ipv4Addr::new(192, 0, 2, 2)),
            local_address: IpAddr::V4(Ipv4Addr::new(192, 0, 2, 1)),
            interface: "eth0".to_string(),
            remote_asn: 64513,
            export_acl: "export".to_string(),
            md5_password: None,
            port: 179,
            hold_time_secs: 90,
            connect_timeout_secs: 10,
            write_timeout_secs: 10,
            ipv6: false,
            ipv4: true,
            next_hop_v4: None,
            next_hop_v6: None,
            next_hop_v6_link_local: None,
        }],
    }
}

fn v6(text: &str) -> Ipv6Addr {
    match net(&format!("{text}/128")).addr {
        IpAddr::V6(a) => a,
        IpAddr::V4(_) => unreachable!(),
    }
}

fn set(texts: &[&str]) -> Prefixes {
    let mut prefixes = Prefixes::new();
    for text in texts {
        prefixes.insert(net(text));
    }
    prefixes
}

fn exports(texts: &[&str]) -> Exports {
    Exports { entries: vec![Export { name: "export".into(), prefixes: set(texts) }] }
}

fn n() -> Negotiated {
    Negotiated {
        router_id: Ipv4Addr::new(192, 0, 2, 2),
        hold: 3,
        asn4: true,
        internal: false,
        ipv4: true,
        ipv6: false,
    }
}

fn selection(now: u64) -> Selection<&'static str> {
    Selection::new(Ipv4Addr::new(192, 0, 2, 1), 0, now)
}

fn failure(v: Verdict<&'static str>) -> String {
    match v {
        Verdict::Fail(s) => s,
        Verdict::Wait => panic!("waits"),
        Verdict::Use(c, _) => panic!("uses {c}"),
    }
}

#[test]
fn selection_preserves_outgoing_failure_when_no_peer_connects() {
    let mut s = selection(0);
    let error = "outgoing TCP setup: interface ubgp-missing does not exist";
    assert!(matches!(s.failed(error.into()), Verdict::Wait));
    assert_eq!(s.deadline, 2_000);
    let message = failure(s.expired());
    assert!(message.contains("outgoing TCP setup"), "{message}");
    assert!(message.contains("interface ubgp-missing does not exist"), "{message}");
    assert!(message.contains("no incoming TCP connection received"), "{message}");
}

#[test]
fn changing_snapshot_preserves_withdrawals_and_family_gate() {
    let advertised = set(&["10.0.0.0/24", "10.1.0.0/24"]);
    let desired = set(&["10.1.0.0/24", "10.2.0.0/24", "2001:db8::/32"]);
    let mut plan = Plan::new(&advertised, &desired, &n(), false);
    assert_eq!(plan.next(), Some((true, vec![net("10.0.0.0/24")])));
    assert_eq!(plan.next(), Some((false, vec![net("10.2.0.0/24")])));
    assert!(plan.is_empty());
    let refresh = Plan::new(&advertised, &desired, &n(), true);
    assert_eq!(refresh.withdrawals.len(), 1);
    assert_eq!(refresh.additions.len(), 2);
}

#[test]
fn hold_timer_expires_with_partial_frame() {
    let p = config().peers[0].clone();
    let mut s = Session::start(n(), &p, 0);
    assert!(matches!(s.message(100, KEEPALIVE, &[]), Reaction::Established));
    assert_eq!(s.deadline(), Some(3_100));
    match s.timeout() {
        Reaction::Close(e) => assert_eq!(e.protocol().unwrap().code, 4),
        _ => panic!("still open"),
    }
}

fn sent(t: &mut Transmit, now: u64, changed: bool, c: &Config) -> Vec<u8> {
    match t.step(now, changed, c, &c.peers[0]) {
        Next::Update(b) => b,
        _ => panic!("no update"),
    }
}

#[test]
fn writer_sends_initial_routes_and_later_withdrawal() {
    let c = config();
    let acl = c.peers[0].export_acl.clone();
    let mut t = Transmit::new(n(), &exports(&["198.51.100.0/24"]), &acl, 0);
    let packet = sent(&mut t, 1, false, &c);
    assert_eq!(packet[18], 2);
    assert_eq!(&packet[19..21], &[0, 0]);
    match t.step(2, false, &c, &c.peers[0]) {
        Next::EndOfRib(list) => {
            assert_eq!(list.len(), 1);
            assert_eq!(&list[0][19..], &[0, 0, 0, 0]);
        }
        _ => panic!("no end of RIB"),
    }
    assert!(matches!(t.step(3, false, &c, &c.peers[0]), Next::Wait(Some(1_000))));
    t.retarget(4, &Exports::new(), &acl);
    let packet = sent(&mut t, 5, false, &c);
    assert_eq!(&packet[19..21], &[0, 4]);
}

#[test]
fn plans_reach_what_is_wanted_in_batches() {
    let mut wanted = Prefixes::new();
    for i in 0..450u32 {
        wanted.insert(IpNet {
            addr: IpAddr::V4(Ipv4Addr { bits: 0x0a00_0000 + i * 256 }),
            prefix_len: 24,
        });
    }
    wanted.insert(net("2001:db8::/32"));
    let mut both = n();
    both.ipv6 = true;
    let known = set(&["192.0.2.0/24", "10.0.0.0/24", "2001:db8:1::/48"]);
    let mut plan = Plan::new(&known, &wanted, &both, false);
    let mut told = known.copy();
    let mut sizes = Vec::new();
    while let Some((withdraw, batch)) = plan.next() {
        sizes.push((withdraw, batch.len()));
        for p in &batch {
            if withdraw {
                told.remove(p);
            } else {
                told.insert(*p);
            }
        }
    }
    assert_eq!(
        sizes,
        vec![(true, 1), (true, 1), (false, 200), (false, 200), (false, 49), (false, 1)]
    );
    assert!(told.same(&wanted));
}

#[test]
fn transmission_coalesces_and_keeps_alive() {
    let c = config();
    let p = &c.peers[0];
    let acl = p.export_acl.clone();
    let mut t = Transmit::new(n(), &exports(&["10.0.0.0/24"]), &acl, 0);
    // New exports wait for a moment, transmission does not.
    assert_eq!(update_prefixes(&sent(&mut t, 50, true, &c)[19..]), vec![net("10.0.0.0/24")]);
    assert!(matches!(t.step(100, true, &c, p), Next::Retarget));
    t.retarget(100, &exports(&["10.0.0.0/24", "10.1.0.0/24"]), &acl);
    assert_eq!(update_prefixes(&sent(&mut t, 100, false, &c)[19..]), vec![net("10.1.0.0/24")]);
    match t.step(1_000, false, &c, p) {
        Next::Keepalive(b) => assert_eq!(b, frame(KEEPALIVE, &[])),
        _ => panic!("no keepalive"),
    }
    t.kept_alive(1_010);
    assert!(matches!(t.step(1_010, false, &c, p), Next::EndOfRib(_)));
    assert!(matches!(t.step(1_010, false, &c, p), Next::Wait(Some(2_010))));
    // A refresh announces everything again, and ends with a mark.
    t.refreshed(1_100);
    let all = update_prefixes(&sent(&mut t, 1_100, false, &c)[19..]);
    assert_eq!(all, vec![net("10.0.0.0/24"), net("10.1.0.0/24")]);
    assert!(matches!(t.step(1_100, false, &c, p), Next::EndOfRib(_)));
    assert!(matches!(t.step(1_100, false, &c, p), Next::Wait(_)));
    // Another one comes too soon, a later one does not.
    t.refreshed(2_000);
    assert!(matches!(t.step(2_000, false, &c, p), Next::Wait(_)));
    t.refreshed(2_100);
    assert_eq!(update_prefixes(&sent(&mut t, 2_005, false, &c)[19..]).len(), 2);
    assert!(t.advertised.same(&set(&["10.0.0.0/24", "10.1.0.0/24"])));
}

#[test]
fn sessions_without_a_hold_time_never_send_keepalives() {
    let c = config();
    let mut quiet = n();
    quiet.hold = 0;
    quiet.ipv6 = true;
    let mut p = c.peers[0].clone();
    p.next_hop_v6 = Some(v6("2001:db8::1"));
    let mut t = Transmit::new(quiet, &Exports::new(), &p.export_acl, 0);
    match t.step(1_000_000, false, &c, &p) {
        Next::EndOfRib(list) => assert_eq!(list, vec![end_of_rib(false), end_of_rib(true)]),
        _ => panic!("no end of RIB"),
    }
    assert!(matches!(t.step(1_000_000, false, &c, &p), Next::Wait(None)));
    assert_eq!(desired(&Exports::new(), &p.export_acl).len(), 0);
    assert_eq!(desired(&exports(&["10.0.0.0/24"]), &p.export_acl).len(), 1);
}

#[test]
fn the_preferred_connection_wins_a_collision() {
    let larger = Ipv4Addr::new(192, 0, 2, 2);
    let smaller = Ipv4Addr::new(192, 0, 2, 0);
    // The peer's identifier is larger: its own connection is kept.
    let mut s = selection(0);
    s.incoming();
    assert!(matches!(s.opened(10, "outgoing", false, larger), Verdict::Wait));
    assert_eq!(s.deadline, 510);
    match s.opened(20, "incoming", true, larger) {
        Verdict::Use(chosen, closed) => {
            assert_eq!((chosen, closed), ("incoming", Some("outgoing")));
        }
        _ => panic!("not used"),
    }
    let mut s = selection(0);
    assert!(matches!(s.opened(10, "outgoing", false, smaller), Verdict::Use("outgoing", None)));
    // What is not preferred is used once the other had its time.
    let mut s = selection(0);
    assert!(matches!(s.opened(10, "outgoing", false, larger), Verdict::Wait));
    assert!(matches!(s.expired(), Verdict::Use("outgoing", None)));
}

#[test]
fn selections_that_fail_say_why() {
    assert_eq!(
        failure(selection(0).expired()),
        "no usable BGP connection: connection attempt still pending at selection deadline; no incoming TCP connection received"
    );
    let mut s = selection(0);
    s.incoming();
    assert_eq!(
        failure(s.expired()),
        "no usable BGP connection: connection attempt still pending at selection deadline; incoming candidate did not establish"
    );
    let mut s = selection(0);
    s.incoming();
    assert!(matches!(s.failed("first".into()), Verdict::Wait));
    assert_eq!(
        failure(s.failed("second".into())),
        "both connection candidates failed: first; second"
    );
    assert_eq!(failure(selection(0).stopped()), "incoming listener stopped");
}

fn closed(r: Reaction) -> Error {
    match r {
        Reaction::Close(e) => e,
        _ => panic!("not closed"),
    }
}

#[test]
fn sessions_confirm_then_listen() {
    let p = config().peers[0].clone();
    let mut s = Session::start(n(), &p, 0);
    assert_eq!(confirmation(), frame(KEEPALIVE, &[]));
    assert_eq!(s.deadline(), Some(3_000));
    assert!(matches!(s.message(10, KEEPALIVE, &[]), Reaction::Established));
    assert_eq!(s.stage, Stage::Established);
    assert_eq!(s.deadline(), Some(3_010));
    assert!(matches!(s.message(1_000, UPDATE, &[0, 0, 0, 0]), Reaction::Continue));
    assert_eq!(s.deadline(), Some(4_000));
    // A refresh request does not prove the peer alive.
    assert!(matches!(s.message(2_000, ROUTE_REFRESH, &[0, 1, 0, 1]), Reaction::Refresh));
    assert!(matches!(s.message(2_000, ROUTE_REFRESH, &[0, 2, 0, 1]), Reaction::Continue));
    assert_eq!(s.deadline(), Some(4_000));
    let e = closed(s.message(2_000, OPEN, &[]));
    let e = e.protocol().unwrap();
    assert_eq!((e.code, e.subcode, e.data.clone()), (5, 3, vec![OPEN]));
    assert_eq!(s.stage, Stage::Closed);
    assert!(matches!(s.message(2_000, KEEPALIVE, &[]), Reaction::Continue));
    let mut s = Session::start(n(), &p, 0);
    let e = closed(s.message(0, UPDATE, &[0, 0, 0, 0]));
    assert_eq!(e.protocol().unwrap().subcode, 2);
    let mut s = Session::start(n(), &p, 0);
    s.message(0, KEEPALIVE, &[]);
    let e = closed(s.message(0, UPDATE, &[0, 9]));
    assert_eq!(e.protocol().unwrap().code, 3);
    let mut s = Session::start(n(), &p, 0);
    s.message(0, KEEPALIVE, &[]);
    let e = closed(s.message(0, ROUTE_REFRESH, &[0]));
    assert!(e.protocol().is_none());
}

#[test]
fn confirmations_time_out() {
    let p = config().peers[0].clone();
    let mut s = Session::start(n(), &p, 0);
    let e = closed(s.timeout());
    let e = e.protocol().unwrap();
    assert_eq!((e.code, e.subcode, e.reason), (4, 0, "OpenConfirm timeout"));
    let mut forever = n();
    forever.hold = 0;
    let mut s = Session::start(forever, &p, 0);
    assert_eq!(s.deadline(), Some(10_000));
    assert_eq!(closed(s.timeout()).protocol().unwrap().code, 5);
    let mut s = Session::start(forever, &p, 0);
    s.message(0, KEEPALIVE, &[]);
    assert_eq!(s.deadline(), None);
    assert!(matches!(s.timeout(), Reaction::Close(_)));
    assert!(matches!(s.timeout(), Reaction::Continue));
}

#[test]
fn first_messages_have_to_be_opens() {
    let c = config();
    let p = &c.peers[0];
    let mut remote = c.clone();
    remote.asn = p.remote_asn;
    remote.router_id = Ipv4Addr::new(192, 0, 2, 2);
    let body = open(&remote, p)[19..].to_vec();
    let n = opened(OPEN, &body, &c, p).unwrap();
    assert_eq!(n.router_id, remote.router_id);
    let e = opened(KEEPALIVE, &[], &c, p).unwrap_err();
    assert_eq!(e.protocol().unwrap().subcode, 1);
    let e = opened(OPEN, &[], &c, p).unwrap_err();
    assert_eq!(e.protocol().unwrap().code, 2);
    let e = opened(NOTIFICATION, &[2, 2], &c, p).unwrap_err();
    assert_eq!(e.message(), "peer sent NOTIFICATION code=2 subcode=2");
}

#[test]
fn only_protocol_errors_are_reported() {
    let e = ProtocolError { code: 3, subcode: 2, data: vec![9], reason: "why" };
    assert_eq!(report(&Error::Protocol(e)), Some(notification(3, 2, &[9])));
    assert_eq!(report(&Error::Other("gone".into())), None);
    assert_eq!(redundant(), notification(6, 7, &[]));
}

fn on(interface: &str, address: IpAddr) -> Assigned {
    Assigned { interface: interface.into(), address }
}

#[test]
fn next_hops_have_to_be_assigned_to_the_interface() {
    let mut p = config().peers[0].clone();
    let local = p.local_address;
    let list = vec![on("eth1", local)];
    let e = check_local_addresses(&p, &list).unwrap_err();
    assert_eq!(e, AddressError::Local);
    assert_eq!(e.message("eth0"), "local_address is not assigned to eth0");
    let mut list = vec![on("eth0", local)];
    assert_eq!(check_local_addresses(&p, &list), Ok(None));
    p.next_hop_v4 = Some(Ipv4Addr::new(192, 0, 2, 9));
    let e = check_local_addresses(&p, &list).unwrap_err();
    assert_eq!(e.message("eth0"), "IPv4 next hop is not assigned to eth0");
    p.next_hop_v4 = None;
    p.ipv6 = true;
    let e = check_local_addresses(&p, &list).unwrap_err();
    assert_eq!(e.message("eth0"), "IPv6 next hop is not assigned to eth0");
    p.next_hop_v6 = Some(v6("2001:db8::1"));
    list.push(on("eth0", IpAddr::V6(v6("2001:db8::1"))));
    list.push(on("eth1", IpAddr::V6(v6("fe80::9"))));
    assert_eq!(check_local_addresses(&p, &list), Ok(None));
    list.push(on("eth0", IpAddr::V6(v6("fe80::1"))));
    list.push(on("eth0", IpAddr::V6(v6("fe80::2"))));
    assert_eq!(check_local_addresses(&p, &list), Ok(Some(v6("fe80::1"))));
    assert_eq!(link_local_next_hop(&p, Some(v6("fe80::1"))), Some(v6("fe80::1")));
    p.next_hop_v6_link_local = Some(v6("fe80::3"));
    let e = check_local_addresses(&p, &list).unwrap_err();
    assert_eq!(e.message("eth0"), "link-local next hop is not assigned to eth0");
    assert_eq!(link_local_next_hop(&p, Some(v6("fe80::1"))), Some(v6("fe80::3")));
    p.next_hop_v6_link_local = None;
    p.ipv6 = false;
    assert_eq!(link_local_next_hop(&p, Some(v6("fe80::1"))), None);
}

#[test]
fn peers_share_listeners_and_get_their_own_connections() {
    let mut c = config();
    let mut second = c.peers[0].clone();
    second.address = IpAddr::V4(Ipv4Addr::new(192, 0, 2, 3));
    let mut third = c.peers[0].clone();
    third.interface = "eth1".into();
    c.peers.push(third);
    c.peers.push(second);
    c.validate().unwrap();
    let all = listeners(&c);
    assert_eq!(all.len(), 2);
    assert_eq!((all[0].leader, all[0].peers.clone()), (0, vec![0, 2]));
    assert_eq!((all[1].leader, all[1].peers.clone()), (1, vec![1]));
    let from = |d| IpAddr::V4(Ipv4Addr::new(192, 0, 2, d));
    assert_eq!(dispatch(&c, &all[0].peers, from(2)), Some(0));
    assert_eq!(dispatch(&c, &all[0].peers, from(3)), Some(2));
    assert_eq!(dispatch(&c, &all[1].peers, from(2)), Some(1));
    assert_eq!(dispatch(&c, &all[1].peers, from(3)), None);
}

#[test]
fn peers_are_tried_again_after_growing_pauses() {
    let mut p = PeerLoop::new();
    let mut pauses = Vec::new();
    for _ in 0..7 {
        match p.step(PeerEvent::SelectionFailed, 0, 7) {
            PeerAction::Pause(ms) => pauses.push(ms),
            other => panic!("{other:?}"),
        }
        assert_eq!(p.step(PeerEvent::PauseOver, 0, 7), PeerAction::Select);
    }
    assert_eq!(pauses, vec![2_007, 4_007, 8_007, 16_007, 30_007, 30_007, 30_007]);
    // A session that lasted starts the count anew, a short one does not.
    assert_eq!(p.step(PeerEvent::Selected, 1_000, 0), PeerAction::Run);
    assert_eq!(p.step(PeerEvent::Connected, 2_000, 0), PeerAction::Refuse);
    assert_eq!(p.stage, PeerStage::Session(1_000));
    assert_eq!(p.step(PeerEvent::SessionEnded, 30_999, 0), PeerAction::Pause(30_000));
    assert_eq!(p.step(PeerEvent::Connected, 31_000, 0), PeerAction::Accept);
    assert_eq!(p.step(PeerEvent::SessionEnded, 32_000, 0), PeerAction::Select);
    assert_eq!(p.step(PeerEvent::Selected, 40_000, 0), PeerAction::Run);
    assert_eq!(p.step(PeerEvent::SessionEnded, 70_000, 0), PeerAction::Pause(2_000));
}
