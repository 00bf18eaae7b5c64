use std::sync::Arc;
use ubgp::addr::{IpAddr, Ipv4Addr};
use ubgp::bytes::ByteOrder;
use ubgp::config::{Acl, Action, Config, Kernel, Management, NamedAcl, Peer, Rule};
use ubgp::net::{IpNet, Prefixes};
use ubgp::netlink::message::order_of;
use ubgp::netlink::{
    buffer_capped, check_sender, dump_status, dump_status_in, filter, groups, messages,
    messages_in, native, request, route, route_in, Board, Events, Export, Exports,
    Freshness, NetlinkError, Received, Snapshot, Worker,
};
use ubgp::text::parse_net;

fn net(text: &str) -> IpNet {
    parse_net(text).unwrap()
}

fn config() -> Config {
    Config {
        asn: 64512,
        router_id: Ipv4Addr::new(192, 0, 2, 1),
        ipv6: false,
        listen_port: 179,
        kernel: Kernel::default(),
        management: Management::default(),
        acls: vec![NamedAcl {
            name: "export".to_string(),
            acl: Acl {
                rules: vec![Rule {
                    action: Action::Permit,
                    prefix: net("203.0.113.0/24"),
                    min_length: None,
                    max_length: None,
                }],
            },
        }],
        peers: vec![Peer {
            address: IpAddr::V4(Ipv4Addr::new(192, 0, 2, 2)),
            local_address: IpAddr::V4(Ipv4Addr::new(192, 0, 2, 1)),
            interface: "eth0".to_string(),
            remote_asn: 64513,
            export_acl: "export".to_string(),
            md5_password: None,
            port: 179,
            hold_time_secs: 90,
            connect_timeout_secs: 10,
            write_timeout_secs: 10,
            ipv6: false,
            ipv4: true,
            next_hop_v4: None,
            next_hop_v6: None,
            next_hop_v6_link_local: None,
        }],
    }
}

fn set(texts: &[&str]) -> Prefixes {
    let mut prefixes = Prefixes::new();
    for text in texts {
        prefixes.insert(net(text));
    }
    prefixes
}

const ENOENT: i32 = 2;
const EINVAL: i32 = 22;

#[test]
fn empty_table_status_is_distinct_from_failed_partial_dump() {
    assert!(dump_status(&[], false).is_ok());
    assert!(dump_status(&0i32.to_ne_bytes(), true).is_ok());
    assert!(dump_status(&(-ENOENT).to_ne_bytes(), false).is_ok());
    assert!(dump_status(&(-ENOENT).to_ne_bytes(), true).is_err());
    assert!(dump_status(&(-EINVAL).to_ne_bytes(), false).is_err());
    assert!(dump_status(&[0], false).is_err());
}

#[test]
fn failed_refreshes_do_not_extend_stale_deadline() {
    let now = 1_000_000;
    let exports = || Exports {
        entries: vec![Export { name: "export".into(), prefixes: set(&["10.0.0.0/24"]) }],
    };
    let mut published = exports();
    let mut health = Freshness { dirty_since: None, withdrawn: false };
    health.invalidate(now);
    if health.expire(now + 2_000, 3_000) {
        published = Exports::new();
    }
    assert!(published.same(&exports()));
    health.invalidate(now + 2_000);
    if health.expire(now + 3_000, 3_000) {
        published = Exports::new();
    }
    assert!(published.is_empty());
    assert!(health.publish(now + 4_000, false, &published, &exports()));
    published = exports();
    assert!(!health.publish(now + 4_000, false, &published, &exports()));
    if health.expire(now + 100_000, 3_000) {
        published = Exports::new();
    }
    assert!(published.same(&exports()));
}

fn rt(table: u32, prefix: &str) -> Vec<u8> {
    let net = net(prefix);
    let ip = match net.addr {
        IpAddr::V4(a) => a.bits.to_be_bytes().to_vec(),
        IpAddr::V6(a) => a.bits.to_be_bytes().to_vec(),
    };
    let mut b = vec![0u8; 12];
    b[0] = if ip.len() == 4 { 2 } else { 10 };
    b[1] = net.prefix_len;
    b[7] = 1;
    b.extend_from_slice(&8u16.to_ne_bytes());
    b.extend_from_slice(&15u16.to_ne_bytes());
    b.extend_from_slice(&table.to_ne_bytes());
    b.extend_from_slice(&((ip.len() + 4) as u16).to_ne_bytes());
    b.extend_from_slice(&1u16.to_ne_bytes());
    b.extend(ip);
    b
}

#[test]
fn selected_tables_families_defaults_and_route_types() {
    for p in ["0.0.0.0/0", "10.1.0.0/16", "::/0", "2001:db8::/32"] {
        let mut b = rt(1000, p);
        assert_eq!(route(&b, &[1000]).unwrap(), Some(net(p)));
        assert_eq!(route(&b, &[254]).unwrap(), None);
        b[7] = 6;
        assert_eq!(route(&b, &[1000]).unwrap(), None);
    }
}

#[test]
fn duplicates_across_tables_do_not_withdraw_remaining_route() {
    let rows = [rt(100, "10.0.0.0/24"), rt(200, "10.0.0.0/24")];
    let collect = |rows: &[Vec<u8>]| {
        let mut found = Prefixes::new();
        for b in rows {
            if let Some(p) = route(b, &[100, 200]).unwrap() {
                found.insert(p);
            }
        }
        found
    };
    let before = collect(&rows);
    let after = collect(&rows[1..]);
    assert!(before.same(&after));
    assert_eq!(after.len(), 1);
}

#[test]
fn malformed_datagrams_and_attributes_are_errors() {
    for n in 1..16 {
        assert!(messages(&vec![0; n]).fault.is_some());
    }
    let mut b = rt(254, "10.0.0.0/8");
    b[12] = 255;
    assert!(route(&b, &[254]).is_err());
}

fn message(kind: u16, flags: u16, seq: u32, payload: &[u8]) -> Vec<u8> {
    let mut b = Vec::new();
    b.extend_from_slice(&((payload.len() + 16) as u32).to_ne_bytes());
    b.extend_from_slice(&kind.to_ne_bytes());
    b.extend_from_slice(&flags.to_ne_bytes());
    b.extend_from_slice(&seq.to_ne_bytes());
    b.extend_from_slice(&[0; 4]);
    b.extend_from_slice(payload);
    while b.len() % 4 != 0 {
        b.push(0);
    }
    b
}

#[test]
fn numbers_have_the_byte_order_of_the_machine() {
    assert_eq!(native().u16n(&0x1234u16.to_ne_bytes()), 0x1234);
    assert_eq!(native().u32n(&0x1234_5678u32.to_ne_bytes()), 0x1234_5678);
    assert_eq!(order_of([1, 0]), ByteOrder::Little);
    assert_eq!(order_of([0, 1]), ByteOrder::Big);
    let mut out = Vec::new();
    ByteOrder::Big.append32(&mut out, 0x0102_0304);
    ByteOrder::Little.append16(&mut out, 0x0506);
    assert_eq!(out, vec![1, 2, 3, 4, 6, 5]);
}

#[test]
fn datagrams_divide_into_messages() {
    let mut b = message(24, 2, 7, &[1, 2, 3, 4, 5]);
    b.extend(message(3, 0, 7, &[]));
    let split = messages_in(native(), &b);
    assert_eq!(split.fault, None);
    assert_eq!(split.messages.len(), 2);
    let first = &split.messages[0];
    assert_eq!((first.kind, first.flags, first.seq), (24, 2, 7));
    assert_eq!(first.payload, &[1, 2, 3, 4, 5]);
    assert_eq!(split.messages[1].kind, 3);
    // What stands before a fault still counts.
    b.extend_from_slice(&[1, 2, 3]);
    let split = messages(&b);
    assert_eq!(split.messages.len(), 2);
    assert_eq!(split.fault, Some(NetlinkError::ShortHeader));
    let mut short = message(24, 0, 1, &[]);
    short[..4].copy_from_slice(&15u32.to_ne_bytes());
    assert_eq!(messages(&short).fault, Some(NetlinkError::MessageLength));
    let mut padding = message(24, 0, 1, &[1]);
    padding.truncate(18);
    assert_eq!(messages(&padding).fault, Some(NetlinkError::MessagePadding));
}

#[test]
fn every_route_error_is_told_apart() {
    let good = rt(254, "10.0.0.0/8");
    let r = |b: &[u8]| route_in(native(), b, &[254]).unwrap_err();
    assert_eq!(r(&good[..11]), NetlinkError::ShortRoute);
    let mut b = good.clone();
    b[1] = 33;
    assert_eq!(r(&b), NetlinkError::PrefixLength);
    assert_eq!(r(&good[..15]), NetlinkError::ShortAttribute);
    let mut b = good.clone();
    b[12..14].copy_from_slice(&3u16.to_ne_bytes());
    assert_eq!(r(&b), NetlinkError::AttributeLength);
    let mut b = good.clone();
    b[20..22].copy_from_slice(&7u16.to_ne_bytes());
    assert_eq!(r(&b), NetlinkError::Destination);
    let mut b = good.clone();
    b[12..14].copy_from_slice(&7u16.to_ne_bytes());
    assert_eq!(r(&b), NetlinkError::Table);
    let mut b = good[..12].to_vec();
    b.extend_from_slice(&5u16.to_ne_bytes());
    b.extend_from_slice(&99u16.to_ne_bytes());
    b.extend_from_slice(&[0, 0]);
    assert_eq!(r(&b), NetlinkError::AttributePadding);
    assert_eq!(r(&good[..20]), NetlinkError::MissingDestination);
}

#[test]
fn unusual_routes_are_left_out() {
    let good = rt(254, "10.1.2.3/16");
    assert_eq!(route(&good, &[254]).unwrap(), Some(net("10.1.0.0/16")));
    for (at, value) in [(0, 7), (2, 8), (7, 2)] {
        let mut b = good.clone();
        b[at] = value;
        assert_eq!(route(&b, &[254]).unwrap(), None);
    }
    let mut cloned = good.clone();
    cloned[8..12].copy_from_slice(&0x200u32.to_ne_bytes());
    assert_eq!(route(&cloned, &[254]).unwrap(), None);
    // The table of the header counts where no attribute names one.
    let mut header = vec![0u8; 12];
    header[0] = 2;
    header[4] = 254;
    header[7] = 1;
    assert_eq!(route(&header, &[254]).unwrap(), Some(net("0.0.0.0/0")));
}

#[test]
fn statuses_give_system_errors() {
    let failed = |code: i32, saw: bool| {
        dump_status_in(native(), &code.to_ne_bytes(), saw).unwrap_err()
    };
    assert_eq!(failed(-EINVAL, false), NetlinkError::DumpFailed(EINVAL));
    assert_eq!(failed(-ENOENT, true).system_error(), Some(ENOENT));
    assert_eq!(failed(i32::MIN, false), NetlinkError::DumpFailed(i32::MAX));
    assert_eq!(failed(5, false), NetlinkError::DumpFailed(-5));
    assert_eq!(dump_status(&[0, 0], false).unwrap_err(), NetlinkError::ShortStatus);
    assert_eq!(failed(-EINVAL, false).message(), "netlink dump failed: ");
    assert_eq!(NetlinkError::Stopping.message(), "stopping");
    assert_eq!(NetlinkError::Stopping.system_error(), None);
}

#[test]
fn requests_name_family_and_table() {
    let b = request(native(), 7, 10, 1000);
    assert_eq!(b.len(), 36);
    let split = messages(&b);
    assert_eq!(split.fault, None);
    let m = &split.messages[0];
    assert_eq!((m.kind, m.flags, m.seq), (26, 0x301, 7));
    assert_eq!(m.payload[0], 10);
    assert_eq!(&m.payload[12..14], &8u16.to_ne_bytes());
    assert_eq!(&m.payload[14..16], &15u16.to_ne_bytes());
    assert_eq!(&m.payload[16..20], &1000u32.to_ne_bytes());
}

fn seq_of(request: &[u8]) -> u32 {
    messages(request).messages[0].seq
}

#[test]
fn snapshots_collect_every_table_and_family() {
    let mut cfg = config();
    cfg.ipv6 = true;
    cfg.kernel.tables = vec![100, 200];
    let mut s = Snapshot::new(&cfg, native(), 0);
    let mut seen = Vec::new();
    while let Some(r) = s.next_request() {
        let split = messages(&r);
        let m = &split.messages[0];
        let table = native().u32n(&m.payload[16..20]);
        seen.push((m.payload[0], table, m.seq));
        let text = if m.payload[0] == 2 { "10.0.0.0/24" } else { "2001:db8::/32" };
        let mut reply = message(24, 2, m.seq, &rt(table, text));
        reply.extend(message(24, 2, m.seq, &rt(999, "10.9.0.0/24")));
        s.check(false, 0).unwrap();
        s.datagram(&reply).unwrap();
        assert!(!s.done);
        s.datagram(&message(3, 2, m.seq, &0i32.to_ne_bytes())).unwrap();
        assert!(s.done);
    }
    assert_eq!(seen, vec![(2, 100, 1), (2, 200, 2), (10, 100, 3), (10, 200, 4)]);
    let (prefixes, changed) = s.finish(&Events::none()).unwrap();
    assert!(prefixes.same(&set(&["10.0.0.0/24", "2001:db8::/32"])));
    assert!(!changed);
}

#[test]
fn snapshots_are_discarded_on_any_fault() {
    let cfg = config();
    let start = || {
        let mut s = Snapshot::new(&cfg, native(), u32::MAX);
        let r = s.next_request().unwrap();
        // Zero is left out.
        assert_eq!(seq_of(&r), 1);
        s
    };
    let fails = |b: &[u8]| start().datagram(b).unwrap_err();
    assert_eq!(fails(&[]), NetlinkError::EmptyDatagram);
    assert_eq!(fails(&message(24, 2, 9, &[])), NetlinkError::Sequence);
    assert_eq!(fails(&message(3, 0x12, 1, &[])), NetlinkError::Interrupted);
    assert_eq!(fails(&message(4, 2, 1, &[])), NetlinkError::Overrun);
    assert_eq!(fails(&message(2, 2, 1, &[0])), NetlinkError::ShortError);
    assert_eq!(
        fails(&message(2, 2, 1, &(-EINVAL).to_ne_bytes())),
        NetlinkError::Dump(EINVAL)
    );
    assert_eq!(
        fails(&message(3, 2, 1, &(-EINVAL).to_ne_bytes())),
        NetlinkError::DumpFailed(EINVAL)
    );
    assert_eq!(fails(&[0; 3]), NetlinkError::ShortHeader);
    let s = start();
    assert_eq!(s.check(true, 0), Err(NetlinkError::Stopping));
    assert_eq!(s.check(false, 9_999), Ok(()));
    assert_eq!(s.check(false, 10_000), Err(NetlinkError::Deadline));
    // A table that does not exist is empty, unless routes of it were seen.
    let mut s = start();
    s.datagram(&message(2, 2, 1, &(-ENOENT).to_ne_bytes())).unwrap();
    assert!(s.done);
    let mut s = start();
    s.datagram(&message(24, 2, 1, &rt(254, "10.0.0.0/8"))).unwrap();
    assert_eq!(
        s.datagram(&message(2, 2, 1, &(-ENOENT).to_ne_bytes())),
        Err(NetlinkError::Dump(ENOENT))
    );
}

#[test]
fn loss_and_change_during_a_snapshot_count() {
    let cfg = config();
    let mut s = Snapshot::new(&cfg, native(), 0);
    s.next_request().unwrap();
    let changed = Events { changed: true, lost: false, datagrams: 1 };
    let lost = Events { changed: false, lost: true, datagrams: 1 };
    assert_eq!(s.noticed(&lost), Err(NetlinkError::LossDuringDump));
    s.noticed(&changed).unwrap();
    s.datagram(&message(3, 2, 1, &[])).unwrap();
    assert!(s.next_request().is_none());
    let (_, during) = s.finish(&Events::none()).unwrap();
    assert!(during);
    let mut s = Snapshot::new(&cfg, native(), 0);
    s.next_request().unwrap();
    s.datagram(&message(3, 2, 1, &[])).unwrap();
    assert_eq!(s.finish(&lost).err(), Some(NetlinkError::LossAfterDump));
}

#[test]
fn snapshots_are_what_their_replies_announce() {
    let mut cfg = config();
    cfg.kernel.tables = vec![100, 200, 300];
    let mut s = Snapshot::new(&cfg, native(), 0);
    // The first table is split over datagrams and repeats a prefix.
    s.next_request().unwrap();
    let mut both = message(24, 2, 1, &rt(100, "10.0.0.0/24"));
    both.extend(message(24, 2, 1, &rt(100, "10.1.0.0/24")));
    s.datagram(&both).unwrap();
    s.noticed(&Events::none()).unwrap();
    let mut last = message(24, 2, 1, &rt(100, "10.0.0.0/24"));
    last.extend(message(3, 2, 1, &[]));
    s.datagram(&last).unwrap();
    // The second does not exist, though routes of the first were seen.
    s.next_request().unwrap();
    s.datagram(&message(2, 2, 2, &(-ENOENT).to_ne_bytes())).unwrap();
    // The third has a prefix of the first.
    s.next_request().unwrap();
    s.datagram(&message(24, 2, 3, &rt(300, "10.1.0.0/24"))).unwrap();
    s.datagram(&message(3, 2, 3, &0i32.to_ne_bytes())).unwrap();
    assert!(s.next_request().is_none());
    let changed = Events { changed: true, lost: false, datagrams: 1 };
    let (prefixes, during) = s.finish(&changed).unwrap();
    assert!(prefixes.same(&set(&["10.0.0.0/24", "10.1.0.0/24"])));
    assert!(during);
}

#[test]
fn malformed_records_discard_the_dump() {
    let cfg = config();
    let mut s = Snapshot::new(&cfg, native(), 0);
    s.next_request().unwrap();
    s.datagram(&message(24, 2, 1, &rt(254, "10.0.0.0/8"))).unwrap();
    assert_eq!(
        s.datagram(&message(24, 2, 1, &rt(254, "10.0.0.0/8")[..15])),
        Err(NetlinkError::ShortAttribute)
    );
    let mut s = Snapshot::new(&cfg, native(), 0);
    s.next_request().unwrap();
    // An error number of zero is no failure and does not end the reply.
    s.datagram(&message(2, 2, 1, &0i32.to_ne_bytes())).unwrap();
    assert!(!s.done);
    assert_eq!(s.datagram(&message(3, 2, 1, &[1])), Err(NetlinkError::ShortStatus));
}

#[test]
fn too_many_prefixes_are_never_a_partial_result() {
    let mut cfg = config();
    cfg.kernel.max_prefixes = 2;
    let mut s = Snapshot::new(&cfg, native(), 0);
    s.next_request().unwrap();
    for text in ["10.0.0.0/24", "10.0.0.0/24", "10.1.0.0/24"] {
        s.datagram(&message(24, 2, 1, &rt(254, text))).unwrap();
    }
    assert_eq!(
        s.datagram(&message(24, 2, 1, &rt(254, "10.2.0.0/24"))),
        Err(NetlinkError::TooManyPrefixes)
    );
}

#[test]
fn notifications_only_invalidate() {
    let mut e = Events::none();
    for kind in [16u16, 24, 28, 104, 106] {
        let mut one = Events::none();
        assert!(one.step(native(), Received::Datagram(&message(kind, 0, 0, &[]))));
        assert!(one.changed && !one.lost);
    }
    for kind in [15u16, 29, 103, 107] {
        assert!(e.step(native(), Received::Datagram(&message(kind, 0, 0, &[]))));
    }
    assert_eq!(e, Events { changed: false, lost: false, datagrams: 4 });
    for kind in [2u16, 4] {
        let mut one = Events::none();
        assert!(one.step(native(), Received::Datagram(&message(kind, 0, 0, &[]))));
        assert!(one.lost);
    }
    assert!(e.step(native(), Received::Interrupted));
    assert!(!e.step(native(), Received::WouldBlock));
    assert!(!e.lost);
    // A message before a fault still tells of its change.
    let mut b = message(24, 0, 0, &[]);
    b.push(1);
    assert!(e.step(native(), Received::Datagram(&b)));
    assert!(e.changed && e.lost);
    let mut e = Events::none();
    assert!(!e.step(native(), Received::Datagram(&[])));
    assert!(e.lost);
    let mut e = Events::none();
    assert!(!e.step(native(), Received::Failed));
    assert!(e.lost);
}

#[test]
fn datagrams_come_whole_and_from_the_kernel() {
    assert_eq!(check_sender(false, true, 0), Ok(()));
    assert_eq!(check_sender(true, true, 0), Err(NetlinkError::Truncated));
    assert_eq!(check_sender(false, false, 0), Err(NetlinkError::Sender));
    assert_eq!(check_sender(false, true, 9), Err(NetlinkError::Sender));
    assert_eq!(groups(false), 0x51);
    assert_eq!(groups(true), 0x551);
    assert!(buffer_capped(199, 100) && !buffer_capped(200, 100));
    assert!(!buffer_capped(usize::MAX, usize::MAX));
}

#[test]
fn exports_follow_the_acl_of_each_peer() {
    let mut cfg = config();
    cfg.acls.push(NamedAcl { name: "none".into(), acl: Acl { rules: vec![] } });
    cfg.acls.push(NamedAcl { name: "unused".into(), acl: Acl { rules: vec![] } });
    let mut second = cfg.peers[0].clone();
    second.address = IpAddr::V4(Ipv4Addr::new(192, 0, 2, 3));
    second.export_acl = "none".into();
    cfg.peers.push(second);
    let kernel = set(&["203.0.113.0/24", "198.51.100.0/24", "2001:db8::/32"]);
    let exports = filter(&cfg, &kernel);
    assert!(exports.get(&"export".into()).unwrap().same(&set(&["203.0.113.0/24"])));
    assert_eq!(exports.get(&"none".into()).unwrap().len(), 0);
    assert!(exports.get(&"unused".into()).is_none());
    assert!(!exports.is_empty());
    assert!(exports.same(&filter(&cfg, &kernel)));
    assert!(!exports.same(&Exports::new()));
    // The last copy gone is a withdrawal.
    let exports = filter(&cfg, &set(&["198.51.100.0/24"]));
    assert_eq!(exports.get(&"export".into()).unwrap().len(), 0);
}

#[test]
fn prefixes_are_a_set_in_order() {
    let mut s = set(&["::/0", "10.0.0.0/8", "10.0.0.0/16", "9.0.0.0/8", "10.0.0.0/8"]);
    let texts = ["9.0.0.0/8", "10.0.0.0/8", "10.0.0.0/16", "::/0"];
    assert_eq!(s.items, texts.map(net).to_vec());
    assert_eq!(s.len(), 4);
    s.remove(&net("10.0.0.0/8"));
    s.remove(&net("10.0.0.0/8"));
    assert!(!s.contains(&net("10.0.0.0/8")) && s.contains(&net("10.0.0.0/16")));
    let mut t = s.copy();
    t.remove_all(&set(&["::/0", "1.0.0.0/8"]));
    assert!(t.same(&set(&["9.0.0.0/8", "10.0.0.0/16"])));
    t.insert_all(&set(&["::/0"]));
    assert!(t.same(&s));
}

#[test]
fn workers_back_off_and_reconcile() {
    let cfg = config();
    let mut w = Worker::new(&cfg, 1_000);
    let quiet = Events::none();
    let changed = Events { changed: true, lost: false, datagrams: 1 };
    assert!(w.ready(1_000));
    for (n, pause) in [200, 400, 800, 1_600, 3_000, 3_000].iter().enumerate() {
        w.failed(10_000);
        assert_eq!((w.retries, w.due), (n as u32 + 1, 10_000 + pause));
        // Failures leave the doubt where it started.
        assert_eq!(w.dirty_since, Some(1_000));
    }
    w.published(20_000, false);
    assert_eq!((w.retries, w.dumps, w.dirty_since), (0, 1, None));
    assert_eq!((w.due, w.periodic), (20_250, 320_000));
    assert!(!w.noticed(20_100, &quiet) && !w.ready(21_000));
    assert!(w.noticed(20_100, &changed));
    assert!(!w.ready(20_249) && w.ready(20_250));
    // More notifications do not postpone it.
    assert!(w.noticed(20_240, &changed));
    assert_eq!(w.dirty_since, Some(20_100));
    assert!(w.ready(20_250));
    w.discard(20_300);
    assert_eq!((w.losses, w.due), (1, 20_550));
    w.published(20_600, true);
    assert_eq!(w.dirty_since, Some(20_600));
    w.published(20_700, false);
    assert!(w.noticed(320_700, &quiet) && w.ready(320_700));
}

#[test]
fn loss_while_evaluating_discards_the_snapshot() {
    let cfg = config();
    let mut w = Worker::new(&cfg, 1_000);
    let before = w;
    let changed = Events { changed: true, lost: false, datagrams: 1 };
    assert_eq!(w.evaluated(2_000, false, &Events::none()), Some(false));
    assert_eq!(w.evaluated(2_000, true, &Events::none()), Some(true));
    assert_eq!(w.evaluated(2_000, false, &changed), Some(true));
    assert_eq!(w, before);
    let lost = Events { changed: true, lost: true, datagrams: 1 };
    assert_eq!(w.evaluated(2_000, true, &lost), None);
    assert_eq!(w, Worker { losses: 1, dumps: 1, due: 2_250, ..before });
}

#[test]
fn only_fresh_complete_exports_are_shown() {
    let exports = || {
        Arc::new(Exports {
            entries: vec![Export { name: "export".into(), prefixes: set(&["10.0.0.0/24"]) }],
        })
    };
    let mut board = Board::new(1_000, Arc::new(Exports::new()), 3_000);
    // Nothing complete came in time.
    assert!(!board.look(3_999) && board.look(4_000) && !board.look(4_001));
    assert!(board.exports.is_empty());
    assert!(board.complete(5_000, false, exports()));
    assert!(board.exports.same(&exports()));
    assert!(!board.complete(5_000, false, exports()));
    assert!(!board.look(100_000));
    // The first doubt counts.
    board.doubt(100_000);
    board.doubt(102_000);
    assert!(!board.look(102_999));
    assert!(board.exports.same(&exports()));
    assert!(board.look(103_000));
    assert!(board.exports.is_empty());
    // What changed while the snapshot was taken is in doubt at once.
    assert!(board.complete(104_000, true, exports()));
    assert!(!board.look(106_999) && board.look(107_000));
    assert!(board.exports.is_empty());
}

#[test]
fn a_hundred_thousand_routes_are_decoded_once_each() {
    let mut prefixes = Prefixes::new();
    for n in 0..100_000u32 {
        let p = IpNet { addr: IpAddr::V4(Ipv4Addr { bits: 0x0a000000 + n }), prefix_len: 32 };
        let mut text = String::new();
        ubgp::text::append_net(&mut text, &p);
        prefixes.insert(route(&rt(254, &text), &[254]).unwrap().unwrap());
    }
    assert_eq!(prefixes.len(), 100_000);
}
