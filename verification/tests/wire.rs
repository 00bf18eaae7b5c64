use ubgp::addr::{IpAddr, Ipv4Addr, Ipv6Addr};
use ubgp::config::{Acl, Action, Config, Kernel, Management, NamedAcl, Peer, Rule};
use ubgp::net::IpNet;
use ubgp::text::parse_net;
use ubgp::wire::{
    check_header, end_of_rib, frame, notification, open, parse_open, read_frame, refresh_family,
    unexpected, update, update_prefixes, validate_update, Error, Frame, FsmState, Negotiated,
    ProtocolError, UpdateAction, MAX_MESSAGE, MAX_UPDATE_PREFIXES,
};

fn net(text: &str) -> IpNet {
    parse_net(text).unwrap()
}

fn v6(text: &str) -> Ipv6Addr {
    match net(&format!("{text}/128")).addr {
        IpAddr::V6(a) => a,
        IpAddr::V4(_) => unreachable!(),
    }
}

fn u16b(b: &[u8]) -> u16 {
    u16::from_be_bytes([b[0], b[1]])
}

fn config() -> Config {
    Config {
        asn: 64512,
        router_id: Ipv4Addr::new(192, 0, 2, 1),
        ipv6: false,
        listen_port: 179,
        kernel: Kernel::default(),
        management: Management::default(),
        acls: vec![NamedAcl {
            name: "export".to_string(),
            acl: Acl {
                rules: vec![Rule {
                    action: Action::Permit,
                    prefix: net("203.0.113.0/24"),
                    min_length: None,
                    max_length: None,
                }],
            },
        }],
        peers: vec![Peer {
            address: IpAddr::V4(Ipv4Addr::new(192, 0, 2, 2)),
            local_address: IpAddr::V4(Ipv4Addr::new(192, 0, 2, 1)),
            interface: "eth0".to_string(),
            remote_asn: 64513,
            export_acl: "export".to_string(),
            md5_password: None,
            port: 179,
            hold_time_secs: 90,
            connect_timeout_secs: 10,
            write_timeout_secs: 10,
            ipv6: false,
            ipv4: true,
            next_hop_v4: None,
            next_hop_v6: None,
            next_hop_v6_link_local: None,
        }],
    }
}

/// A configuration, its peer, and dual-stack, four-octet negotiation.
fn fixture() -> (Config, Peer, Negotiated) {
    let c = config();
    let p = c.peers[0].clone();
    let n = Negotiated {
        router_id: Ipv4Addr::new(192, 0, 2, 2),
        hold: 90,
        asn4: true,
        internal: false,
        ipv4: true,
        ipv6: true,
    };
    (c, p, n)
}

#[test]
fn encode_ipv4_ipv6_announce_withdraw_and_eor() {
    let (c, mut p, n) = fixture();
    p.next_hop_v6 = Some(v6("2001:db8::1"));
    for prefix in ["0.0.0.0/0", "203.0.113.0/24", "2001:db8::/32", "::/0"] {
        for withdraw in [false, true] {
            let msg = update(&c, &p, &n, &[net(prefix)], withdraw);
            assert_eq!(u16b(&msg[16..]) as usize, msg.len());
            validate_update(&msg[19..], &n).unwrap();
        }
    }
    for v6 in [false, true] {
        validate_update(&end_of_rib(v6)[19..], &n).unwrap();
    }
}

#[test]
fn legacy_as4_and_internal_aspath() {
    let (mut c, p, mut n) = fixture();
    c.asn = 4_200_000_001;
    n.asn4 = false;
    let packet = update(&c, &p, &n, &[net("10.0.0.0/8")], false);
    validate_update(&packet[19..], &n).unwrap();
    assert!(packet.windows(3).any(|b| b == [0xc0, 17, 6]));
    c.asn = p.remote_asn;
    let packet = update(&c, &p, &n, &[net("10.0.0.0/8")], false);
    assert!(packet.windows(3).any(|b| b == [0x40, 2, 0]));
    assert!(packet.windows(3).any(|b| b == [0x40, 5, 4]));
}

#[test]
fn open_negotiation_checks_asn_hold_and_family() {
    let (c, p, _) = fixture();
    let mut remote = c.clone();
    remote.asn = p.remote_asn;
    remote.router_id = Ipv4Addr::new(192, 0, 2, 2);
    let msg = open(&remote, &p);
    let n = parse_open(&msg[19..], &c, &p).unwrap();
    assert!(n.ipv4 && n.asn4);
    assert!(!n.ipv6);
    let mut msg = msg;
    msg[22..24].copy_from_slice(&1u16.to_be_bytes());
    assert!(parse_open(&msg[19..], &c, &p).is_err());
}

#[test]
fn framing_handles_fragmentation_and_rejects_oversize() {
    let mut received: Vec<u8> = Vec::new();
    let packet = frame(4, &[]);
    for byte in &packet {
        match read_frame(&received).unwrap() {
            Frame::Needs(n) => assert_eq!(n, packet.len() - received.len()),
            Frame::Complete(..) => panic!("complete too early"),
        }
        received.push(*byte);
    }
    match read_frame(&received).unwrap() {
        Frame::Complete(kind, body) => assert_eq!((kind, body), (4, vec![])),
        Frame::Needs(_) => panic!("incomplete"),
    }
    let mut bad = frame(4, &[]);
    bad[16..18].copy_from_slice(&4097u16.to_be_bytes());
    assert!(read_frame(&bad).is_err());
}

#[test]
fn maximum_ipv6_batch_fits_standard_message_size() {
    let (c, mut p, n) = fixture();
    p.next_hop_v6 = Some(v6("2001:db8::1"));
    p.next_hop_v6_link_local = Some(v6("fe80::1"));
    let prefixes = vec![net("2001:db8::ff/128"); MAX_UPDATE_PREFIXES];
    for withdraw in [false, true] {
        let msg = update(&c, &p, &n, &prefixes, withdraw);
        assert!(msg.len() <= MAX_MESSAGE);
        validate_update(&msg[19..], &n).unwrap();
    }
}

#[test]
fn arbitrary_protocol_input_does_not_panic() {
    let (c, p, n) = fixture();
    let mut state = 0x123456789abcdefu64;
    for len in 0..4096 {
        let mut bytes = vec![0u8; len];
        for byte in &mut bytes {
            state ^= state << 13;
            state ^= state >> 7;
            state ^= state << 17;
            *byte = state as u8;
        }
        let _ = parse_open(&bytes, &c, &p);
        let _ = validate_update(&bytes, &n);
        let _ = update_prefixes(&bytes);
    }
}

#[test]
fn parsers_never_panic_on_truncated_input() {
    let (c, p, n) = fixture();
    let open = open(&c, &p);
    for l in 0..open.len() - 19 {
        assert!(parse_open(&open[19..19 + l], &c, &p).is_err());
    }
    let update = update(&c, &p, &n, &[net("10.0.0.0/8")], false);
    for l in 0..update.len() - 20 {
        let _ = validate_update(&update[19..19 + l], &n);
    }
    for l in 0..512 {
        let b = vec![255u8; l];
        let _ = validate_update(&b, &n);
    }
}

/// Independent IPv4 UPDATE bytes with a known route and mandatory attributes.
fn received_update(asn4: bool, extra: &[u8]) -> Vec<u8> {
    let mut attrs = vec![0x40, 1, 1, 2];
    if asn4 {
        attrs.extend_from_slice(&[0x40, 2, 6, 2, 1, 0, 0, 252, 1]);
    } else {
        attrs.extend_from_slice(&[0x40, 2, 4, 2, 1, 252, 1]);
    }
    attrs.extend_from_slice(&[0x40, 3, 4, 192, 0, 2, 2]);
    attrs.extend_from_slice(extra);
    let mut body = vec![0, 0];
    body.extend_from_slice(&(attrs.len() as u16).to_be_bytes());
    body.extend(attrs);
    body.extend_from_slice(&[24, 10, 1, 0]);
    body
}

#[test]
fn update_recovery_and_fatal_boundaries() {
    let (_, _, n) = fixture();
    let mut bad_origin = received_update(true, &[]);
    bad_origin[7] = 3;
    assert_eq!(validate_update(&bad_origin, &n).unwrap(), UpdateAction::TreatAsWithdraw);
    assert_eq!(update_prefixes(&bad_origin), vec![net("10.1.0.0/24")]);
    // The first occurrence wins, even if a later duplicate is malformed.
    assert_eq!(
        validate_update(&received_update(true, &[0x40, 1, 1, 3]), &n).unwrap(),
        UpdateAction::AttributeDiscard
    );
    for extra in [
        vec![0xc0, 8, 0],
        vec![0xc0, 16, 1, 0],
        vec![0xc0, 32, 0],
        vec![0x80, 4, 1, 0],
        vec![0x40, 8, 4, 0, 0, 0, 1],
        vec![0x80],
        vec![0x80, 8, 255],
    ] {
        assert_eq!(
            validate_update(&received_update(true, &extra), &n).unwrap(),
            UpdateAction::TreatAsWithdraw,
            "{extra:?}"
        );
    }
    for extra in [vec![0x40, 6, 1, 0], vec![0xc0, 7, 1, 0], vec![0x80, 6, 0]] {
        assert_eq!(
            validate_update(&received_update(true, &extra), &n).unwrap(),
            UpdateAction::AttributeDiscard
        );
    }
    // Missing mandatory attributes are recoverable only with reachable NLRI.
    assert_eq!(
        validate_update(&[0, 0, 0, 0, 24, 10, 1, 0], &n).unwrap(),
        UpdateAction::TreatAsWithdraw
    );
    assert_eq!(validate_update(&[0, 0, 0, 0], &n).unwrap(), UpdateAction::Valid);
    let mut without_nlri = bad_origin.clone();
    without_nlri.truncate(without_nlri.len() - 4);
    assert!(validate_update(&without_nlri, &n).is_err());
    let mut bad_nlri = bad_origin;
    *bad_nlri.last_mut().unwrap() = 0;
    let last = bad_nlri.len() - 4;
    bad_nlri[last] = 33;
    assert!(validate_update(&bad_nlri, &n).is_err());
    for extra in [
        vec![0x80, 14, 3, 0, 2, 1],
        vec![0x80, 15, 4, 0, 2, 1, 129],
        vec![0x80, 15, 3, 0, 2, 1, 0x80, 15, 3, 0, 2, 1],
        vec![0x40, 99, 1, 0],
    ] {
        assert!(validate_update(&received_update(true, &extra), &n).is_err(), "{extra:?}");
    }
    // A later malformed MP attribute overrides an earlier recoverable error.
    let mut both = received_update(true, &[0x80, 14, 3, 0, 2, 1]);
    both[7] = 3;
    assert!(validate_update(&both, &n).is_err());
}

#[test]
fn as4_attributes_and_external_only_discards_preserve_updates() {
    let (_, _, mut n) = fixture();
    for asn4 in [false, true] {
        n.asn4 = asn4;
        for extra in [vec![0xc0, 17, 1, 0], vec![0xc0, 18, 1, 0]] {
            assert_eq!(
                validate_update(&received_update(asn4, &extra), &n).unwrap(),
                UpdateAction::AttributeDiscard
            );
        }
    }
    n.asn4 = true;
    for kind in [5, 9, 10] {
        let extra = [0x80, kind, 1, 0];
        assert_eq!(
            validate_update(&received_update(true, &extra), &n).unwrap(),
            UpdateAction::AttributeDiscard
        );
        n.internal = true;
        assert_eq!(
            validate_update(&received_update(true, &extra), &n).unwrap(),
            UpdateAction::TreatAsWithdraw
        );
        n.internal = false;
    }
    n.internal = true;
    assert_eq!(
        validate_update(&received_update(true, &[]), &n).unwrap(),
        UpdateAction::TreatAsWithdraw
    );
    assert_eq!(
        validate_update(&received_update(true, &[0x40, 5, 4, 0, 0, 0, 100]), &n).unwrap(),
        UpdateAction::Valid
    );
}

#[test]
fn open_accepts_integer_ids_and_equal_external_ids_only() {
    let (c, mut p, _) = fixture();
    for internal in [false, true] {
        if internal {
            p.remote_asn = c.asn;
        }
        for id in [[0, 0, 0, 0], [224, 0, 0, 1], [255, 255, 255, 255], [192, 0, 2, 1]] {
            let mut remote = c.clone();
            remote.asn = p.remote_asn;
            remote.router_id = Ipv4Addr::new(id[0], id[1], id[2], id[3]);
            let packet = open(&remote, &p);
            let result = parse_open(&packet[19..], &c, &p);
            let rejected = id == [0, 0, 0, 0] || (internal && remote.router_id == c.router_id);
            assert_eq!(result.is_err(), rejected, "{id:?}, internal={internal}");
            if rejected {
                let error = result.unwrap_err();
                assert_eq!((error.code, error.subcode), (2, 3));
            }
        }
    }
}

/// An extended OPEN around explicitly supplied parameter bytes.
fn extended_open(c: &Config, p: &Peer, params: &[u8]) -> Vec<u8> {
    let mut b = vec![4];
    b.extend_from_slice(&(p.remote_asn as u16).to_be_bytes());
    b.extend_from_slice(&90u16.to_be_bytes());
    b.extend_from_slice(&[192, 0, 2, 2]);
    assert_ne!(c.router_id, Ipv4Addr::new(192, 0, 2, 2));
    b.extend_from_slice(&[255, 255]);
    b.extend_from_slice(&(params.len() as u16).to_be_bytes());
    b.extend_from_slice(params);
    b
}

#[test]
fn extended_open_accepts_short_long_and_multiple_parameters() {
    let (c, p, _) = fixture();
    // Separate parameters for four-octet ASN and IPv4 MP capability.
    let mut params = vec![2, 0, 6, 65, 4];
    params.extend_from_slice(&p.remote_asn.to_be_bytes());
    params.extend_from_slice(&[2, 0, 6, 1, 4, 0, 1, 0, 1]);
    for legacy_length in [1, 254, 255] {
        let mut b = extended_open(&c, &p, &params);
        b[9] = legacy_length;
        let n = parse_open(&b, &c, &p).unwrap();
        assert!(n.asn4 && n.ipv4);
    }
    // A single parameter larger than 255 bytes, with one-byte capability lengths.
    let mut caps = vec![65, 4];
    caps.extend_from_slice(&p.remote_asn.to_be_bytes());
    caps.extend_from_slice(&[1, 4, 0, 1, 0, 1, 200, 250]);
    caps.extend([0; 250]);
    let mut params = vec![2];
    params.extend_from_slice(&(caps.len() as u16).to_be_bytes());
    params.extend(caps);
    let b = extended_open(&c, &p, &params);
    assert!(b.len() > 255);
    let n = parse_open(&b, &c, &p).unwrap();
    assert!(n.asn4 && n.ipv4);
    let empty = parse_open(&extended_open(&c, &p, &[]), &c, &p).unwrap();
    assert!(empty.ipv4 && !empty.asn4);
}

#[test]
fn extended_open_rejects_truncation_and_inconsistent_nested_lengths() {
    let (c, p, _) = fixture();
    let b = extended_open(&c, &p, &[2, 0, 6, 1, 4, 0, 1, 0, 1]);
    for length in 0..b.len() {
        assert!(parse_open(&b[..length], &c, &p).is_err(), "{length}");
    }
    for (position, value) in [(9, 0), (12, 8), (12, 10), (15, 5), (15, 7), (17, 5)] {
        let mut bad = b.clone();
        bad[position] = value;
        assert!(parse_open(&bad, &c, &p).is_err(), "{position}={value}");
    }
}

#[test]
fn multiprotocol_nlri_is_first_on_wire_but_legacy_order_is_accepted() {
    let (mut c, mut p, mut n) = fixture();
    p.next_hop_v6 = Some(v6("2001:db8::1"));
    p.next_hop_v6_link_local = Some(v6("fe80::1"));
    for internal in [false, true] {
        if internal {
            c.asn = p.remote_asn;
            n.internal = true;
        }
        for withdraw in [false, true] {
            let packet = update(&c, &p, &n, &[net("2001:db8:100::/48")], withdraw);
            let body = &packet[19..];
            assert_eq!(&body[..2], &[0, 0]);
            let len = u16b(&body[2..]) as usize;
            assert_eq!(body.len(), len + 4);
            let attrs = &body[4..];
            assert_eq!(attrs[0], 0x80);
            assert_eq!(attrs[1], if withdraw { 15 } else { 14 });
            assert_eq!(&attrs[3..6], &[0, 2, 1]);
            if !withdraw {
                assert_eq!(attrs[6], 32); // Global plus link-local next hop.
                let first_len = 3 + attrs[2] as usize;
                assert_eq!(&attrs[first_len..first_len + 4], &[0x40, 1, 1, 2]);
                let mut legacy = body[..4].to_vec();
                legacy.extend_from_slice(&attrs[first_len..]);
                legacy.extend_from_slice(&attrs[..first_len]);
                assert_eq!(validate_update(&legacy, &n).unwrap(), UpdateAction::Valid);
            }
            assert_eq!(validate_update(body, &n).unwrap(), UpdateAction::Valid);
        }
    }
    assert_eq!(&end_of_rib(true)[19..], &[0, 0, 0, 6, 0x80, 15, 3, 0, 2, 1]);
}

/// Exact NOTIFICATION payload bytes, including the error data that is due.
fn notification_data(e: &ProtocolError, expected: &[u8]) {
    let packet = notification(e.code, e.subcode, &e.data);
    assert_eq!(&packet[..16], &[255; 16]);
    assert_eq!(u16b(&packet[16..]) as usize, 19 + expected.len());
    assert_eq!(packet[18], 3);
    assert_eq!(&packet[19..], expected);
}

#[test]
fn notifications_include_capabilities_and_offending_attributes() {
    let (c, mut p, n) = fixture();
    let mut remote = c.clone();
    remote.asn = p.remote_asn;
    remote.router_id = Ipv4Addr::new(192, 0, 2, 2);
    let packet = open(&remote, &p);
    p.ipv4 = false;
    p.ipv6 = true;
    notification_data(
        &parse_open(&packet[19..], &c, &p).unwrap_err(),
        &[2, 7, 1, 4, 0, 2, 0, 1],
    );
    let mut remote_peer = p.clone();
    remote_peer.ipv4 = false;
    remote_peer.ipv6 = false;
    // Advertise an unsupported family so legacy IPv4 fallback does not apply.
    let mut unsupported = open(&remote, &remote_peer)[19..].to_vec();
    unsupported[9] += 6;
    unsupported[11] += 6;
    unsupported.extend_from_slice(&[1, 4, 0, 25, 0, 70]);
    p.ipv4 = true;
    notification_data(
        &parse_open(&unsupported, &c, &p).unwrap_err(),
        &[2, 7, 1, 4, 0, 1, 0, 1, 1, 4, 0, 2, 0, 1],
    );
    for attr in [vec![0x40, 99, 1, 42], vec![0x50, 99, 0, 1, 42]] {
        let mut expected = vec![3, 2];
        expected.extend_from_slice(&attr);
        notification_data(
            &validate_update(&received_update(true, &attr), &n).unwrap_err(),
            &expected,
        );
    }
    let mut optional = packet[19..29].to_vec();
    optional[9] = 3;
    optional.extend_from_slice(&[99, 1, 42]);
    notification_data(&parse_open(&optional, &c, &p).unwrap_err(), &[2, 4, 99, 1, 42]);
}

#[test]
fn fsm_notifications_identify_state_and_unexpected_message() {
    for (state, subcode, kind) in [
        (FsmState::OpenSent, 1, 4),
        (FsmState::OpenConfirm, 2, 2),
        (FsmState::Established, 3, 1),
    ] {
        notification_data(
            unexpected(state, kind, &[]).protocol().unwrap(),
            &[5, subcode, kind],
        );
        assert!(unexpected(state, 3, &[6, 0]).protocol().is_none());
    }
}

#[test]
fn peer_notifications_are_described() {
    assert_eq!(
        unexpected(FsmState::Established, 3, &[6, 0]).message(),
        "peer sent NOTIFICATION code=6 subcode=0"
    );
    assert_eq!(
        unexpected(FsmState::Established, 3, &[6]).message(),
        "peer sent truncated NOTIFICATION"
    );
    assert_eq!(
        unexpected(FsmState::OpenSent, 4, &[]).message(),
        "BGP 5.1: unexpected message in BGP state"
    );
    assert_eq!(Error::Other("gone".to_string()).message(), "gone");
}

#[test]
fn headers_are_checked_before_bodies() {
    let good = frame(4, &[]);
    assert_eq!(check_header(&good).unwrap(), (4, 0));
    let mut marker = good.clone();
    marker[3] = 0;
    let e = check_header(&marker).unwrap_err();
    assert_eq!((e.code, e.subcode, e.reason), (1, 1, "invalid marker"));
    for len in [18u16, 4097] {
        let mut bad = good.clone();
        bad[16..18].copy_from_slice(&len.to_be_bytes());
        let e = check_header(&bad).unwrap_err();
        assert_eq!((e.code, e.subcode, e.data), (1, 2, len.to_be_bytes().to_vec()));
    }
    let mut kind = good.clone();
    kind[18] = 6;
    let e = check_header(&kind).unwrap_err();
    assert_eq!((e.code, e.subcode, e.data), (1, 3, vec![6]));
    for (kind, len) in [(1u8, 28u16), (2, 22), (3, 20), (4, 20), (5, 24)] {
        let mut bad = good.clone();
        bad[16..18].copy_from_slice(&len.to_be_bytes());
        bad[18] = kind;
        let e = check_header(&bad).unwrap_err();
        assert_eq!((e.subcode, e.reason), (2, "invalid length for message type"));
    }
}

#[test]
fn notification_data_is_cut_to_fit() {
    let packet = notification(3, 2, &vec![7; 5000]);
    assert_eq!(packet.len(), MAX_MESSAGE);
    assert_eq!(&packet[19..22], &[3, 2, 7]);
}

#[test]
fn exact_open_and_update_bytes() {
    let (mut c, p, n) = fixture();
    c.asn = 4_200_000_001;
    let body = open(&c, &p)[19..].to_vec();
    // AS_TRANS in the fixed part, the four-octet number in a capability.
    assert_eq!(&body[..9], &[4, 0x5b, 0xa0, 0, 90, 192, 0, 2, 1]);
    assert!(body.windows(6).any(|b| b == [65, 4, 0xfa, 0x56, 0xea, 0x01]));
    let (c, _, _) = fixture();
    let msg = update(&c, &p, &n, &[net("10.1.2.3/20")], false);
    // Host bits are not sent.
    assert_eq!(&msg[msg.len() - 4..], &[20, 10, 1, 0]);
    assert_eq!(update_prefixes(&msg[19..]), vec![net("10.1.0.0/20")]);
    let msg = update(&c, &p, &n, &[net("10.1.2.3/20")], true);
    assert_eq!(&msg[19..], &[0, 4, 20, 10, 1, 0, 0, 0]);
    assert_eq!(update_prefixes(&msg[19..]), vec![]);
    assert_eq!(&end_of_rib(false)[19..], &[0, 0, 0, 0]);
}

#[test]
fn what_is_sent_is_read_back() {
    let (mut c, mut p, mut n) = fixture();
    p.next_hop_v6 = Some(v6("2001:db8::1"));
    for internal in [false, true] {
        n.internal = internal;
        if internal {
            c.asn = p.remote_asn;
        }
        for asn4 in [false, true] {
            n.asn4 = asn4;
            for batch in [
                vec![net("10.0.0.0/8"), net("10.1.0.0/16"), net("192.0.2.129/32")],
                vec![net("::/0"), net("2001:db8::/33"), net("2001:db8::1/128")],
            ] {
                let msg = update(&c, &p, &n, &batch, false);
                assert_eq!(validate_update(&msg[19..], &n).unwrap(), UpdateAction::Valid);
                assert_eq!(update_prefixes(&msg[19..]), batch);
            }
        }
    }
}

#[test]
fn what_is_treated_as_withdrawn_is_named() {
    let (c, mut p, n) = fixture();
    p.next_hop_v6 = Some(v6("2001:db8::1"));
    for prefix in ["10.1.0.0/16", "2001:db8::/32"] {
        let mut body = update(&c, &p, &n, &[net(prefix)], false)[19..].to_vec();
        let origin = body.windows(3).position(|b| b == [0x40, 1, 1]).unwrap();
        body[origin + 3] = 3;
        assert_eq!(validate_update(&body, &n).unwrap(), UpdateAction::TreatAsWithdraw);
        assert_eq!(update_prefixes(&body), vec![net(prefix)]);
    }
}

#[test]
fn route_refresh_names_a_family_that_is_exchanged() {
    let (_, _, mut n) = fixture();
    assert_eq!(refresh_family(&[0, 1, 0, 1], &n).unwrap(), Some(false));
    assert_eq!(refresh_family(&[0, 2, 0, 1], &n).unwrap(), Some(true));
    assert_eq!(refresh_family(&[0, 25, 0, 70], &n).unwrap(), None);
    n.ipv6 = false;
    assert_eq!(refresh_family(&[0, 2, 0, 1], &n).unwrap(), None);
    assert_eq!(
        refresh_family(&[0, 1, 0], &n).unwrap_err().message(),
        "invalid ROUTE-REFRESH length"
    );
}

#[test]
fn both_ends_of_a_session_agree() {
    let (a, mut to_b, _) = fixture();
    to_b.hold_time_secs = 30;
    let mut b = a.clone();
    b.asn = to_b.remote_asn;
    b.router_id = Ipv4Addr::new(192, 0, 2, 2);
    let mut to_a = to_b.clone();
    to_a.remote_asn = a.asn;
    to_a.hold_time_secs = 90;
    let seen_by_a = parse_open(&open(&b, &to_a)[19..], &a, &to_b).unwrap();
    let seen_by_b = parse_open(&open(&a, &to_b)[19..], &b, &to_a).unwrap();
    assert_eq!(seen_by_a.hold, 30);
    assert_eq!(seen_by_b.hold, 30);
    assert_eq!((seen_by_a.ipv4, seen_by_a.ipv6), (seen_by_b.ipv4, seen_by_b.ipv6));
    assert_eq!(seen_by_a.router_id, b.router_id);
    assert_eq!(seen_by_b.router_id, a.router_id);
}
