use std::collections::BTreeMap;
use ubgp::addr::{endpoint, IpAddr, Ipv4Addr, Ipv6Addr};
use ubgp::config::{
    connect_timeout, hold, port, syntax_message, valid_router_id, valid_v4, valid_v6,
    write_timeout, yes, Acl, Action, Config, ConfigError, Kernel, Management, Md5Key, NamedAcl,
    Peer, Rule, MAX_TIMEOUT_SECS,
};
use ubgp::management::{respond, statuses};
use ubgp::net::IpNet;
use ubgp::netlink::Exports;
use ubgp::text::parse_net;

fn net(text: &str) -> IpNet {
    parse_net(text).unwrap()
}

fn config() -> Config {
    Config {
        asn: 64512,
        router_id: Ipv4Addr::new(192, 0, 2, 1),
        ipv6: false,
        listen_port: 179,
        kernel: Kernel::default(),
        management: Management::default(),
        acls: vec![NamedAcl {
            name: "export".to_string(),
            acl: Acl {
                rules: vec![Rule {
                    action: Action::Permit,
                    prefix: net("203.0.113.0/24"),
                    min_length: None,
                    max_length: None,
                }],
            },
        }],
        peers: vec![Peer {
            address: IpAddr::V4(Ipv4Addr::new(192, 0, 2, 2)),
            local_address: IpAddr::V4(Ipv4Addr::new(192, 0, 2, 1)),
            interface: "eth0".to_string(),
            remote_asn: 64513,
            export_acl: "export".to_string(),
            md5_password: None,
            port: 179,
            hold_time_secs: 90,
            connect_timeout_secs: 10,
            write_timeout_secs: 10,
            ipv6: false,
            ipv4: true,
            next_hop_v4: None,
            next_hop_v6: None,
            next_hop_v6_link_local: None,
        }],
    }
}

fn v6(text: &str) -> Ipv6Addr {
    match net(&format!("{text}/128")).addr {
        IpAddr::V6(a) => a,
        IpAddr::V4(_) => unreachable!(),
    }
}

fn key(text: String) -> Option<Md5Key> {
    Some(Md5Key { text })
}

fn complaint(c: &Config) -> String {
    c.validate().unwrap_err().message(c)
}

#[test]
fn md5_keys_are_optional_bounded_by_bytes_and_redacted() {
    let mut c = config();
    c.validate().unwrap();
    for value in ["x".into(), "x".repeat(80), "é".repeat(40)] {
        c.peers[0].md5_password = key(value);
        c.validate().unwrap();
    }
    for value in [String::new(), "x".repeat(81), "é".repeat(41)] {
        c.peers[0].md5_password = key(value);
        assert!(c.validate().is_err());
    }
    c.peers[0].md5_password = key("test-secret-do-not-print".into());
    assert_eq!(c.peers[0].md5_password.as_ref().unwrap().shown(), "<redacted>");
    let states = statuses(&c, 0);
    for line in ["show summary", "show peers", "show routes export", "help"] {
        let shown = respond(&c, &states, 0, &Exports::new(), line).text;
        assert!(!shown.contains("test-secret-do-not-print"));
    }
    c.peers[0].export_acl = "missing".into();
    assert!(!complaint(&c).contains("test-secret-do-not-print"));
    for text in [
        "md5_password = \"test-secret-do-not-print\" trailing",
        "asn = \"test-secret-do-not-print\"",
    ] {
        let error = toml::from_str::<BTreeMap<String, u32>>(text).unwrap_err();
        let message = syntax_message(text, error.span().map(|span| span.start));
        assert!(!message.contains("test-secret-do-not-print"));
        assert!(message.contains("line"));
    }
}

#[test]
fn acl_order_ranges_and_default_deny() {
    let acl = Acl {
        rules: vec![
            Rule {
                action: Action::Deny,
                prefix: net("10.1.0.0/16"),
                min_length: Some(16),
                max_length: Some(32),
            },
            Rule {
                action: Action::Permit,
                prefix: net("10.0.0.0/8"),
                min_length: Some(24),
                max_length: Some(28),
            },
            Rule {
                action: Action::Permit,
                prefix: net("2001:db8::/32"),
                min_length: None,
                max_length: None,
            },
        ],
    };
    for p in ["10.2.0.0/24", "10.2.0.0/28", "2001:db8::/32"] {
        assert!(acl.permits(&net(p)), "{p}");
    }
    for p in ["10.1.0.0/24", "10.2.0.0/29", "10.0.0.0/8", "0.0.0.0/0", "2001:db8::/48"] {
        assert!(!acl.permits(&net(p)), "{p}");
    }
}

#[test]
fn mandatory_acl_and_ipv6_gate() {
    let mut c = config();
    c.validate().unwrap();
    c.peers[0].export_acl = "missing".into();
    assert!(c.validate().is_err());
    c.peers[0].export_acl = "export".into();
    c.peers[0].ipv6 = true;
    assert!(c.validate().is_err());
    c.peers[0].ipv6 = false;
    c.peers[0].export_acl = String::new();
    assert!(c.validate().is_err());
}

#[test]
fn router_ids_are_nonzero_integers_without_relaxing_addresses() {
    let mut c = config();
    for id in [[0, 0, 0, 1], [224, 0, 0, 1], [255, 255, 255, 255]] {
        c.router_id = Ipv4Addr::new(id[0], id[1], id[2], id[3]);
        c.validate().unwrap();
    }
    c.router_id = Ipv4Addr::new(0, 0, 0, 0);
    assert!(c.validate().is_err());
    assert!(!valid_v4(Ipv4Addr::new(224, 0, 0, 1)));
    assert!(!valid_v4(Ipv4Addr::new(255, 255, 255, 255)));
}

#[test]
fn timeout_bounds_reject_overflowing_toml_and_keep_valid_limits() {
    let baseline = config();
    let mut invalid = baseline.clone();
    invalid.peers[0].connect_timeout_secs = 9223372036854775807;
    assert!(complaint(&invalid).contains("connect_timeout_secs"));
    for value in [0, MAX_TIMEOUT_SECS + 1, i64::MAX as u64, u64::MAX] {
        let mut c = baseline.clone();
        c.peers[0].connect_timeout_secs = value;
        assert!(c.validate().is_err());
        let mut c = baseline.clone();
        c.peers[0].write_timeout_secs = value;
        assert!(c.validate().is_err());
        let mut c = baseline.clone();
        c.kernel.reconcile_interval_secs = value;
        assert!(c.validate().is_err());
        let mut c = baseline.clone();
        c.kernel.stale_timeout_secs = value;
        assert!(c.validate().is_err());
        let mut c = baseline.clone();
        c.kernel.dump_timeout_secs = value;
        assert!(c.validate().is_err());
    }
    for value in [1, MAX_TIMEOUT_SECS] {
        let mut c = baseline.clone();
        c.peers[0].connect_timeout_secs = value;
        c.peers[0].write_timeout_secs = value;
        c.kernel.reconcile_interval_secs = value;
        c.validate().unwrap();
    }
    let mut c = baseline;
    c.kernel.stale_timeout_secs = MAX_TIMEOUT_SECS;
    c.kernel.dump_timeout_secs = MAX_TIMEOUT_SECS - 1;
    c.validate().unwrap();
    c.kernel.dump_timeout_secs = MAX_TIMEOUT_SECS;
    assert!(c.validate().is_err());
}

#[test]
fn every_setting_error_has_its_message() {
    let cases: Vec<(fn(&mut Config), ConfigError, &str)> = vec![
        (
            |c| c.management.listen.ip = IpAddr::V4(Ipv4Addr::new(192, 0, 2, 1)),
            ConfigError::ManagementAddress,
            "management CLI must bind to a loopback address",
        ),
        (
            |c| c.management.listen.port = 0,
            ConfigError::ManagementPort,
            "management CLI port must be nonzero",
        ),
        (|c| c.asn = 0, ConfigError::LocalAsn, "local ASN must be nonzero and not AS_TRANS"),
        (|c| c.asn = 23456, ConfigError::LocalAsn, "local ASN must be nonzero and not AS_TRANS"),
        (|c| c.router_id.bits = 0, ConfigError::RouterId, "router_id must be nonzero"),
        (|c| c.listen_port = 0, ConfigError::ListenPort, "listen_port must be nonzero"),
        (|c| c.peers.clear(), ConfigError::NoPeers, "at least one peer is required"),
        (
            |c| c.kernel.tables.clear(),
            ConfigError::Tables,
            "select at least one nonzero routing table",
        ),
        (
            |c| c.kernel.tables.push(0),
            ConfigError::Tables,
            "select at least one nonzero routing table",
        ),
        (
            |c| c.kernel.receive_buffer_bytes = 65535,
            ConfigError::ReceiveBuffer,
            "receive_buffer_bytes must be 64 KiB..1 GiB",
        ),
        (
            |c| c.kernel.refresh_interval_ms = 9,
            ConfigError::RefreshInterval,
            "refresh_interval_ms must be 10..60000",
        ),
        (
            |c| c.kernel.reconcile_interval_secs = 0,
            ConfigError::ReconcileInterval,
            "kernel reconcile_interval_secs must be 1..=86400 seconds",
        ),
        (
            |c| c.kernel.stale_timeout_secs = 86401,
            ConfigError::StaleTimeout,
            "kernel stale_timeout_secs must be 1..=86400 seconds",
        ),
        (
            |c| c.kernel.dump_timeout_secs = 0,
            ConfigError::DumpTimeout,
            "kernel dump_timeout_secs must be 1..=86400 seconds",
        ),
        (
            |c| c.kernel.dump_timeout_secs = 30,
            ConfigError::DumpNotShorter,
            "dump timeout must be shorter than stale timeout",
        ),
        (|c| c.kernel.max_prefixes = 0, ConfigError::MaxPrefixes, "max_prefixes must be positive"),
    ];
    for (change, error, message) in cases {
        let mut c = config();
        change(&mut c);
        let found = c.validate().unwrap_err();
        assert_eq!(found, error);
        assert_eq!(found.message(&c), message);
    }
}

#[test]
fn every_acl_and_peer_error_has_its_message() {
    let cases: Vec<(fn(&mut Config), ConfigError, &str)> = vec![
        (|c| c.acls[0].name.clear(), ConfigError::AclName, "ACL name must not be empty"),
        (
            |c| c.acls[0].acl.rules[0].prefix = net("203.0.113.1/24"),
            ConfigError::AclHostBits(0),
            "ACL export: prefix must have no host bits",
        ),
        (
            |c| c.acls[0].acl.rules[0].max_length = Some(33),
            ConfigError::AclRange(0),
            "ACL export: invalid prefix length range",
        ),
        (
            |c| c.acls[0].acl.rules[0].min_length = Some(23),
            ConfigError::AclRange(0),
            "ACL export: invalid prefix length range",
        ),
        (
            |c| c.peers[0].md5_password = key(String::new()),
            ConfigError::Md5Length(0),
            "peer 192.0.2.2: md5_password must contain 1..=80 UTF-8 bytes; omit it to disable authentication",
        ),
        (
            |c| c.peers[0].export_acl = "no\"ne".into(),
            ConfigError::MissingAcl(0),
            "peer 192.0.2.2: mandatory export ACL \"no\\\"ne\" does not exist",
        ),
        (|c| c.peers[0].remote_asn = 0, ConfigError::PeerAsnOrPort, "invalid peer ASN or port"),
        (|c| c.peers[0].port = 0, ConfigError::PeerAsnOrPort, "invalid peer ASN or port"),
        (
            |c| c.peers[0].address = c.peers[0].local_address,
            ConfigError::AddressPair,
            "peer/local addresses must differ and use the same transport family",
        ),
        (
            |c| c.peers[0].address = IpAddr::V6(v6("2001:db8::2")),
            ConfigError::AddressPair,
            "peer/local addresses must differ and use the same transport family",
        ),
        (
            |c| c.peers[0].address = IpAddr::V4(Ipv4Addr::new(224, 0, 0, 1)),
            ConfigError::PeerAddress,
            "invalid peer address",
        ),
        (
            |c| c.peers[0].local_address = IpAddr::V4(Ipv4Addr::new(0, 0, 0, 0)),
            ConfigError::LocalAddress,
            "invalid local address",
        ),
        (
            |c| c.peers[0].interface = "sixteen-letters!".into(),
            ConfigError::Interface,
            "invalid peer interface",
        ),
        (
            |c| {
                let twin = c.peers[0].clone();
                c.peers.push(twin);
            },
            ConfigError::DuplicateEndpoint,
            "duplicate peer endpoint",
        ),
        (
            |c| c.peers[0].hold_time_secs = 2,
            ConfigError::HoldTime,
            "hold time must be zero or >= 3 seconds",
        ),
        (
            |c| c.peers[0].connect_timeout_secs = 0,
            ConfigError::ConnectTimeout(0),
            "peer 192.0.2.2: connect_timeout_secs must be 1..=86400 seconds",
        ),
        (
            |c| c.peers[0].write_timeout_secs = 86401,
            ConfigError::WriteTimeout(0),
            "peer 192.0.2.2: write_timeout_secs must be 1..=86400 seconds",
        ),
        (
            |c| c.peers[0].ipv4 = false,
            ConfigError::NoFamily,
            "peer must enable at least one address family",
        ),
        (
            |c| c.peers[0].next_hop_v6 = Some(v6("2001:db8::1")),
            ConfigError::Ipv6Disabled,
            "IPv6 must be enabled globally before using IPv6 settings",
        ),
        (
            |c| c.peers[0].next_hop_v4 = Some(Ipv4Addr::new(0, 0, 0, 0)),
            ConfigError::NextHopV4,
            "IPv4 export requires a valid local next_hop_v4",
        ),
        (
            |c| {
                c.ipv6 = true;
                c.peers[0].ipv6 = true;
            },
            ConfigError::NextHopV6,
            "IPv6 export requires a non-link-local next_hop_v6",
        ),
        (
            |c| {
                c.ipv6 = true;
                c.peers[0].next_hop_v6_link_local = Some(v6("2001:db8::1"));
            },
            ConfigError::LinkLocal,
            "next_hop_v6_link_local must be link-local",
        ),
    ];
    for (change, error, message) in cases {
        let mut c = config();
        change(&mut c);
        let found = c.validate().unwrap_err();
        assert_eq!(found, error, "{message}");
        assert_eq!(found.message(&c), message);
    }
}

#[test]
fn ipv6_peers_are_named_in_full() {
    let mut c = config();
    c.ipv6 = true;
    let p = &mut c.peers[0];
    p.address = IpAddr::V6(v6("2001:db8::2"));
    p.local_address = IpAddr::V6(v6("2001:db8::1"));
    p.ipv4 = false;
    p.ipv6 = true;
    c.validate().unwrap();
    c.peers[0].connect_timeout_secs = 0;
    assert_eq!(
        complaint(&c),
        "peer 2001:db8::2: connect_timeout_secs must be 1..=86400 seconds"
    );
}

#[test]
fn defaults_are_the_documented_ones() {
    assert_eq!((port(), hold(), connect_timeout(), write_timeout(), yes()), (179, 90, 10, 10, true));
    let k = Kernel::default();
    assert_eq!(k.tables, vec![254]);
    assert_eq!((k.stale_timeout_secs, k.reconcile_interval_secs), (30, 300));
    assert_eq!((k.refresh_interval_ms, k.max_prefixes), (250, 2_000_000));
    let m = Management::default();
    assert!(m.enabled && m.listen.ip.is_loopback());
    assert_eq!(m.listen.port, 65090);
}

#[test]
fn syntax_errors_are_located_by_line_and_column() {
    let tail = ": check TOML syntax, field names and types (source omitted to protect secrets)";
    let text = "asn = 1\nrouter_id = ?\n";
    let at = text.find('?');
    assert_eq!(
        syntax_message(text, at),
        format!("parsing configuration at line 2, column 13{tail}")
    );
    for offset in [None, Some(0)] {
        assert_eq!(
            syntax_message(text, offset),
            format!("parsing configuration at line 1, column 1{tail}")
        );
    }
    assert_eq!(
        syntax_message(text, Some(1000)),
        format!("parsing configuration at line 3, column 1{tail}")
    );
}

#[test]
fn rules_without_a_range_are_exact() {
    let mut rule = Rule {
        action: Action::Permit,
        prefix: net("10.0.0.0/8"),
        min_length: None,
        max_length: None,
    };
    let permits = |rule: &Rule, p: &str| Acl { rules: vec![rule.clone()] }.permits(&net(p));
    assert!(permits(&rule, "10.0.0.0/8"));
    assert!(!permits(&rule, "10.0.0.0/9"));
    assert!(!permits(&rule, "0.0.0.0/0"));
    assert!(!permits(&rule, "::/0"));
    rule.min_length = Some(24);
    rule.max_length = Some(32);
    assert!(permits(&rule, "10.255.0.0/24"));
    assert!(!permits(&rule, "11.0.0.0/24"));
    rule.prefix = net("0.0.0.0/0");
    rule.min_length = None;
    rule.max_length = None;
    assert!(permits(&rule, "0.0.0.0/0"));
    assert!(!Acl { rules: vec![] }.permits(&net("10.0.0.0/8")));
}

#[test]
fn documented_acl_example() {
    let acl = Acl {
        rules: vec![Rule {
            action: Action::Permit,
            prefix: net("192.0.2.0/24"),
            min_length: Some(24),
            max_length: Some(32),
        }],
    };
    assert!(acl.permits(&net("192.0.2.128/25")));
    assert!(!acl.permits(&net("198.51.100.0/24")));
}

#[test]
fn next_hops_fall_back_to_the_local_address_of_their_family() {
    let mut p = config().peers[0].clone();
    assert_eq!(p.nh4(), Some(Ipv4Addr::new(192, 0, 2, 1)));
    assert_eq!(p.nh6(), None);
    p.next_hop_v4 = Some(Ipv4Addr::new(192, 0, 2, 9));
    p.local_address = IpAddr::V6(v6("2001:db8::1"));
    assert_eq!(p.nh4(), Some(Ipv4Addr::new(192, 0, 2, 9)));
    assert_eq!(p.nh6(), Some(v6("2001:db8::1")));
    p.next_hop_v4 = None;
    assert_eq!(p.nh4(), None);
}

#[test]
fn addresses_are_told_apart() {
    assert!(valid_v4(Ipv4Addr::new(192, 0, 2, 1)) && !valid_v4(Ipv4Addr::new(0, 0, 0, 0)));
    assert!(valid_router_id(Ipv4Addr::new(255, 255, 255, 255)));
    assert!(valid_v6(v6("fe80::1")) && !valid_v6(v6("::")) && !valid_v6(v6("ff02::1")));
    assert!(v6("fe80::1").is_unicast_link_local() && !v6("fec0::1").is_unicast_link_local());
    let scoped = endpoint(IpAddr::V6(v6("fe80::1")), 179, 7);
    assert_eq!((scoped.port, scoped.scope_id), (179, 7));
    let global = endpoint(IpAddr::V6(v6("2001:db8::1")), 179, 7);
    assert_eq!(global.scope_id, 0);
}

#[test]
fn texts_of_prefixes_are_read_as_they_are_written() {
    for text in ["10.0.0.0/8", "0.0.0.0/0", "2001:db8::/32", "::/0", "10.1.2.3/20"] {
        let mut shown = String::new();
        ubgp::text::append_net(&mut shown, &net(text));
        assert_eq!(shown, text);
    }
    for text in ["10.0.0.0", "10.0.0.0/33", "::/129", "", "ten/8"] {
        assert_eq!(parse_net(text), None);
    }
    assert_eq!(ubgp::text::net_from_parts(None), None);
    assert_eq!(
        ubgp::text::net_from_parts(Some((false, 0x0a00_0000, 8))),
        Some(net("10.0.0.0/8"))
    );
}
