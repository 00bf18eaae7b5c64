use ubgp::addr::{IpAddr, Ipv4Addr};
use ubgp::config::{Acl, Action, Config, Kernel, Management, NamedAcl, Peer, Rule};
use ubgp::management::console::split_words;
use ubgp::management::{
    accepts, greeting, respond, safe, show_routes, statuses, update, InputError, LineReader, Step,
    HELP,
};
use ubgp::net::{IpNet, Prefixes};
use ubgp::netlink::{Export, Exports};
use ubgp::text::parse_net;

fn net(text: &str) -> IpNet {
    parse_net(text).unwrap()
}

fn config() -> Config {
    Config {
        asn: 64512,
        router_id: Ipv4Addr::new(192, 0, 2, 1),
        ipv6: false,
        listen_port: 179,
        kernel: Kernel::default(),
        management: Management::default(),
        acls: vec![NamedAcl {
            name: "export".to_string(),
            acl: Acl {
                rules: vec![Rule {
                    action: Action::Permit,
                    prefix: net("203.0.113.0/24"),
                    min_length: None,
                    max_length: None,
                }],
            },
        }],
        peers: vec![Peer {
            address: IpAddr::V4(Ipv4Addr::new(192, 0, 2, 2)),
            local_address: IpAddr::V4(Ipv4Addr::new(192, 0, 2, 1)),
            interface: "eth0".to_string(),
            remote_asn: 64513,
            export_acl: "export".to_string(),
            md5_password: None,
            port: 179,
            hold_time_secs: 90,
            connect_timeout_secs: 10,
            write_timeout_secs: 10,
            ipv6: false,
            ipv4: true,
            next_hop_v4: None,
            next_hop_v6: None,
            next_hop_v6_link_local: None,
        }],
    }
}

fn exports(texts: &[&str]) -> Exports {
    let mut prefixes = Prefixes::new();
    for text in texts {
        prefixes.insert(net(text));
    }
    Exports { entries: vec![Export { name: "export".into(), prefixes }] }
}

fn ask(e: &Exports, line: &str) -> String {
    let c = config();
    let reply = respond(&c, &statuses(&c, 0), 5_999, e, line);
    assert!(!reply.close);
    reply.text
}

#[test]
fn commands_are_answered_with_a_prompt() {
    let none = Exports::new();
    assert_eq!(ask(&none, ""), "ubgp> ");
    assert_eq!(ask(&none, " \t "), "ubgp> ");
    assert_eq!(ask(&none, "help"), format!("{HELP}ubgp> "));
    assert_eq!(ask(&none, "?"), format!("{HELP}ubgp> "));
    for line in ["show", "show routes", "show routes a b c", "quit now", "reload", "Help"] {
        assert_eq!(ask(&none, line), "Unknown command; type help\r\nubgp> ");
    }
    let c = config();
    for line in ["quit", "exit", "  quit"] {
        let reply = respond(&c, &statuses(&c, 0), 0, &none, line);
        assert!(reply.close);
        assert_eq!(reply.text, "Bye\r\n");
    }
    assert!(greeting().ends_with("ubgp> "));
}

#[test]
fn summaries_count_peers_and_candidates() {
    let mut c = config();
    c.kernel.tables = vec![254, 1000];
    c.acls.push(NamedAcl { name: "h\u{e9}".into(), acl: Acl { rules: vec![] } });
    let mut states = statuses(&c, 0);
    let e = exports(&["203.0.113.0/24"]);
    let text = |states: &Vec<ubgp::management::PeerStatus>| {
        respond(&c, states, 0, &e, "show summary").text
    };
    assert_eq!(
        text(&states),
        "Router ID 192.0.2.1  AS 64512  IPv6 false\r\nPeers 1  Established 0\r\nSelected tables [254, 1000]\r\nACLs: 2\r\n  export: 1 export candidates\r\n  h?: 0 export candidates\r\nubgp> "
    );
    update(&mut states[0], "Established", 1_000, None);
    assert!(text(&states).contains("Peers 1  Established 1\r\n"));
}

#[test]
fn peers_are_shown_with_age_and_last_error() {
    let c = config();
    let mut states = statuses(&c, 0);
    let head = "Peer / interface  Remote-AS  State  Age(s)  MD5  Last error\r\n";
    let text = |states: &Vec<ubgp::management::PeerStatus>, now| {
        respond(&c, states, now, &Exports::new(), "show peers").text
    };
    assert_eq!(
        text(&states, 5_999),
        format!("{head}192.0.2.2 / eth0  64513  Idle  5  false  -\r\nubgp> ")
    );
    update(&mut states[0], "Active", 6_000, Some("bad\u{7} thing".into()));
    update(&mut states[0], "Connect", 7_000, None);
    assert_eq!(
        text(&states, 7_500),
        format!("{head}192.0.2.2 / eth0  64513  Connect  0  false  bad? thing\r\nubgp> ")
    );
}

#[test]
fn routes_are_listed_up_to_a_limit() {
    let e = exports(&["203.0.113.0/24", "2001:db8::/32"]);
    let head = "ACL export candidates; not confirmation of peer advertisement.\r\n";
    assert_eq!(
        ask(&e, "show routes export"),
        format!("{head}203.0.113.0/24\r\n2001:db8::/32\r\nShown 2; ACL total 2 (unordered, limit 100)\r\nubgp> ")
    );
    assert_eq!(
        ask(&e, "show routes export 2001:db8::/32"),
        format!("{head}2001:db8::/32\r\nShown 1; ACL total 2 (unordered, limit 100)\r\nubgp> ")
    );
    assert_eq!(
        ask(&e, "show routes export 203.0.113.0/25"),
        format!("{head}Shown 0; ACL total 2 (unordered, limit 100)\r\nubgp> ")
    );
    assert_eq!(ask(&e, "show routes export ten"), "Invalid prefix\r\nubgp> ");
    assert_eq!(ask(&e, "show routes missing ten"), "Invalid prefix\r\nubgp> ");
    assert_eq!(ask(&e, "show routes missing"), "Unknown ACL; use show summary\r\nubgp> ");
    assert_eq!(
        ask(&Exports::new(), "show routes export"),
        "No export candidates available\r\nubgp> "
    );
    let mut many = Prefixes::new();
    for i in 0..150u32 {
        many.insert(IpNet { addr: IpAddr::V4(Ipv4Addr { bits: i * 65536 }), prefix_len: 16 });
    }
    let e = Exports { entries: vec![Export { name: "export".into(), prefixes: many }] };
    let text = ask(&e, "show routes export");
    assert_eq!(text.matches("/16\r\n").count(), 100);
    assert!(text.contains("Shown 100; ACL total 150 (unordered, limit 100)\r\n"));
    let c = config();
    assert_eq!(show_routes(&c, &e, &"export".into(), Some(None)), "Invalid prefix\r\n");
    assert!(show_routes(&c, &e, &"export".into(), Some(Some(net("0.1.0.0/16"))))
        .contains("Shown 1; ACL total 150"));
}

#[test]
fn text_is_made_safe_for_terminals() {
    assert_eq!(safe("ok \u{1b}[31m \u{e9}\n~"), "ok ?[31m ??~");
    assert_eq!(safe(&safe("\u{0}\u{7f}")), "??");
    assert_eq!(split_words("  show\troutes  x "), vec!["show", "routes", "x"]);
}

fn feed(r: &mut LineReader, bytes: &[u8]) -> Vec<String> {
    let mut lines = Vec::new();
    for b in bytes {
        match r.feed(*b) {
            Step::More => {}
            Step::Line(s) => {
                lines.push(s);
                r.next_line();
            }
            Step::Reply(_) => panic!("reply"),
            Step::Fail(e) => panic!("{e:?}"),
        }
    }
    lines
}

#[test]
fn lines_end_in_every_usual_way() {
    let mut r = LineReader::new();
    assert_eq!(feed(&mut r, b"a\nb\r\nc\r\0d\re\n\n"), vec!["a", "b", "c", "d", "e", ""]);
    assert_eq!(feed(&mut r, b"hex\x08lp\x7f\x7flp\n"), vec!["help"]);
    assert_eq!(feed(&mut r, b"\x08\x01a\x00\xc3\tb\n"), vec!["a\tb"]);
}

#[test]
fn telnet_options_are_refused_once() {
    let mut r = LineReader::new();
    let replies = |r: &mut LineReader, bytes: &[u8]| {
        let mut all = Vec::new();
        for b in bytes {
            if let Step::Reply(reply) = r.feed(*b) {
                all.push(reply);
            }
        }
        all
    };
    assert_eq!(replies(&mut r, &[255, 251, 1]), vec![vec![255, 254, 1]]);
    assert_eq!(replies(&mut r, &[255, 253, 3]), vec![vec![255, 252, 3]]);
    assert!(replies(&mut r, &[255, 252, 1, 255, 254, 1]).is_empty());
    // A subnegotiation and other commands are skipped.
    assert!(replies(&mut r, &[255, 250, 24, 10, 255, 255, 1, 255, 240, 255, 241]).is_empty());
    assert_eq!(feed(&mut r, b"ok\n"), vec!["ok"]);
}

#[test]
fn input_is_bounded() {
    let mut r = LineReader::new();
    for _ in 0..512 {
        assert!(matches!(r.feed(b'x'), Step::More));
    }
    assert!(matches!(r.feed(b'x'), Step::Fail(InputError::TooLong)));
    let mut r = LineReader::new();
    for _ in 0..8192 {
        assert!(matches!(r.feed(0), Step::More));
    }
    assert!(matches!(r.feed(0), Step::Fail(InputError::TooMuch)));
    assert_eq!(InputError::TooLong.message(), "CLI command too long");
    assert_eq!(InputError::TooMuch.message(), "CLI input limit exceeded");
}

#[test]
fn clients_are_local_and_few() {
    assert!(accepts(true, 15));
    assert!(!accepts(true, 16) && !accepts(false, 0));
}
