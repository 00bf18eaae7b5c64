//! What the console reads and answers.
use vstd::prelude::*;

use crate::config::{Config, Peer};
use crate::management::console::{
    acl_lines, age_secs, answer, candidates, closes, established, greeting, listing, peer_line,
    peer_lines, peers_text, respond, route_lines, routes_text, safe, safe_text, scan, show_routes,
    show_routes_text, split_words, summary_text, texts, words, Reply, HELP,
};
use crate::management::input::{
    ascii, fed, is_typable, printable, refusal, InputError, LineReader, Outcome, Partial, Step,
    Telnet,
};
use crate::management::status::PeerStatus;
use crate::net::{lemma_in_order, IpNet, Prefixes};
use crate::netlink::export::Exports;
use crate::text::{addr_text, decimal, listed, net_from_text, net_text, v4_text};

verus! {

/// Printable ASCII is shown as it is, a question mark for anything else.
pub proof fn law_text_is_made_safe(s: Seq<char>, i: int)
    requires
        0 <= i < s.len(),
    ensures
        ' ' <= s[i] <= '~' ==> safe_text(s)[i] == s[i],
        !(' ' <= s[i] <= '~') ==> safe_text(s)[i] == '?',
{
}

proof fn lemma_scan_on(x: Seq<char>, b: Seq<char>)
    requires
        scan(x).last.len() == 0,
    ensures
        scan(x + b).done == scan(x).done + scan(b).done,
        scan(x + b).last == scan(b).last,
    decreases b.len(),
{
    if b.len() == 0 {
        assert(x + b =~= x);
        assert(scan(x).last =~= Seq::<char>::empty());
        assert(scan(x).done + scan(b).done =~= scan(x).done);
    } else {
        let c = b.last();
        lemma_scan_on(x, b.drop_last());
        assert((x + b).drop_last() =~= x + b.drop_last());
        assert((x + b).last() == c);
        let w = scan(b.drop_last());
        assert(scan(x).done + w.done.push(w.last) =~= (scan(x).done + w.done).push(w.last));
    }
}

/// A line is its words: blanks and tabs part it, however many there are, and what holds
/// neither is one word.
pub proof fn law_line_is_its_words(a: Seq<char>, c: char, b: Seq<char>)
    requires
        c == ' ' || c == '\t',
    ensures
        words(a + seq![c] + b) == words(a) + words(b),
        words(Seq::empty()) == Seq::<Seq<char>>::empty(),
        a.len() > 0 && (forall|i: int| 0 <= i < a.len() ==> #[trigger] a[i] != ' ' && a[i] != '\t')
            ==> words(a) == seq![a],
{
    let x = a + seq![c];
    assert(x.drop_last() =~= a);
    assert(scan(x).done == words(a));
    assert(scan(x).last.len() == 0);
    lemma_scan_on(x, b);
    let w = scan(b);
    assert(words(a) + w.done.push(w.last) =~= (words(a) + w.done).push(w.last));
    assert(words(x + b) =~= words(a) + words(b));
    if forall|i: int| 0 <= i < a.len() ==> #[trigger] a[i] != ' ' && a[i] != '\t' {
        lemma_scan_word(a);
        if a.len() > 0 {
            assert(words(a) =~= seq![a]);
        }
    }
}

proof fn lemma_scan_word(a: Seq<char>)
    requires
        forall|i: int| 0 <= i < a.len() ==> #[trigger] a[i] != ' ' && a[i] != '\t',
    ensures
        scan(a).last == a,
        scan(a).done == Seq::<Seq<char>>::empty(),
    decreases a.len(),
{
    if a.len() > 0 {
        let rest = a.drop_last();
        assert forall|i: int| 0 <= i < rest.len() implies #[trigger] rest[i] != ' ' && rest[i]
            != '\t' by {
            assert(rest[i] == a[i]);
        }
        lemma_scan_word(rest);
        assert(a[a.len() - 1] == a.last());
        assert(rest.push(a.last()) =~= a);
    } else {
        assert(scan(a).last =~= a);
    }
}

/// What each command is answered.
pub proof fn law_commands_are_answered(
    c: Config,
    statuses: Seq<PeerStatus>,
    now: u64,
    exports: Map<Seq<char>, Set<IpNet>>,
    acl: Seq<char>,
    prefix: Seq<char>,
)
    ensures
        answer(c, statuses, now, exports, Seq::empty()) == Seq::<char>::empty(),
        answer(c, statuses, now, exports, seq!["help"@]) == HELP@,
        answer(c, statuses, now, exports, seq!["?"@]) == HELP@,
        answer(c, statuses, now, exports, seq!["show"@, "summary"@]) == summary_text(
            c,
            statuses,
            exports,
        ),
        answer(c, statuses, now, exports, seq!["show"@, "peers"@]) == peers_text(c, statuses, now),
        answer(c, statuses, now, exports, seq!["show"@, "routes"@, acl]) == show_routes_text(
            c,
            exports,
            acl,
            None,
        ),
        answer(c, statuses, now, exports, seq!["show"@, "routes"@, acl, prefix])
            == show_routes_text(c, exports, acl, Some(net_from_text(prefix))),
        closes(seq!["quit"@]) && closes(seq!["exit"@]),
        !closes(Seq::empty()) && !closes(seq!["show"@, "peers"@]),
{
    reveal_strlit("summary");
    reveal_strlit("peers");
    assert("summary"@.len() != "peers"@.len());
}

/// What is shown of routes: an ACL that does not exist is unknown, a prefix that cannot
/// be read is invalid, and an ACL without exports has no candidates. Of exports one
/// prefix is shown where it is asked for and there, else all of them in order, up to a
/// hundred.
pub proof fn law_routes_are_shown(
    c: Config,
    exports: Map<Seq<char>, Set<IpNet>>,
    acl: Seq<char>,
    asked: Option<Option<IpNet>>,
    set: Prefixes,
    p: IpNet,
)
    requires
        set.wf(),
    ensures
        asked == Some(None::<IpNet>) ==> show_routes_text(c, exports, acl, asked)
            == "Invalid prefix\r\n"@,
        asked != Some(None::<IpNet>) && (forall|j: int|
            0 <= j < c.acls@.len() ==> (#[trigger] c.acls@[j]).name@ != acl) ==> show_routes_text(
            c,
            exports,
            acl,
            asked,
        ) == "Unknown ACL; use show summary\r\n"@,
        asked != Some(None::<IpNet>) && (exists|j: int|
            0 <= j < c.acls@.len() && (#[trigger] c.acls@[j]).name@ == acl)
            && !exports.dom().contains(acl) ==> show_routes_text(c, exports, acl, asked)
            == "No export candidates available\r\n"@,
        listing(set@, Some(p)) == if set@.contains(p) {
            seq![p]
        } else {
            Seq::empty()
        },
        listing(set@, None).len() == if set.items@.len() <= 100 {
            set.items@.len() as int
        } else {
            100
        },
        forall|i: int|
            0 <= i < listing(set@, None).len() ==> #[trigger] listing(set@, None)[i]
                == set.items@[i],
{
    lemma_in_order(set);
}

/// Every peer that is up is counted once, and no other.
pub proof fn law_established_peers_are_counted(a: Seq<PeerStatus>, s: PeerStatus)
    ensures
        established(Seq::empty()) == 0,
        established(a.push(s)) == established(a) + if s.state@ == "Established"@ {
            1int
        } else {
            0
        },
{
    assert(a.push(s).drop_last() =~= a);
}

/// What is told of a peer: address and interface, ASN, state and how many whole seconds
/// it has lasted, whether there is a key, and the last error or a dash.
pub proof fn law_peer_line_tells(p: Peer, s: PeerStatus, now: u64)
    requires
        s.since <= now,
    ensures
        age_secs(s.since, now) * 1000 <= now - s.since < age_secs(s.since, now) * 1000 + 1000,
        peer_line(p, s, now) == addr_text(p.address) + " / "@ + safe_text(p.interface@) + "  "@
            + decimal(p.remote_asn as nat) + "  "@ + s.state@ + "  "@ + decimal(
            age_secs(s.since, now) as nat,
        ) + "  "@ + (if p.md5_password is Some {
            "true"@
        } else {
            "false"@
        }) + "  "@ + safe_text(
            match s.last_error {
                Some(e) => e@,
                None => "-"@,
            },
        ) + "\r\n"@,
{
}

/// How many prefixes an ACL has for export.
pub proof fn law_candidates_are_counted(exports: Map<Seq<char>, Set<IpNet>>, name: Seq<char>)
    ensures
        exports.dom().contains(name) ==> candidates(exports, name) == exports[name].len(),
        !exports.dom().contains(name) ==> candidates(exports, name) == 0,
{
}

/// Offers to switch an option on are declined, requests to do so are refused, and
/// nothing else is answered.
pub proof fn law_options_are_refused(command: u8, option: u8)
    ensures
        refusal(251, option) == Some(seq![255u8, 254, option]),
        refusal(253, option) == Some(seq![255u8, 252, option]),
        command != 251 && command != 253 ==> refusal(command, option) is None,
{
}

/// What is left after octets came in one after the other, none of which completed
/// anything.
pub open spec fn after_octets(s: Partial, b: Seq<u8>) -> Partial
    decreases b.len(),
{
    if b.len() == 0 {
        s
    } else {
        fed(after_octets(s, b.drop_last()), b.last()).0
    }
}

/// Text that is typed is collected as it is, and a line end gives it: a line feed, or a
/// carriage return, after which a line feed or a NUL does not count.
pub proof fn law_typed_line_is_given(s: Partial, b: Seq<u8>)
    requires
        s.telnet is Data,
        !s.skip_lf,
        s.bytes.len() + b.len() <= 512,
        s.wire + b.len() < 8192,
        forall|i: int| 0 <= i < b.len() ==> 32 <= #[trigger] b[i] <= 126 || b[i] == 9,
    ensures
        ({
            let x = after_octets(s, b);
            &&& x.bytes == s.bytes + b
            &&& x.telnet is Data && !x.skip_lf
            &&& x.wire == s.wire + b.len()
            &&& fed(x, 10).1 == Outcome::Line(ascii(s.bytes + b))
            &&& fed(x, 13).1 == Outcome::Line(ascii(s.bytes + b))
            &&& !fed(x, 10).0.skip_lf && fed(x, 13).0.skip_lf
        }),
    decreases b.len(),
{
    if b.len() == 0 {
        assert(s.bytes + b =~= s.bytes);
    } else {
        let rest = b.drop_last();
        assert forall|i: int| 0 <= i < rest.len() implies 32 <= #[trigger] rest[i] <= 126 || rest[i]
            == 9 by {
            assert(rest[i] == b[i]);
        }
        law_typed_line_is_given(s, rest);
        assert(b[b.len() - 1] == b.last());
        assert((s.bytes + rest).push(b.last()) =~= s.bytes + b);
    }
}

/// After a carriage return one line feed or NUL is passed over; other octets count. A
/// backspace or a delete takes the last octet back, and other control octets are passed
/// over.
pub proof fn law_control_octets(s: Partial, b: u8)
    requires
        s.telnet is Data,
        s.wire < 8192,
    ensures
        s.skip_lf && (b == 10 || b == 0) ==> fed(s, b).1 == Outcome::More && fed(s, b).0.bytes
            == s.bytes && !fed(s, b).0.skip_lf && fed(s, b).0.wire == s.wire,
        !s.skip_lf && (b == 8 || b == 127) ==> fed(s, b).1 == Outcome::More && fed(s, b).0.bytes
            == if s.bytes.len() > 0 {
            s.bytes.drop_last()
        } else {
            s.bytes
        },
        !s.skip_lf && b < 32 && b != 8 && b != 9 && b != 10 && b != 13 ==> fed(s, b).1
            == Outcome::More && fed(s, b).0.bytes == s.bytes,
        !s.skip_lf && 128 <= b < 255 ==> fed(s, b).1 == Outcome::More && fed(s, b).0.bytes
            == s.bytes,
        !s.skip_lf && b == 255 ==> fed(s, b).1 == Outcome::More && fed(s, b).0.telnet is Command,
{
}

/// Telnet commands leave the line as it is: an option that is negotiated is answered by
/// a refusal or not at all, a subnegotiation is passed over until its end, and any other
/// command is one octet.
pub proof fn law_telnet_leaves_the_line(s: Partial, b: u8, command: u8)
    requires
        !s.skip_lf,
        s.wire < 8192,
    ensures
        !(s.telnet is Data) ==> fed(s, b).0.bytes == s.bytes,
        s.telnet is Command && 251 <= b <= 254 ==> fed(s, b).0.telnet == Telnet::Negotiation(b),
        s.telnet is Command && b == 250 ==> fed(s, b).0.telnet is Sub,
        s.telnet is Command && (b < 250 || b == 255) ==> fed(s, b).0.telnet is Data,
        s.telnet is Command ==> fed(s, b).1 == Outcome::More,
        s.telnet == Telnet::Negotiation(command) ==> fed(s, b).0.telnet is Data && fed(s, b).1
            == match refusal(command, b) {
            Some(r) => Outcome::Reply(r),
            None => Outcome::More,
        },
        s.telnet is Sub ==> fed(s, b).1 == Outcome::More && (b == 255 ==> fed(
            s,
            b,
        ).0.telnet is SubEnd) && (b != 255 ==> fed(s, b).0.telnet is Sub),
        s.telnet is SubEnd ==> fed(s, b).1 == Outcome::More && (b == 240 ==> fed(
            s,
            b,
        ).0.telnet is Data) && (b != 240 ==> fed(s, b).0.telnet is Sub),
{
}

/// A line longer than 512 octets, and more than 8192 octets for one line, are too much.
pub proof fn law_input_is_bounded(s: Partial, b: u8)
    requires
        !s.skip_lf,
    ensures
        s.wire >= 8192 ==> fed(s, b).1 == Outcome::Fail(InputError::TooMuch),
        s.wire < 8192 && s.telnet is Data && s.bytes.len() >= 512 && (32 <= b <= 126 || b == 9)
            ==> fed(s, b).1 == Outcome::Fail(InputError::TooLong),
        s.wire < 8192 ==> fed(s, b).0.wire == s.wire + 1,
{
}

/// The characters of a line are its octets.
pub proof fn law_line_is_its_octets(b: Seq<u8>, i: int)
    requires
        0 <= i < b.len(),
        printable(b[i]),
    ensures
        ascii(b).len() == b.len(),
        ascii(b)[i] as nat == b[i] as nat,
        is_typable(ascii(b)[i]),
{
}

/// Listings are put together line by line: one for each route, and one for each peer and
/// each ACL, in the order of the configuration.
pub proof fn law_lines_are_put_together(
    v: Seq<IpNet>,
    p: IpNet,
    c: Config,
    statuses: Seq<PeerStatus>,
    now: u64,
    exports: Map<Seq<char>, Set<IpNet>>,
    k: nat,
)
    ensures
        route_lines(v.push(p)) == route_lines(v) + net_text(p) + "\r\n"@,
        route_lines(Seq::empty()) == Seq::<char>::empty(),
        peer_lines(c, statuses, now, 0) == Seq::<char>::empty(),
        peer_lines(c, statuses, now, k + 1) == peer_lines(c, statuses, now, k) + peer_line(
            c.peers@[k as int],
            statuses[k as int],
            now,
        ),
        acl_lines(c, exports, 0) == Seq::<char>::empty(),
        acl_lines(c, exports, k + 1) == acl_lines(c, exports, k) + "  "@ + safe_text(
            c.acls@[k as int].name@,
        ) + ": "@ + decimal(candidates(exports, c.acls@[k as int].name@)) + " export candidates\r\n"@,
        statuses.len() == c.peers@.len() ==> peers_text(c, statuses, now)
            == "Peer / interface  Remote-AS  State  Age(s)  MD5  Last error\r\n"@ + peer_lines(
            c,
            statuses,
            now,
            c.peers@.len(),
        ),
        summary_text(c, statuses, exports) == "Router ID "@ + v4_text(c.router_id) + "  AS "@
            + decimal(c.asn as nat) + "  IPv6 "@ + (if c.ipv6 {
            "true"@
        } else {
            "false"@
        }) + "\r\nPeers "@ + decimal(c.peers@.len()) + "  Established "@ + decimal(
            established(statuses),
        ) + "\r\nSelected tables "@ + "["@ + listed(c.kernel.tables@) + "]"@ + "\r\nACLs: "@
            + decimal(c.acls@.len()) + "\r\n"@ + acl_lines(c, exports, c.acls@.len()),
{
    assert(v.push(p).drop_last() =~= v);
}

/// The routes of an ACL are told with how many are shown and how many there are.
pub proof fn law_routes_are_told_with_their_number(
    exports: Map<Seq<char>, Set<IpNet>>,
    acl: Seq<char>,
    only: Option<IpNet>,
)
    requires
        exports.dom().contains(acl),
    ensures
        ({
            let shown = listing(exports[acl], only);
            routes_text(exports, acl, only)
                == "ACL export candidates; not confirmation of peer advertisement.\r\n"@
                + route_lines(shown) + "Shown "@ + decimal(shown.len()) + "; ACL total "@ + decimal(
                exports[acl].len(),
            ) + " (unordered, limit 100)\r\n"@
        }),
{
}

/// Only a line feed or a NUL that follows a carriage return at once is passed over. Any
/// other octet counts as it would without one.
pub proof fn law_only_the_next_octet_is_passed_over(s: Partial, b: u8)
    requires
        s.skip_lf,
        b != 10 && b != 0,
    ensures
        fed(s, b) == fed(Partial { skip_lf: false, ..s }, b),
{
}

/// A command is one of those that `help` lists, in just those words. Anything else is
/// unknown, and nothing but one word of farewell closes the console.
pub proof fn law_other_commands_are_unknown(
    c: Config,
    statuses: Seq<PeerStatus>,
    now: u64,
    exports: Map<Seq<char>, Set<IpNet>>,
    w: Seq<Seq<char>>,
)
    ensures
        closes(w) <==> w == seq!["quit"@] || w == seq!["exit"@],
        w.len() > 4 ==> answer(c, statuses, now, exports, w) == "Unknown command; type help\r\n"@,
        w.len() == 1 && w[0] != "help"@ && w[0] != "?"@ ==> answer(c, statuses, now, exports, w)
            == "Unknown command; type help\r\n"@,
        w.len() >= 2 && w[0] != "show"@ ==> answer(c, statuses, now, exports, w)
            == "Unknown command; type help\r\n"@,
        w.len() == 2 && w[1] != "summary"@ && w[1] != "peers"@ ==> answer(
            c,
            statuses,
            now,
            exports,
            w,
        ) == "Unknown command; type help\r\n"@,
        w.len() >= 3 && w[1] != "routes"@ ==> answer(c, statuses, now, exports, w)
            == "Unknown command; type help\r\n"@,
{
    if w.len() == 1 {
        assert(w =~= seq![w[0]]);
    }
}

/// A line is answered by its words, and followed by a new prompt unless it closes the
/// console.
pub proof fn law_line_is_answered(
    cfg: &Config,
    statuses: &Vec<PeerStatus>,
    now: u64,
    exports: &Exports,
    line: &str,
    r: Reply,
    hello: &'static str,
)
    requires
        call_ensures(respond, (cfg, statuses, now, exports, line), r),
        call_ensures(greeting, (), hello),
    ensures
        hello@ == "ubgp read-only management CLI\r\nType help for commands.\r\nubgp> "@,
        r.close <==> words(line@) == seq!["quit"@] || words(line@) == seq!["exit"@],
        r.close ==> r.text@ == "Bye\r\n"@,
        !r.close ==> r.text@ == answer(*cfg, statuses@, now, exports@, words(line@)) + "ubgp> "@,
{
    law_other_commands_are_unknown(*cfg, statuses@, now, exports@, words(line@));
}

/// A text is made safe character by character, a line is divided into its words, and
/// routes are shown as they are asked for.
pub proof fn law_texts_are_prepared(
    text: &str,
    shown: String,
    parts: Vec<String>,
    i: int,
    cfg: &Config,
    exports: &Exports,
    acl: &String,
    asked: Option<Option<IpNet>>,
    routes: String,
)
    requires
        call_ensures(safe, (text,), shown),
        call_ensures(split_words, (text,), parts),
        call_ensures(show_routes, (cfg, exports, acl, asked), routes),
    ensures
        shown@.len() == text@.len(),
        0 <= i < text@.len() ==> shown@[i] == if ' ' <= text@[i] <= '~' {
            text@[i]
        } else {
            '?'
        },
        parts@.len() == words(text@).len(),
        0 <= i < parts@.len() ==> parts@[i]@ == words(text@)[i],
        asked == Some(None::<IpNet>) ==> routes@ == "Invalid prefix\r\n"@,
        asked is None && exports@.dom().contains(acl@) && (exists|j: int|
            0 <= j < cfg.acls@.len() && (#[trigger] cfg.acls@[j]).name@ == acl@) ==> routes@
            == routes_text(exports@, acl@, None),
        asked is Some && asked->0 is Some && exports@.dom().contains(acl@) && (exists|j: int|
            0 <= j < cfg.acls@.len() && (#[trigger] cfg.acls@[j]).name@ == acl@) ==> routes@
            == routes_text(exports@, acl@, asked->0),
{
    if 0 <= i < parts@.len() {
        assert(texts(parts@)[i] == parts@[i]@);
    }
}

/// A reader starts anew with every line, but remembers that a carriage return ended the
/// last one. What it makes of an octet it makes of what it had.
pub proof fn law_reader_takes_octets(
    fresh: LineReader,
    next: &mut LineReader,
    reader: &mut LineReader,
    b: u8,
    r: Step,
)
    requires
        call_ensures(LineReader::new, (), fresh),
        call_ensures(LineReader::next_line, (next,), ()),
        call_ensures(LineReader::feed, (reader, b), r),
    ensures
        fresh.bytes@.len() == 0 && fresh.telnet is Data && fresh.wire == 0 && !fresh.skip_lf,
        final(next).bytes@.len() == 0 && final(next).telnet is Data && final(next).wire == 0,
        final(next).skip_lf == old(next).skip_lf,
        (final(reader)@, r@) == fed(old(reader)@, b),
        old(reader)@.bytes == old(reader).bytes@ && old(reader)@.wire == old(reader).wire,
        old(reader)@.telnet == old(reader).telnet && old(reader)@.skip_lf == old(reader).skip_lf,
{
    assert(fresh@.bytes == fresh.bytes@);
    assert(final(next)@.bytes == final(next).bytes@);
}

} // verus!
