//! What the console answers.
use vstd::prelude::*;

use crate::config::has_acl;
use crate::config::{Config, Peer};
use crate::management::input::is_typable;
use crate::management::status::PeerStatus;
use crate::net::in_order;
use crate::net::lemma_in_order;
use crate::net::{IpNet, Prefixes};
use crate::netlink::export::Exports;
use crate::text::addr_text;
use crate::text::bool_text;
use crate::text::decimal;
use crate::text::listed;
use crate::text::net_from_text;
use crate::text::net_text;
use crate::text::v4_text;
use crate::text::{
    append_addr, append_bool, append_decimal, append_list, append_net, append_v4, parse_net,
};

verus! {

/// The commands, as `help` lists them.
pub const HELP: &'static str = "help                       Show commands\r\nshow summary               Router and session summary\r\nshow peers                 Peer state, state age and last error\r\nshow routes ACL [PREFIX]    ACL export candidates (maximum 100; not advertised RIB)\r\nquit / exit                Close console\r\n";

/// How many routes are listed at most.
pub const MAX_ROUTES: usize = 100;

/// What a new client is shown.
pub fn greeting() -> (r: &'static str)
    ensures
        r@ == "ubgp read-only management CLI\r\nType help for commands.\r\nubgp> "@,
{
    "ubgp read-only management CLI\r\nType help for commands.\r\nubgp> "
}

/// A character that a terminal shows as it is.
pub open spec fn is_safe(c: char) -> bool {
    ' ' <= c <= '~'
}

/// A text with everything else replaced.
pub open spec fn safe_text(s: Seq<char>) -> Seq<char> {
    Seq::new(
        s.len(),
        |i: int|
            if is_safe(s[i]) {
                s[i]
            } else {
                '?'
            },
    )
}

fn append_safe(s: &mut String, text: &str)
    ensures
        final(s)@ == old(s)@ + safe_text(text@),
{
    let ghost start = s@;
    assert(start + safe_text(text@.take(0)) =~= start);
    for c in it: text.chars()
        invariant
            it.seq() == text@,
            s@ == start + safe_text(text@.take(it.index() as int)),
    {
        if ' ' <= c && c <= '~' {
            s.push(c);
        } else {
            s.push('?');
        }
        proof {
            let next = text@.take(it.index() + 1);
            assert(s@ =~= start + safe_text(next));
        }
    }
    assert(text@.take(text@.len() as int) =~= text@);
}

/// Replace non-ASCII and control characters with `?` for terminal-safe output.
/// For text that comes from peers or errors.
pub fn safe(text: &str) -> (r: String)
    ensures
        r@ == safe_text(text@),
{
    let mut s: String = "".to_string();
    proof {
        reveal_strlit("");
    }
    append_safe(&mut s, text);
    assert(s@ =~= safe_text(text@));
    s
}

/// Safe text is safe, and making it safe again changes nothing.
pub proof fn law_safe_text_is_safe(s: Seq<char>)
    ensures
        safe_text(s).len() == s.len(),
        forall|i: int| 0 <= i < s.len() ==> is_safe(#[trigger] safe_text(s)[i]),
        safe_text(safe_text(s)) == safe_text(s),
{
    assert(safe_text(safe_text(s)) =~= safe_text(s));
}

/// The words of a line and the word that its end is in.
#[verifier::ext_equal]
pub struct Words {
    pub done: Seq<Seq<char>>,
    pub last: Seq<char>,
}

/// A blank between words.
pub open spec fn is_blank(c: char) -> bool {
    c == ' ' || c == '\t'
}

/// The words of a line, read from the start.
pub open spec fn scan(s: Seq<char>) -> Words
    decreases s.len(),
{
    if s.len() == 0 {
        Words { done: Seq::empty(), last: Seq::empty() }
    } else {
        let w = scan(s.drop_last());
        if !is_blank(s.last()) {
            Words { last: w.last.push(s.last()), ..w }
        } else if w.last.len() > 0 {
            Words { done: w.done.push(w.last), last: Seq::empty() }
        } else {
            w
        }
    }
}

/// The words of a line.
pub open spec fn words(s: Seq<char>) -> Seq<Seq<char>> {
    let w = scan(s);
    if w.last.len() > 0 {
        w.done.push(w.last)
    } else {
        w.done
    }
}

/// What a list of texts holds.
pub open spec fn texts(v: Seq<String>) -> Seq<Seq<char>> {
    Seq::new(v.len(), |i: int| v[i]@)
}

/// Divide a line at its blanks.
pub fn split_words(line: &str) -> (r: Vec<String>)
    ensures
        texts(r@) == words(line@),
{
    let mut done: Vec<String> = Vec::new();
    let mut last: String = "".to_string();
    proof {
        reveal_strlit("");
        assert(line@.take(0) =~= Seq::<char>::empty());
        assert(texts(done@) =~= scan(line@.take(0)).done);
        assert(last@ =~= scan(line@.take(0)).last);
    }
    let mut some: bool = false;
    for c in it: line.chars()
        invariant
            it.seq() == line@,
            texts(done@) == scan(line@.take(it.index() as int)).done,
            last@ == scan(line@.take(it.index() as int)).last,
            some == (last@.len() > 0),
    {
        proof {
            let next = line@.take(it.index() + 1);
            assert(next.drop_last() =~= line@.take(it.index() as int));
            assert(next.last() == c);
        }
        if c != ' ' && c != '\t' {
            last.push(c);
            some = true;
        } else if some {
            let ghost before = texts(done@);
            let ghost word = last@;
            done.push(last);
            last = "".to_string();
            some = false;
            proof {
                reveal_strlit("");
                assert(texts(done@) =~= before.push(word));
                assert(last@ =~= Seq::<char>::empty());
            }
        }
    }
    assert(line@.take(line@.len() as int) =~= line@);
    if some {
        let ghost before = texts(done@);
        let ghost word = last@;
        done.push(last);
        assert(texts(done@) =~= before.push(word));
    }
    done
}

fn is_word(s: &String, word: &'static str) -> (r: bool)
    ensures
        r == (s@ == word@),
{
    let w: String = word.to_string();
    *s == w
}

/// How many of the peers are established.
pub open spec fn established(v: Seq<PeerStatus>) -> nat
    decreases v.len(),
{
    if v.len() == 0 {
        0
    } else {
        established(v.drop_last()) + if v.last().state@ == "Established"@ {
            1nat
        } else {
            0nat
        }
    }
}

fn count_established(v: &Vec<PeerStatus>) -> (r: usize)
    ensures
        r == established(v@),
{
    let wanted: String = "Established".to_string();
    let mut n: usize = 0;
    let mut i: usize = 0;
    while i < v.len()
        invariant
            i <= v@.len(),
            n == established(v@.take(i as int)),
            n <= i,
            wanted@ == "Established"@,
        decreases v@.len() - i,
    {
        assert(v@.take(i + 1).drop_last() =~= v@.take(i as int));
        let state: String = v[i].state.to_string();
        if state == wanted {
            n += 1;
        }
        i += 1;
    }
    assert(v@.take(i as int) =~= v@);
    n
}

/// How many prefixes an ACL exports.
pub open spec fn candidates(exports: Map<Seq<char>, Set<IpNet>>, name: Seq<char>) -> nat {
    if exports.dom().contains(name) {
        exports[name].len()
    } else {
        0
    }
}

/// A line for each of the first `k` ACLs.
pub open spec fn acl_lines(c: Config, exports: Map<Seq<char>, Set<IpNet>>, k: nat) -> Seq<char>
    decreases k,
{
    if k == 0 {
        Seq::empty()
    } else {
        let name = c.acls@[k - 1].name@;
        acl_lines(c, exports, (k - 1) as nat) + "  "@ + safe_text(name) + ": "@ + decimal(
            candidates(exports, name),
        ) + " export candidates\r\n"@
    }
}

/// The first lines of what `show summary` answers.
pub open spec fn summary_head(c: Config, established: nat) -> Seq<char> {
    "Router ID "@ + v4_text(c.router_id) + "  AS "@ + decimal(c.asn as nat) + "  IPv6 "@
        + bool_text(c.ipv6) + "\r\nPeers "@ + decimal(c.peers@.len()) + "  Established "@ + decimal(
        established,
    ) + "\r\nSelected tables "@ + "["@ + listed(c.kernel.tables@) + "]"@ + "\r\nACLs: "@ + decimal(
        c.acls@.len(),
    ) + "\r\n"@
}

/// What `show summary` answers.
pub open spec fn summary_text(
    c: Config,
    statuses: Seq<PeerStatus>,
    exports: Map<Seq<char>, Set<IpNet>>,
) -> Seq<char> {
    summary_head(c, established(statuses)) + acl_lines(c, exports, c.acls@.len())
}

fn write_head(cfg: &Config, established: usize) -> (s: String)
    ensures
        s@ == summary_head(*cfg, established as nat),
{
    let mut s: String = "Router ID ".to_string();
    append_v4(&mut s, cfg.router_id);
    s.append("  AS ");
    append_decimal(&mut s, cfg.asn as u64);
    s.append("  IPv6 ");
    append_bool(&mut s, cfg.ipv6);
    s.append("\r\nPeers ");
    append_decimal(&mut s, cfg.peers.len() as u64);
    s.append("  Established ");
    append_decimal(&mut s, established as u64);
    s.append("\r\nSelected tables ");
    append_list(&mut s, &cfg.kernel.tables);
    s.append("\r\nACLs: ");
    append_decimal(&mut s, cfg.acls.len() as u64);
    s.append("\r\n");
    s
}

fn append_summary(s: &mut String, cfg: &Config, statuses: &Vec<PeerStatus>, exports: &Exports)
    requires
        exports.wf(),
    ensures
        final(s)@ == old(s)@ + summary_text(*cfg, statuses@, exports@),
{
    let ghost start = s@;
    let head = write_head(cfg, count_established(statuses));
    s.append(head.as_str());
    let ghost first = s@;
    let mut i: usize = 0;
    assert(first + acl_lines(*cfg, exports@, 0) =~= first);
    while i < cfg.acls.len()
        invariant
            i <= cfg.acls@.len(),
            exports.wf(),
            s@ == first + acl_lines(*cfg, exports@, i as nat),
        decreases cfg.acls@.len() - i,
    {
        let count: usize = match exports.get(&cfg.acls[i].name) {
            Some(p) => p.len(),
            None => 0,
        };
        s.append("  ");
        append_safe(s, cfg.acls[i].name.as_str());
        s.append(": ");
        append_decimal(s, count as u64);
        s.append(" export candidates\r\n");
        i += 1;
        assert(s@ =~= first + acl_lines(*cfg, exports@, i as nat));
    }
    assert(s@ =~= start + summary_text(*cfg, statuses@, exports@));
}

/// The line of one peer.
pub open spec fn peer_line(p: Peer, s: PeerStatus, now: u64) -> Seq<char> {
    addr_text(p.address) + " / "@ + safe_text(p.interface@) + "  "@ + decimal(p.remote_asn as nat)
        + "  "@ + s.state@ + "  "@ + decimal(age_secs(s.since, now) as nat) + "  "@ + bool_text(
        p.md5_password is Some,
    ) + "  "@ + safe_text(
        match s.last_error {
            Some(e) => e@,
            None => "-"@,
        },
    ) + "\r\n"@
}

/// How many whole seconds have passed.
pub open spec fn spec_age_secs(since: u64, now: u64) -> u64 {
    if now >= since {
        ((now - since) / 1000) as u64
    } else {
        0
    }
}

#[verifier::when_used_as_spec(spec_age_secs)]
pub fn age_secs(since: u64, now: u64) -> (r: u64)
    ensures
        r == age_secs(since, now),
{
    if now >= since {
        (now - since) / 1000
    } else {
        0
    }
}

/// The lines of the first `k` peers.
pub open spec fn peer_lines(c: Config, statuses: Seq<PeerStatus>, now: u64, k: nat) -> Seq<char>
    decreases k,
{
    if k == 0 {
        Seq::empty()
    } else {
        peer_lines(c, statuses, now, (k - 1) as nat) + peer_line(
            c.peers@[k - 1],
            statuses[k - 1],
            now,
        )
    }
}

/// What `show peers` answers.
pub open spec fn peers_text(c: Config, statuses: Seq<PeerStatus>, now: u64) -> Seq<char> {
    "Peer / interface  Remote-AS  State  Age(s)  MD5  Last error\r\n"@ + peer_lines(
        c,
        statuses,
        now,
        if c.peers@.len() <= statuses.len() {
            c.peers@.len()
        } else {
            statuses.len()
        },
    )
}

fn append_peer(s: &mut String, p: &Peer, status: &PeerStatus, now: u64)
    ensures
        final(s)@ == old(s)@ + peer_line(*p, *status, now),
{
    let ghost start = s@;
    append_addr(s, p.address);
    s.append(" / ");
    append_safe(s, p.interface.as_str());
    s.append("  ");
    append_decimal(s, p.remote_asn as u64);
    s.append("  ");
    s.append(status.state);
    s.append("  ");
    append_decimal(s, age_secs(status.since, now));
    s.append("  ");
    append_bool(s, p.md5_password.is_some());
    s.append("  ");
    match &status.last_error {
        Some(e) => append_safe(s, e.as_str()),
        None => append_safe(s, "-"),
    }
    s.append("\r\n");
    assert(s@ =~= start + peer_line(*p, *status, now));
}

fn append_peers(s: &mut String, cfg: &Config, statuses: &Vec<PeerStatus>, now: u64)
    ensures
        final(s)@ == old(s)@ + peers_text(*cfg, statuses@, now),
{
    let ghost start = s@;
    s.append("Peer / interface  Remote-AS  State  Age(s)  MD5  Last error\r\n");
    let ghost head = s@;
    let mut i: usize = 0;
    assert(head + peer_lines(*cfg, statuses@, now, 0) =~= head);
    while i < cfg.peers.len() && i < statuses.len()
        invariant
            i <= cfg.peers@.len(),
            i <= statuses@.len(),
            s@ == head + peer_lines(*cfg, statuses@, now, i as nat),
        decreases cfg.peers@.len() - i,
    {
        append_peer(s, &cfg.peers[i], &statuses[i], now);
        i += 1;
        assert(s@ =~= head + peer_lines(*cfg, statuses@, now, i as nat));
    }
    assert(s@ =~= start + peers_text(*cfg, statuses@, now));
}

/// A line for each prefix.
pub open spec fn route_lines(v: Seq<IpNet>) -> Seq<char>
    decreases v.len(),
{
    if v.len() == 0 {
        Seq::empty()
    } else {
        route_lines(v.drop_last()) + net_text(v.last()) + "\r\n"@
    }
}

/// The prefixes that are listed: the one asked for, or the first ones.
pub open spec fn listing(set: Set<IpNet>, only: Option<IpNet>) -> Seq<IpNet> {
    match only {
        Some(p) => if set.contains(p) {
            seq![p]
        } else {
            Seq::empty()
        },
        None => {
            let all = in_order(set);
            if all.len() <= MAX_ROUTES {
                all
            } else {
                all.take(MAX_ROUTES as int)
            }
        },
    }
}

/// What `show routes` answers for an ACL that exists.
pub open spec fn routes_text(
    exports: Map<Seq<char>, Set<IpNet>>,
    acl: Seq<char>,
    only: Option<IpNet>,
) -> Seq<char> {
    if exports.dom().contains(acl) {
        "ACL export candidates; not confirmation of peer advertisement.\r\n"@ + route_lines(
            listing(exports[acl], only),
        ) + "Shown "@ + decimal(listing(exports[acl], only).len()) + "; ACL total "@ + decimal(
            exports[acl].len(),
        ) + " (unordered, limit 100)\r\n"@
    } else {
        "No export candidates available\r\n"@
    }
}

fn list_routes(set: &Prefixes, only: Option<IpNet>) -> (r: Vec<IpNet>)
    requires
        set.wf(),
    ensures
        r@ == listing(set@, only),
{
    let mut v: Vec<IpNet> = Vec::new();
    match only {
        Some(p) => {
            if set.contains(&p) {
                v.push(p);
            }
            assert(v@ =~= listing(set@, only));
        },
        None => {
            proof {
                lemma_in_order(*set);
            }
            let mut i: usize = 0;
            while i < set.items.len() && i < MAX_ROUTES
                invariant
                    i <= set.items@.len(),
                    i <= MAX_ROUTES,
                    v@ =~= set.items@.take(i as int),
                decreases set.items@.len() - i,
            {
                v.push(set.items[i]);
                i += 1;
            }
            assert(v@ =~= listing(set@, only));
        },
    }
    v
}

fn append_routes(s: &mut String, exports: &Exports, acl: &String, only: Option<IpNet>)
    requires
        exports.wf(),
    ensures
        final(s)@ == old(s)@ + routes_text(exports@, acl@, only),
{
    let ghost start = s@;
    match exports.get(acl) {
        Some(set) => {
            s.append("ACL export candidates; not confirmation of peer advertisement.\r\n");
            let v = list_routes(set, only);
            let ghost head = s@;
            let mut i: usize = 0;
            assert(v@.take(0) =~= Seq::<IpNet>::empty());
            assert(head + route_lines(v@.take(0)) =~= head);
            while i < v.len()
                invariant
                    i <= v@.len(),
                    s@ == head + route_lines(v@.take(i as int)),
                decreases v@.len() - i,
            {
                append_net(s, &v[i]);
                s.append("\r\n");
                i += 1;
                proof {
                    let now = v@.take(i as int);
                    assert(now.drop_last() =~= v@.take(i - 1));
                    assert(s@ =~= head + route_lines(now));
                }
            }
            assert(v@.take(i as int) =~= v@);
            s.append("Shown ");
            append_decimal(s, v.len() as u64);
            s.append("; ACL total ");
            append_decimal(s, set.len() as u64);
            s.append(" (unordered, limit 100)\r\n");
        },
        None => {
            s.append("No export candidates available\r\n");
        },
    }
    assert(s@ =~= start + routes_text(exports@, acl@, only));
}

/// What the console answers, and whether it closes then.
#[derive(Debug)]
pub struct Reply {
    pub text: String,
    pub close: bool,
}

/// What `show routes` answers, where `asked` is the prefix asked for, if one was
/// and it is a prefix. One that is none counts first.
pub open spec fn show_routes_text(
    c: Config,
    exports: Map<Seq<char>, Set<IpNet>>,
    acl: Seq<char>,
    asked: Option<Option<IpNet>>,
) -> Seq<char> {
    if asked matches Some(None) {
        "Invalid prefix\r\n"@
    } else if !has_acl(c.acls@, acl) {
        "Unknown ACL; use show summary\r\n"@
    } else {
        routes_text(
            exports,
            acl,
            match asked {
                Some(p) => p,
                None => None,
            },
        )
    }
}

/// What a command made of these words answers.
pub open spec fn answer(
    c: Config,
    statuses: Seq<PeerStatus>,
    now: u64,
    exports: Map<Seq<char>, Set<IpNet>>,
    w: Seq<Seq<char>>,
) -> Seq<char> {
    if w.len() == 0 {
        Seq::empty()
    } else if w.len() == 1 && (w[0] == "help"@ || w[0] == "?"@) {
        HELP@
    } else if w.len() == 2 && w[0] == "show"@ && w[1] == "summary"@ {
        summary_text(c, statuses, exports)
    } else if w.len() == 2 && w[0] == "show"@ && w[1] == "peers"@ {
        peers_text(c, statuses, now)
    } else if w.len() == 3 && w[0] == "show"@ && w[1] == "routes"@ {
        show_routes_text(c, exports, w[2], None)
    } else if w.len() == 4 && w[0] == "show"@ && w[1] == "routes"@ {
        show_routes_text(c, exports, w[2], Some(net_from_text(w[3])))
    } else {
        "Unknown command; type help\r\n"@
    }
}

/// A command that closes the console.
pub open spec fn closes(w: Seq<Seq<char>>) -> bool {
    w.len() == 1 && (w[0] == "quit"@ || w[0] == "exit"@)
}

/// Answer `show routes` for an ACL and the prefix asked for, if one was.
pub fn show_routes(
    cfg: &Config,
    exports: &Exports,
    acl: &String,
    asked: Option<Option<IpNet>>,
) -> (s: String)
    requires
        exports.wf(),
    ensures
        s@ == show_routes_text(*cfg, exports@, acl@, asked),
{
    let only: Option<IpNet> = match asked {
        Some(None) => {
            return "Invalid prefix\r\n".to_string();
        },
        Some(Some(p)) => Some(p),
        None => None,
    };
    if cfg.find_acl(acl.as_str()).is_none() {
        return "Unknown ACL; use show summary\r\n".to_string();
    }
    let mut s: String = "".to_string();
    proof {
        reveal_strlit("");
    }
    append_routes(&mut s, exports, acl, only);
    assert(s@ =~= show_routes_text(*cfg, exports@, acl@, asked));
    s
}

/// Answer one command. Listings are bounded, and show what ACLs permit rather
/// than what peers were told.
pub fn respond(
    cfg: &Config,
    statuses: &Vec<PeerStatus>,
    now: u64,
    exports: &Exports,
    line: &str,
) -> (r: Reply)
    requires
        exports.wf(),
        forall|i: int| 0 <= i < line@.len() ==> is_typable(#[trigger] line@[i]),
    ensures
        ({
            let w = words(line@);
            &&& r.close == closes(w)
            &&& r.text@ == if closes(w) {
                "Bye\r\n"@
            } else {
                answer(*cfg, statuses@, now, exports@, w) + "ubgp> "@
            }
        }),
{
    let w = split_words(line);
    proof {
        assert forall|i: int| 0 <= i < w@.len() implies words(line@)[i] == (#[trigger] w@[i])@ by {
            assert(texts(w@)[i] == w@[i]@);
        }
        assert(w@.len() == words(line@).len());
    }
    if w.len() == 1 && (is_word(&w[0], "quit") || is_word(&w[0], "exit")) {
        return Reply { text: "Bye\r\n".to_string(), close: true };
    }
    let mut s: String = "".to_string();
    proof {
        reveal_strlit("");
    }
    if w.len() == 0 {
    } else if w.len() == 1 && (is_word(&w[0], "help") || is_word(&w[0], "?")) {
        s.append(HELP);
    } else if w.len() == 2 && is_word(&w[0], "show") && is_word(&w[1], "summary") {
        append_summary(&mut s, cfg, statuses, exports);
    } else if w.len() == 2 && is_word(&w[0], "show") && is_word(&w[1], "peers") {
        append_peers(&mut s, cfg, statuses, now);
    } else if w.len() == 3 && is_word(&w[0], "show") && is_word(&w[1], "routes") {
        s = show_routes(cfg, exports, &w[2], None);
    } else if w.len() == 4 && is_word(&w[0], "show") && is_word(&w[1], "routes") {
        s = show_routes(cfg, exports, &w[2], Some(parse_net(w[3].as_str())));
    } else {
        s.append("Unknown command; type help\r\n");
    }
    proof {
        assert(s@ =~= answer(*cfg, statuses@, now, exports@, words(line@)));
    }
    s.append("ubgp> ");
    Reply { text: s, close: false }
}

/// A listing is bounded and holds nothing but what is exported.
pub proof fn law_listing_is_bounded(set: Prefixes, only: Option<IpNet>, i: int)
    requires
        set.wf(),
        0 <= i < listing(set@, only).len(),
    ensures
        listing(set@, only).len() <= MAX_ROUTES,
        set@.contains(listing(set@, only)[i]),
{
    lemma_in_order(set);
    if only is None {
        assert(set.items@[i] == listing(set@, only)[i]);
    }
}

/// Two configurations that the console cannot tell apart: they differ in no more
/// than keys and what it never shows.
pub open spec fn look_alike(c: Config, d: Config) -> bool {
    &&& c.router_id == d.router_id
    &&& c.asn == d.asn
    &&& c.ipv6 == d.ipv6
    &&& c.kernel.tables@ == d.kernel.tables@
    &&& c.acls@ == d.acls@
    &&& c.peers@.len() == d.peers@.len()
    &&& forall|i: int|
        0 <= i < c.peers@.len() ==> {
            let (p, q) = (#[trigger] c.peers@[i], d.peers@[i]);
            &&& p.address == q.address
            &&& p.interface@ == q.interface@
            &&& p.remote_asn == q.remote_asn
            &&& p.md5_password is Some == q.md5_password is Some
        }
}

/// No answer depends on a key: whatever the keys are, the console says the same.
pub proof fn law_console_hides_keys(
    c: Config,
    d: Config,
    statuses: Seq<PeerStatus>,
    now: u64,
    exports: Map<Seq<char>, Set<IpNet>>,
    w: Seq<Seq<char>>,
)
    requires
        look_alike(c, d),
    ensures
        answer(c, statuses, now, exports, w) == answer(d, statuses, now, exports, w),
{
    let k = if c.peers@.len() <= statuses.len() {
        c.peers@.len()
    } else {
        statuses.len()
    };
    lemma_peer_lines_hide_keys(c, d, statuses, now, k);
    lemma_acl_lines_hide_keys(c, d, exports, c.acls@.len());
}

proof fn lemma_peer_lines_hide_keys(
    c: Config,
    d: Config,
    statuses: Seq<PeerStatus>,
    now: u64,
    k: nat,
)
    requires
        look_alike(c, d),
        k <= c.peers@.len(),
    ensures
        peer_lines(c, statuses, now, k) == peer_lines(d, statuses, now, k),
    decreases k,
{
    if k > 0 {
        lemma_peer_lines_hide_keys(c, d, statuses, now, (k - 1) as nat);
        assert(c.peers@[k - 1].address == d.peers@[k - 1].address);
    }
}

proof fn lemma_acl_lines_hide_keys(
    c: Config,
    d: Config,
    exports: Map<Seq<char>, Set<IpNet>>,
    k: nat,
)
    requires
        look_alike(c, d),
    ensures
        acl_lines(c, exports, k) == acl_lines(d, exports, k),
    decreases k,
{
    if k > 0 {
        lemma_acl_lines_hide_keys(c, d, exports, (k - 1) as nat);
    }
}

} // verus!
