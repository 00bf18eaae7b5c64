//! What each export ACL permits of a snapshot.
use vstd::prelude::*;

use crate::config::has_acl;
use crate::config::Config;
use crate::net::before;
use crate::net::lemma_kept;
use crate::net::proper;
use crate::net::{IpNet, Prefixes};

verus! {

/// The prefixes that one ACL permits.
pub struct Export {
    pub name: String,
    pub prefixes: Prefixes,
}

/// What is exported under each ACL.
pub struct Exports {
    pub entries: Vec<Export>,
}

/// What a list of entries maps each name to.
pub open spec fn by_name(entries: Seq<Export>) -> Map<Seq<char>, Set<IpNet>>
    decreases entries.len(),
{
    if entries.len() == 0 {
        Map::empty()
    } else {
        by_name(entries.drop_last()).insert(entries.last().name@, entries.last().prefixes@)
    }
}

impl View for Exports {
    type V = Map<Seq<char>, Set<IpNet>>;

    open spec fn view(&self) -> Map<Seq<char>, Set<IpNet>> {
        by_name(self.entries@)
    }
}

impl Exports {
    /// Every entry holds a proper set.
    pub open spec fn wf(self) -> bool {
        forall|i: int| 0 <= i < self.entries@.len() ==> (#[trigger] self.entries@[i]).prefixes.wf()
    }

    /// Nothing is exported.
    pub fn new() -> (r: Exports)
        ensures
            r.wf(),
            r@ == Map::<Seq<char>, Set<IpNet>>::empty(),
    {
        Exports { entries: Vec::new() }
    }

    /// Whether nothing is exported under any name.
    pub fn is_empty(&self) -> (r: bool)
        ensures
            r <==> self@ == Map::<Seq<char>, Set<IpNet>>::empty(),
    {
        proof {
            if self.entries@.len() > 0 {
                assert(self@.dom().contains(self.entries@.last().name@));
            }
        }
        self.entries.len() == 0
    }

    /// What is exported under a name.
    pub fn get(&self, name: &String) -> (r: Option<&Prefixes>)
        requires
            self.wf(),
        ensures
            r is Some <==> self@.dom().contains(name@),
            r matches Some(p) ==> p.wf() && p@ == self@[name@],
    {
        let mut i: usize = self.entries.len();
        assert(self.entries@.take(i as int) =~= self.entries@);
        while i > 0
            invariant
                i <= self.entries@.len(),
                self.wf(),
                ({
                    let rest = by_name(self.entries@.take(i as int));
                    &&& self@.dom().contains(name@) == rest.dom().contains(name@)
                    &&& rest.dom().contains(name@) ==> self@[name@] == rest[name@]
                }),
            decreases i,
        {
            proof {
                let now = self.entries@.take(i as int);
                assert(now.drop_last() =~= self.entries@.take(i - 1));
                assert(now.last() == self.entries@[i - 1]);
            }
            i -= 1;
            if self.entries[i].name == *name {
                return Some(&self.entries[i].prefixes);
            }
        }
        None
    }

    /// Whether both export the same.
    pub fn same(&self, other: &Exports) -> (r: bool)
        requires
            self.wf(),
            other.wf(),
        ensures
            r == (self@ == other@),
    {
        let mut i: usize = 0;
        while i < self.entries.len()
            invariant
                i <= self.entries@.len(),
                self.wf(),
                other.wf(),
                forall|j: int|
                    0 <= j < i ==> {
                        let n = (#[trigger] self.entries@[j]).name@;
                        &&& other@.dom().contains(n)
                        &&& self@[n] == other@[n]
                    },
            decreases self.entries@.len() - i,
        {
            let name = &self.entries[i].name;
            proof {
                lemma_has_name(self.entries@, i as int);
            }
            let mine = self.get(name);
            let theirs = other.get(name);
            match (mine, theirs) {
                (Some(a), Some(b)) => {
                    if !a.same(b) {
                        return false;
                    }
                },
                _ => {
                    return false;
                },
            }
            i += 1;
        }
        let mut k: usize = 0;
        while k < other.entries.len()
            invariant
                k <= other.entries@.len(),
                self.wf(),
                forall|j: int|
                    0 <= j < k ==> self@.dom().contains((#[trigger] other.entries@[j]).name@),
            decreases other.entries@.len() - k,
        {
            if self.get(&other.entries[k].name).is_none() {
                proof {
                    lemma_has_name(other.entries@, k as int);
                }
                return false;
            }
            k += 1;
        }
        proof {
            assert forall|n: Seq<char>| #[trigger]
                self@.dom().contains(n) implies other@.dom().contains(n) && self@[n]
                == other@[n] by {
                lemma_name_has_entry(self.entries@, n);
            }
            assert forall|n: Seq<char>| #[trigger]
                other@.dom().contains(n) implies self@.dom().contains(n) by {
                lemma_name_has_entry(other.entries@, n);
            }
            assert(self@.dom() =~= other@.dom());
            assert(self@ =~= other@);
        }
        true
    }
}

/// The name of every entry is mapped.
proof fn lemma_has_name(s: Seq<Export>, i: int)
    requires
        0 <= i < s.len(),
    ensures
        by_name(s).dom().contains(s[i].name@),
    decreases s.len(),
{
    if i < s.len() - 1 {
        lemma_has_name(s.drop_last(), i);
    }
}

/// A mapped name is that of an entry.
proof fn lemma_name_has_entry(s: Seq<Export>, n: Seq<char>)
    requires
        by_name(s).dom().contains(n),
    ensures
        exists|i: int| 0 <= i < s.len() && (#[trigger] s[i]).name@ == n,
    decreases s.len(),
{
    if s.last().name@ == n {
        assert(s[s.len() - 1].name@ == n);
    } else {
        lemma_name_has_entry(s.drop_last(), n);
        let i = choose|i: int|
            0 <= i < s.drop_last().len() && (#[trigger] s.drop_last()[i]).name@ == n;
        assert(s[i].name@ == n);
    }
}

/// Whether some peer exports under this ACL.
pub open spec fn in_use(c: Config, name: Seq<char>) -> bool {
    exists|i: int| 0 <= i < c.peers@.len() && (#[trigger] c.peers@[i]).export_acl@ == name
}

/// Whether the ACL of this name permits `p`.
pub open spec fn permitted(c: Config, name: Seq<char>, p: IpNet) -> bool {
    exists|i: int|
        0 <= i < c.acls@.len() && (#[trigger] c.acls@[i]).name@ == name && c.acls@[i].acl.allows(p)
}

/// What is exported of a set of prefixes: under the name of each ACL that a peer
/// uses, those that the ACL permits.
pub open spec fn exported(c: Config, prefixes: Set<IpNet>) -> Map<Seq<char>, Set<IpNet>> {
    Map::new(
        |name: Seq<char>| in_use(c, name),
        |name: Seq<char>| prefixes.filter(|p: IpNet| permitted(c, name, p)),
    )
}

/// The prefixes that the ACL at a place permits.
fn select(cfg: &Config, at: usize, prefixes: &Prefixes) -> (r: Prefixes)
    requires
        cfg.wf(),
        at < cfg.acls@.len(),
        prefixes.wf(),
    ensures
        r.wf(),
        r@ == prefixes@.filter(|p: IpNet| permitted(*cfg, cfg.acls@[at as int].name@, p)),
{
    let ghost name = cfg.acls@[at as int].name@;
    let mut items: Vec<IpNet> = Vec::new();
    let mut i: usize = 0;
    while i < prefixes.items.len()
        invariant
            i <= prefixes.items@.len(),
            cfg.wf(),
            at < cfg.acls@.len(),
            name == cfg.acls@[at as int].name@,
            prefixes.wf(),
            proper(items@),
            forall|j: int|
                0 <= j < items@.len() && i < prefixes.items@.len() ==> before(
                    #[trigger] items@[j],
                    prefixes.items@[i as int],
                ),
            forall|p: IpNet| #[trigger]
                items@.contains(p) <==> prefixes.items@.take(i as int).contains(p) && permitted(
                    *cfg,
                    name,
                    p,
                ),
        decreases prefixes.items@.len() - i,
    {
        let p = prefixes.items[i];
        let ghost queue = items@;
        let keep = cfg.acls[at].acl.permits(&p);
        proof {
            if permitted(*cfg, name, p) {
                let k = choose|k: int|
                    0 <= k < cfg.acls@.len() && (#[trigger] cfg.acls@[k]).name@ == name
                        && cfg.acls@[k].acl.allows(p);
                assert(k == at);
            }
        }
        if keep {
            items.push(p);
        }
        i += 1;
        proof {
            lemma_kept(
                prefixes.items@,
                i - 1,
                queue,
                items@,
                |q: IpNet| permitted(*cfg, name, q),
            );
        }
    }
    assert(prefixes.items@.take(i as int) =~= prefixes.items@);
    let r = Prefixes { items };
    assert(r@ =~= prefixes@.filter(|p: IpNet| permitted(*cfg, name, p)));
    r
}

/// Apply each ACL that a peer uses to a snapshot.
pub fn filter(cfg: &Config, prefixes: &Prefixes) -> (r: Exports)
    requires
        cfg.wf(),
        prefixes.wf(),
        forall|i: int|
            0 <= i < cfg.peers@.len() ==> has_acl(
                cfg.acls@,
                (#[trigger] cfg.peers@[i]).export_acl@,
            ),
    ensures
        r.wf(),
        r@ == exported(*cfg, prefixes@),
{
    let mut r = Exports::new();
    let mut i: usize = 0;
    while i < cfg.peers.len()
        invariant
            i <= cfg.peers@.len(),
            cfg.wf(),
            prefixes.wf(),
            forall|i: int|
                0 <= i < cfg.peers@.len() ==> has_acl(
                    cfg.acls@,
                    (#[trigger] cfg.peers@[i]).export_acl@,
                ),
            r.wf(),
            forall|n: Seq<char>| #[trigger]
                r@.dom().contains(n) <==> exists|j: int|
                    0 <= j < i && (#[trigger] cfg.peers@[j]).export_acl@ == n,
            forall|n: Seq<char>| #[trigger]
                r@.dom().contains(n) ==> r@[n] == prefixes@.filter(
                    |p: IpNet| permitted(*cfg, n, p),
                ),
        decreases cfg.peers@.len() - i,
    {
        let name = &cfg.peers[i].export_acl;
        let ghost before_map = r@;
        if r.get(name).is_none() {
            match cfg.find_acl(name.as_str()) {
                Some(at) => {
                    let kept = select(cfg, at, prefixes);
                    let ghost entries = r.entries@;
                    r.entries.push(Export { name: name.clone(), prefixes: kept });
                    proof {
                        assert(r.entries@.drop_last() =~= entries);
                        assert(r@ == before_map.insert(name@, kept@));
                    }
                },
                None => {},
            }
        }
        i += 1;
        proof {
            assert forall|n: Seq<char>| #[trigger]
                r@.dom().contains(n) <==> exists|j: int|
                    0 <= j < i && (#[trigger] cfg.peers@[j]).export_acl@ == n by {
                assert(r@.dom().contains(n) <==> before_map.dom().contains(n) || n == name@);
                if n == name@ {
                    assert(cfg.peers@[i - 1].export_acl@ == n);
                }
            }
        }
    }
    assert(r@ =~= exported(*cfg, prefixes@));
    r
}

/// Only kernel prefixes are exported, and only those that the ACL permits.
pub proof fn law_exports_are_permitted_kernel_prefixes(
    c: Config,
    prefixes: Set<IpNet>,
    name: Seq<char>,
    p: IpNet,
)
    requires
        exported(c, prefixes).dom().contains(name),
    ensures
        exported(c, prefixes)[name].contains(p) <==> prefixes.contains(p) && permitted(c, name, p),
{
}

/// A prefix that leaves the kernel leaves every export; all others stay.
pub proof fn law_last_copy_gone_is_withdrawn(
    c: Config,
    prefixes: Set<IpNet>,
    name: Seq<char>,
    p: IpNet,
)
    requires
        exported(c, prefixes).dom().contains(name),
    ensures
        exported(c, prefixes.remove(p)).dom() == exported(c, prefixes).dom(),
        exported(c, prefixes.remove(p))[name] == exported(c, prefixes)[name].remove(p),
{
    assert(exported(c, prefixes.remove(p)).dom() =~= exported(c, prefixes).dom());
    assert(exported(c, prefixes.remove(p))[name] =~= exported(c, prefixes)[name].remove(p));
}

/// What is exported under a name: nothing but where some peer uses the name, and then
/// the kernel prefixes that an ACL of that name permits.
pub proof fn law_export_is_decided_by_its_acl(
    c: Config,
    kernel: Set<IpNet>,
    name: Seq<char>,
    p: IpNet,
)
    ensures
        exported(c, kernel).dom().contains(name) <==> exists|i: int|
            0 <= i < c.peers@.len() && (#[trigger] c.peers@[i]).export_acl@ == name,
        exported(c, kernel).dom().contains(name) ==> (exported(c, kernel)[name].contains(p)
            <==> kernel.contains(p) && exists|i: int|
            0 <= i < c.acls@.len() && (#[trigger] c.acls@[i]).name@ == name
                && c.acls@[i].acl.allows(p)),
{
}

/// Entries are found by their name: one that is added counts for its own name and
/// changes no other.
pub proof fn law_entry_counts_for_its_name(entries: Seq<Export>, e: Export, name: Seq<char>)
    ensures
        by_name(Seq::empty()) == Map::<Seq<char>, Set<IpNet>>::empty(),
        by_name(entries.push(e)).dom().contains(e.name@),
        by_name(entries.push(e))[e.name@] == e.prefixes@,
        name != e.name@ ==> by_name(entries.push(e)).dom().contains(name) == by_name(
            entries,
        ).dom().contains(name),
        name != e.name@ && by_name(entries).dom().contains(name) ==> by_name(entries.push(e))[name]
            == by_name(entries)[name],
{
    assert(entries.push(e).drop_last() =~= entries);
}

/// What is exported is decided prefix by prefix: a peer's ACL is given those of the
/// kernel's prefixes that it permits, and an ACL that no peer uses is given nothing.
pub proof fn law_exports_are_filtered(
    cfg: &Config,
    prefixes: &Prefixes,
    r: Exports,
    name: Seq<char>,
    p: IpNet,
)
    requires
        call_ensures(filter, (cfg, prefixes), r),
    ensures
        r@.dom().contains(name) <==> exists|i: int|
            0 <= i < cfg.peers@.len() && (#[trigger] cfg.peers@[i]).export_acl@ == name,
        r@.dom().contains(name) ==> (r@[name].contains(p) <==> prefixes@.contains(p) && exists|
            i: int,
        |
            0 <= i < cfg.acls@.len() && (#[trigger] cfg.acls@[i]).name@ == name
                && cfg.acls@[i].acl.allows(p)),
{
    law_export_is_decided_by_its_acl(*cfg, prefixes@, name, p);
}

/// Exports are found by name, and compared name by name.
pub proof fn law_exports_are_found(
    none: Exports,
    exports: &Exports,
    other: &Exports,
    name: &String,
    found: Option<&Prefixes>,
    nothing: bool,
    same: bool,
)
    requires
        call_ensures(Exports::new, (), none),
        call_ensures(Exports::get, (exports, name), found),
        call_ensures(Exports::is_empty, (exports,), nothing),
        call_ensures(Exports::same, (exports, other), same),
    ensures
        !none@.dom().contains(name@),
        found is Some <==> exports@.dom().contains(name@),
        found matches Some(p) ==> p@ == exports@[name@],
        nothing ==> found is None,
        same <==> exports@ == other@,
{
}

} // verus!
