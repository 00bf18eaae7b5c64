//! Network prefixes and sets of them.
use vstd::arithmetic::div_mod::{
    lemma_fundamental_div_mod, lemma_mod_multiples_basic, lemma_small_mod,
};
use vstd::arithmetic::power2::{lemma_pow2_adds, lemma_pow2_pos, lemma_pow2_strictly_increases, pow2};
use vstd::prelude::*;

use crate::addr::{IpAddr, Ipv4Addr, Ipv6Addr};

verus! {

/// A network prefix: an address and the number of leading bits that count.
/// The bits after those need not be zero; [`IpNet::trunc`] clears them.
#[derive(Clone, Copy, Debug, PartialEq, Eq, Structural)]
pub struct IpNet {
    pub addr: IpAddr,
    pub prefix_len: u8,
}

impl IpNet {
    /// The prefix length fits the address family.
    pub open spec fn wf(self) -> bool {
        self.prefix_len <= self.addr.width()
    }

    /// How many addresses the prefix holds.
    pub open spec fn size(self) -> nat {
        pow2((self.addr.width() - self.prefix_len) as nat)
    }

    /// The lowest address of the prefix, as a number.
    pub open spec fn first(self) -> int {
        self.addr.value() - self.addr.value() % self.size()
    }

    /// The highest address of the prefix, as a number.
    pub open spec fn last(self) -> int {
        self.first() + self.size() - 1
    }

    /// Every address of `other` is an address of this prefix.
    pub open spec fn covers(self, other: IpNet) -> bool {
        &&& self.addr.is_ipv4() == other.addr.is_ipv4()
        &&& self.first() <= other.first()
        &&& other.last() <= self.last()
    }

    /// No bit after the prefix is set.
    pub open spec fn canonical(self) -> bool {
        self.addr.value() == self.first()
    }

    /// The prefix with the bits after it cleared.
    pub open spec fn spec_trunc(self) -> IpNet {
        let addr = match self.addr {
            IpAddr::V4(_) => IpAddr::V4(Ipv4Addr { bits: self.first() as u32 }),
            IpAddr::V6(_) => IpAddr::V6(Ipv6Addr { bits: self.first() as u128 }),
        };
        IpNet { addr, prefix_len: self.prefix_len }
    }

    /// A prefix, or nothing where the length exceeds the address width.
    pub fn new(addr: IpAddr, prefix_len: u8) -> (r: Option<IpNet>)
        ensures
            r is Some <==> prefix_len <= addr.width(),
            r matches Some(n) ==> n == (IpNet { addr, prefix_len }) && n.wf(),
    {
        let width: u8 = if addr.is_ipv4() {
            32
        } else {
            128
        };
        if prefix_len <= width {
            Some(IpNet { addr, prefix_len })
        } else {
            None
        }
    }

    /// Calls `ipnet::IpNet::contains`, which holds where both prefixes are of
    /// one family, the lowest address of `other` is not below the lowest of
    /// `self`, and its highest is not above.
    #[verifier::external_body]
    pub(crate) fn contains(&self, other: &IpNet) -> (r: bool)
        requires
            self.wf(),
            other.wf(),
        ensures
            r == self.covers(*other),
    {
        let a = match self.addr {
            IpAddr::V4(a) => ipnet::IpNet::new(a.bits.to_be_bytes().into(), self.prefix_len),
            IpAddr::V6(a) => ipnet::IpNet::new(a.bits.to_be_bytes().into(), self.prefix_len),
        };
        let b = match other.addr {
            IpAddr::V4(b) => ipnet::IpNet::new(b.bits.to_be_bytes().into(), other.prefix_len),
            IpAddr::V6(b) => ipnet::IpNet::new(b.bits.to_be_bytes().into(), other.prefix_len),
        };
        a.unwrap().contains(&b.unwrap())
    }

    /// Calls `ipnet::IpNet::trunc`, which keeps the length and clears every
    /// address bit after it.
    #[verifier::external_body]
    pub(crate) fn trunc(&self) -> (r: IpNet)
        requires
            self.wf(),
        ensures
            r == self.spec_trunc(),
    {
        let net = match self.addr {
            IpAddr::V4(a) => ipnet::IpNet::new(a.bits.to_be_bytes().into(), self.prefix_len),
            IpAddr::V6(a) => ipnet::IpNet::new(a.bits.to_be_bytes().into(), self.prefix_len),
        };
        let addr = match net.unwrap().trunc() {
            ipnet::IpNet::V4(n) => IpAddr::V4(Ipv4Addr { bits: n.addr().into() }),
            ipnet::IpNet::V6(n) => IpAddr::V6(Ipv6Addr { bits: n.addr().into() }),
        };
        IpNet { addr, prefix_len: self.prefix_len }
    }
}

/// The lowest address of a prefix lies between zero and the address itself.
pub proof fn lemma_first_bounds(p: IpNet)
    requires
        p.wf(),
    ensures
        0 <= p.first() <= p.addr.value(),
        p.first() % p.size() as int == 0,
{
    lemma_pow2_pos((p.addr.width() - p.prefix_len) as nat);
    let v = p.addr.value() as int;
    let m = p.size() as int;
    lemma_fundamental_div_mod(v, m);
    assert(v - v % m == m * (v / m));
    lemma_mod_multiples_basic(v / m, m);
    assert(m * (v / m) == (v / m) * m) by (nonlinear_arith);
    assert(0 <= v % m < m);
    if v % m > v {
        lemma_small_mod(v as nat, m as nat);
    }
}

/// Clearing the bits after a prefix twice is clearing them once.
pub proof fn law_trunc_is_idempotent(p: IpNet)
    requires
        p.wf(),
    ensures
        p.spec_trunc().wf(),
        p.spec_trunc().canonical(),
        p.spec_trunc().spec_trunc() == p.spec_trunc(),
        p.spec_trunc().first() == p.first(),
{
    lemma_first_bounds(p);
    let t = p.spec_trunc();
    assert(t.addr.value() == p.first());
    assert(t.size() == p.size());
    assert(t.addr.value() % t.size() == 0);
}

/// What starts at a multiple of its size and lies around `v` is found by division.
proof fn lemma_block(v: int, size: int, q: int)
    requires
        size > 0,
    ensures
        v / size == q <==> q * size <= v < q * size + size,
        v - v % size == (v / size) * size,
{
    lemma_fundamental_div_mod(v, size);
    assert(size * (v / size) == (v / size) * size) by (nonlinear_arith);
    if q * size <= v < q * size + size {
        vstd::arithmetic::div_mod::lemma_fundamental_div_mod_converse(v, size, q, v - q * size);
    }
}

/// A prefix covers another exactly where it is of the same family, is no longer
/// than the other, and both agree on its leading bits.
pub proof fn law_covers_means_shared_bits(a: IpNet, b: IpNet)
    requires
        a.wf(),
        b.wf(),
    ensures
        a.covers(b) <==> {
            &&& a.addr.is_ipv4() == b.addr.is_ipv4()
            &&& a.prefix_len <= b.prefix_len
            &&& b.addr.value() / a.size() == a.addr.value() / a.size()
        },
{
    if a.addr.is_ipv4() == b.addr.is_ipv4() {
        let w = a.addr.width();
        let (m, n) = ((w - a.prefix_len) as nat, (w - b.prefix_len) as nat);
        let (size_a, size_b) = (a.size() as int, b.size() as int);
        lemma_pow2_pos(m);
        lemma_pow2_pos(n);
        let (va, vb) = (a.addr.value() as int, b.addr.value() as int);
        let q = va / size_a;
        lemma_block(va, size_a, q);
        lemma_block(vb, size_a, q);
        lemma_block(vb, size_b, vb / size_b);
        if a.covers(b) {
            if n > m {
                lemma_pow2_strictly_increases(m, n);
            }
        }
        if a.prefix_len <= b.prefix_len && vb / size_a == q {
            let d = (m - n) as nat;
            lemma_pow2_adds(n, d);
            lemma_pow2_pos(d);
            let k = pow2(d) as int;
            let t = vb / size_b;
            assert(q * size_a == (q * k) * size_b) by (nonlinear_arith)
                requires
                    size_a == size_b * k,
            ;
            assert(q * size_a + size_a == (q * k + k) * size_b) by (nonlinear_arith)
                requires
                    size_a == size_b * k,
            ;
            assert(q * k <= t < q * k + k) by (nonlinear_arith)
                requires
                    size_b > 0,
                    t * size_b <= vb < t * size_b + size_b,
                    (q * k) * size_b <= vb < (q * k + k) * size_b,
            ;
            assert((q * k) * size_b <= t * size_b) by (nonlinear_arith)
                requires
                    size_b > 0,
                    q * k <= t,
            ;
            assert(t * size_b + size_b <= (q * k + k) * size_b) by (nonlinear_arith)
                requires
                    size_b > 0,
                    t + 1 <= q * k + k,
            ;
        }
    }
}

/// The strict order by family, then address, then length.
pub open spec fn before(a: IpNet, b: IpNet) -> bool {
    if a.addr.is_ipv4() != b.addr.is_ipv4() {
        a.addr.is_ipv4()
    } else if a.addr.value() != b.addr.value() {
        a.addr.value() < b.addr.value()
    } else {
        a.prefix_len < b.prefix_len
    }
}

/// Decide [`before`].
fn is_before(a: &IpNet, b: &IpNet) -> (r: bool)
    ensures
        r == before(*a, *b),
{
    match (a.addr, b.addr) {
        (IpAddr::V4(x), IpAddr::V4(y)) => if x.bits != y.bits {
            x.bits < y.bits
        } else {
            a.prefix_len < b.prefix_len
        },
        (IpAddr::V6(x), IpAddr::V6(y)) => if x.bits != y.bits {
            x.bits < y.bits
        } else {
            a.prefix_len < b.prefix_len
        },
        (IpAddr::V4(_), IpAddr::V6(_)) => true,
        (IpAddr::V6(_), IpAddr::V4(_)) => false,
    }
}

/// Strictly increasing, so that nothing occurs twice and IPv4 comes first.
pub open spec fn ordered(s: Seq<IpNet>) -> bool {
    forall|i: int, j: int| 0 <= i < j < s.len() ==> before(#[trigger] s[i], #[trigger] s[j])
}

/// Prefixes in order.
pub open spec fn proper(s: Seq<IpNet>) -> bool {
    &&& ordered(s)
    &&& forall|i: int| 0 <= i < s.len() ==> (#[trigger] s[i]).wf()
}

/// One more item of an ordered list was looked at, and kept where it matters.
pub proof fn lemma_kept(
    items: Seq<IpNet>,
    i: int,
    queue: Seq<IpNet>,
    next: Seq<IpNet>,
    keep: spec_fn(IpNet) -> bool,
)
    requires
        0 <= i < items.len(),
        proper(items),
        proper(queue),
        forall|j: int| 0 <= j < queue.len() ==> before(#[trigger] queue[j], items[i]),
        forall|p: IpNet| #[trigger] queue.contains(p) <==> items.take(i).contains(p) && keep(p),
        next == if keep(items[i]) {
            queue.push(items[i])
        } else {
            queue
        },
    ensures
        proper(next),
        forall|j: int|
            0 <= j < next.len() && i + 1 < items.len() ==> before(#[trigger] next[j], items[i + 1]),
        forall|p: IpNet| #[trigger]
            next.contains(p) <==> items.take(i + 1).contains(p) && keep(p),
{
    let p = items[i];
    let now = items.take(i);
    let then = items.take(i + 1);
    assert(then =~= now.push(p));
    if i + 1 < items.len() {
        assert(before(items[i], items[i + 1]));
        assert forall|j: int| 0 <= j < next.len() implies before(
            #[trigger] next[j],
            items[i + 1],
        ) by {
            if j < queue.len() {
                assert(next[j] == queue[j]);
            }
        }
    }
    assert forall|q: IpNet| #[trigger]
        next.contains(q) <==> items.take(i + 1).contains(q) && keep(q) by {
        assert(then.contains(q) <==> now.contains(q) || q == p) by {
            if now.contains(q) {
                let k = choose|k: int| 0 <= k < now.len() && now[k] == q;
                assert(then[k] == q);
            }
            assert(then[i] == p);
        }
        assert(queue.contains(q) <==> now.contains(q) && keep(q));
        if keep(p) {
            assert(next.contains(q) <==> queue.contains(q) || q == p) by {
                if queue.contains(q) {
                    let k = choose|k: int| 0 <= k < queue.len() && queue[k] == q;
                    assert(next[k] == q);
                }
                assert(next[next.len() - 1] == p);
            }
        }
    }
}

/// A set of prefixes, kept in order.
pub struct Prefixes {
    pub items: Vec<IpNet>,
}

impl View for Prefixes {
    type V = Set<IpNet>;

    open spec fn view(&self) -> Set<IpNet> {
        self.items@.to_set()
    }
}

impl Prefixes {
    /// The items are in strict order and each is a prefix.
    pub open spec fn wf(self) -> bool {
        proper(self.items@)
    }

    /// The empty set.
    pub fn new() -> (r: Prefixes)
        ensures
            r.wf(),
            r@ == Set::<IpNet>::empty(),
            r.items@.len() == 0,
    {
        let r = Prefixes { items: Vec::new() };
        assert(r@ =~= Set::<IpNet>::empty());
        r
    }

    /// How many items come before `p`.
    fn position(&self, p: &IpNet) -> (r: usize)
        requires
            self.wf(),
        ensures
            r <= self.items@.len(),
            forall|i: int| 0 <= i < r ==> before(#[trigger] self.items@[i], *p),
            forall|i: int| r <= i < self.items@.len() ==> !before(#[trigger] self.items@[i], *p),
    {
        let n: usize = self.items.len();
        if n > 0 && is_before(&self.items[n - 1], p) {
            return n;
        }
        let mut lo: usize = 0;
        let mut hi: usize = n;
        while lo < hi
            invariant
                lo <= hi <= self.items@.len(),
                self.wf(),
                forall|i: int| 0 <= i < lo ==> before(#[trigger] self.items@[i], *p),
                forall|i: int| hi <= i < self.items@.len() ==> !before(
                    #[trigger] self.items@[i],
                    *p,
                ),
            decreases hi - lo,
        {
            let mid: usize = lo + (hi - lo) / 2;
            if is_before(&self.items[mid], p) {
                lo = mid + 1;
            } else {
                hi = mid;
            }
        }
        lo
    }

    /// Whether `p` is in the set.
    pub fn contains(&self, p: &IpNet) -> (r: bool)
        requires
            self.wf(),
        ensures
            r == self@.contains(*p),
    {
        let at: usize = self.position(p);
        let r = at < self.items.len() && self.items[at] == *p;
        proof {
            if self@.contains(*p) {
                let i = choose|i: int| 0 <= i < self.items@.len() && self.items@[i] == *p;
                assert(i == at);
            }
        }
        r
    }

    /// Add `p`.
    pub fn insert(&mut self, p: IpNet)
        requires
            old(self).wf(),
            p.wf(),
        ensures
            final(self).wf(),
            final(self)@ == old(self)@.insert(p),
    {
        let at: usize = self.position(&p);
        if at < self.items.len() && self.items[at] == p {
            assert(self@ =~= old(self)@.insert(p));
            return;
        }
        let ghost s = self.items@;
        self.items.insert(at, p);
        proof {
            let t = self.items@;
            assert(t =~= s.insert(at as int, p));
            assert forall|i: int| at <= i < s.len() implies before(p, #[trigger] s[i]) by {
                if i > at {
                    assert(before(s[at as int], s[i]));
                }
                assert(s[at as int] != p);
            }
            assert forall|i: int, j: int| 0 <= i < j < t.len() implies before(
                #[trigger] t[i],
                #[trigger] t[j],
            ) by {
                let a = if i < at {
                    i
                } else {
                    i - 1
                };
                let b = if j < at {
                    j
                } else {
                    j - 1
                };
                if i != at && j != at {
                    assert(before(s[a], s[b]));
                }
            }
            assert(t[at as int] == p);
            assert forall|q: IpNet| t.contains(q) == (s.contains(q) || q == p) by {
                if s.contains(q) {
                    let i = choose|i: int| 0 <= i < s.len() && s[i] == q;
                    if i < at {
                        assert(t[i] == q);
                    } else {
                        assert(t[i + 1] == q);
                    }
                }
                if t.contains(q) {
                    let i = choose|i: int| 0 <= i < t.len() && t[i] == q;
                    if i < at {
                        assert(s[i] == q);
                    } else if i > at {
                        assert(s[i - 1] == q);
                    }
                }
            }
            assert(self@ =~= old(self)@.insert(p));
        }
    }

    /// Take `p` out.
    pub fn remove(&mut self, p: &IpNet)
        requires
            old(self).wf(),
        ensures
            final(self).wf(),
            final(self)@ == old(self)@.remove(*p),
    {
        let at: usize = self.position(p);
        let ghost s = self.items@;
        if at < self.items.len() && self.items[at] == *p {
            self.items.remove(at);
            proof {
                let t = self.items@;
                assert(t =~= s.remove(at as int));
                assert forall|i: int, j: int| 0 <= i < j < t.len() implies before(
                    #[trigger] t[i],
                    #[trigger] t[j],
                ) by {
                    let a = if i < at {
                        i
                    } else {
                        i + 1
                    };
                    let b = if j < at {
                        j
                    } else {
                        j + 1
                    };
                    assert(before(s[a], s[b]));
                }
                assert forall|q: IpNet| t.contains(q) == (s.contains(q) && q != *p) by {
                    if s.contains(q) && q != *p {
                        let i = choose|i: int| 0 <= i < s.len() && s[i] == q;
                        if i < at {
                            assert(t[i] == q);
                        } else {
                            assert(t[i - 1] == q);
                        }
                    }
                    if t.contains(q) {
                        let i = choose|i: int| 0 <= i < t.len() && t[i] == q;
                        let a = if i < at {
                            i
                        } else {
                            i + 1
                        };
                        assert(s[a] == q);
                        assert(before(s[a], s[at as int]) || before(s[at as int], s[a]));
                    }
                }
                assert(self@ =~= old(self)@.remove(*p));
            }
        } else {
            proof {
                if s.contains(*p) {
                    let i = choose|i: int| 0 <= i < s.len() && s[i] == *p;
                    assert(i == at);
                }
                assert(self@ =~= old(self)@.remove(*p));
            }
        }
    }

    /// Take everything out that `other` holds.
    pub fn remove_all(&mut self, other: &Prefixes)
        requires
            old(self).wf(),
            other.wf(),
        ensures
            final(self).wf(),
            final(self)@ == old(self)@.difference(other@),
    {
        let ghost all = self.items@;
        let mut items: Vec<IpNet> = Vec::new();
        let mut i: usize = 0;
        while i < self.items.len()
            invariant
                i <= self.items@.len(),
                all == self.items@,
                all == old(self).items@,
                proper(all),
                other.wf(),
                proper(items@),
                forall|j: int|
                    0 <= j < items@.len() && i < all.len() ==> before(
                        #[trigger] items@[j],
                        all[i as int],
                    ),
                forall|p: IpNet| #[trigger]
                    items@.contains(p) <==> all.take(i as int).contains(p) && !other@.contains(p),
            decreases self.items@.len() - i,
        {
            let p = self.items[i];
            let ghost queue = items@;
            if !other.contains(&p) {
                items.push(p);
            }
            i += 1;
            proof {
                lemma_kept(all, i - 1, queue, items@, |q: IpNet| !other@.contains(q));
            }
        }
        self.items = items;
        proof {
            assert(all.take(i as int) =~= all);
            assert(self@ =~= old(self)@.difference(other@));
        }
    }

    /// Put everything in that `other` holds.
    pub fn insert_all(&mut self, other: &Prefixes)
        requires
            old(self).wf(),
            other.wf(),
        ensures
            final(self).wf(),
            final(self)@ == old(self)@.union(other@),
    {
        let mut i: usize = 0;
        while i < other.items.len()
            invariant
                i <= other.items@.len(),
                self.wf(),
                other.wf(),
                self@ == old(self)@.union(other.items@.take(i as int).to_set()),
            decreases other.items@.len() - i,
        {
            let ghost now = other.items@.take(i as int);
            self.insert(other.items[i]);
            i += 1;
            proof {
                let next = other.items@.take(i as int);
                let p = other.items@[i - 1];
                assert(next =~= now.push(p));
                assert forall|q: IpNet| next.contains(q) <==> now.contains(q) || q == p by {
                    if now.contains(q) {
                        let k = choose|k: int| 0 <= k < now.len() && now[k] == q;
                        assert(next[k] == q);
                    }
                    assert(next[i - 1] == p);
                }
                assert(self@ =~= old(self)@.union(next.to_set()));
            }
        }
        assert(other.items@.take(i as int) =~= other.items@);
    }

    /// How many prefixes the set holds.
    pub fn len(&self) -> (r: usize)
        requires
            self.wf(),
        ensures
            r == self@.len(),
            r == self.items@.len(),
    {
        proof {
            self.lemma_len();
        }
        self.items.len()
    }

    pub proof fn lemma_len(self)
        requires
            self.wf(),
        ensures
            self@.finite(),
            self@.len() == self.items@.len(),
    {
        assert(self.items@.no_duplicates()) by {
            assert forall|i: int, j: int|
                0 <= i < self.items@.len() && 0 <= j < self.items@.len() && i
                    != j implies self.items@[i] != self.items@[j] by {
                if i < j {
                    assert(before(self.items@[i], self.items@[j]));
                } else {
                    assert(before(self.items@[j], self.items@[i]));
                }
            }
        }
        self.items@.unique_seq_to_set();
    }

    /// The same prefixes in a set of their own.
    pub fn copy(&self) -> (r: Prefixes)
        ensures
            r.items@ == self.items@,
            r@ == self@,
    {
        let mut items: Vec<IpNet> = Vec::new();
        let mut i: usize = 0;
        while i < self.items.len()
            invariant
                i <= self.items@.len(),
                items@ =~= self.items@.take(i as int),
            decreases self.items@.len() - i,
        {
            items.push(self.items[i]);
            i += 1;
        }
        assert(items@ =~= self.items@);
        Prefixes { items }
    }

    /// Whether two sets hold the same prefixes.
    pub fn same(&self, other: &Prefixes) -> (r: bool)
        requires
            self.wf(),
            other.wf(),
        ensures
            r == (self@ == other@),
    {
        if self.items.len() != other.items.len() {
            proof {
                self.lemma_len();
                other.lemma_len();
            }
            return false;
        }
        let mut i: usize = 0;
        while i < self.items.len()
            invariant
                i <= self.items@.len(),
                self.wf(),
                other.wf(),
                self.items@.len() == other.items@.len(),
                forall|j: int| 0 <= j < i ==> self.items@[j] == other.items@[j],
            decreases self.items@.len() - i,
        {
            if self.items[i] != other.items[i] {
                proof {
                    lemma_first_difference(*self, *other, i as int);
                }
                return false;
            }
            i += 1;
        }
        assert(self.items@ =~= other.items@);
        true
    }
}

/// Ordered sequences that differ at an index, and agree before it, hold
/// different things.
proof fn lemma_first_difference(a: Prefixes, b: Prefixes, i: int)
    requires
        a.wf(),
        b.wf(),
        0 <= i < a.items@.len(),
        i < b.items@.len(),
        a.items@[i] != b.items@[i],
        forall|j: int| 0 <= j < i ==> a.items@[j] == b.items@[j],
    ensures
        a@ != b@,
{
    let x = a.items@[i];
    let y = b.items@[i];
    if before(x, y) {
        assert(a@.contains(x));
        if b@.contains(x) {
            let k = choose|k: int| 0 <= k < b.items@.len() && b.items@[k] == x;
            if k < i {
                assert(before(a.items@[k], a.items@[i]));
            } else if k > i {
                assert(before(b.items@[i], b.items@[k]));
            }
        }
    } else {
        assert(before(y, x));
        assert(b@.contains(y));
        if a@.contains(y) {
            let k = choose|k: int| 0 <= k < a.items@.len() && a.items@[k] == y;
            if k < i {
                assert(before(b.items@[k], b.items@[i]));
            } else if k > i {
                assert(before(a.items@[i], a.items@[k]));
            }
        }
    }
}

/// The prefixes of a set, in order.
pub open spec fn in_order(set: Set<IpNet>) -> Seq<IpNet> {
    choose|s: Seq<IpNet>| proper(s) && s.to_set() == set
}

/// The items of a set are its prefixes in order: there is only one such order.
pub proof fn lemma_in_order(p: Prefixes)
    requires
        p.wf(),
    ensures
        in_order(p@) == p.items@,
{
    let s = in_order(p@);
    assert(proper(p.items@) && p.items@.to_set() == p@);
    assert(proper(s) && s.to_set() == p@);
    lemma_proper_is_unique(s, p.items@);
}

/// Two ordered sequences of the same prefixes are the same.
proof fn lemma_proper_is_unique(a: Seq<IpNet>, b: Seq<IpNet>)
    requires
        proper(a),
        proper(b),
        a.to_set() == b.to_set(),
    ensures
        a == b,
    decreases a.len(),
{
    if a.len() == 0 {
        if b.len() > 0 {
            assert(b.to_set().contains(b[0]));
            assert(a.to_set().contains(b[0]));
        }
        assert(a =~= b);
    } else {
        let x = a.last();
        assert(a.to_set().contains(x));
        assert(b.to_set().contains(x));
        let y = b.last();
        assert(b.to_set().contains(y));
        assert(a.to_set().contains(y));
        let i = choose|i: int| 0 <= i < b.len() && b[i] == x;
        let j = choose|j: int| 0 <= j < a.len() && a[j] == y;
        if i < b.len() - 1 {
            assert(before(b[i], b[b.len() - 1]));
            if j < a.len() - 1 {
                assert(before(a[j], a[a.len() - 1]));
            }
        }
        assert(x == y);
        let (s, t) = (a.drop_last(), b.drop_last());
        assert forall|p: IpNet| s.to_set().contains(p) <==> a.to_set().contains(p) && p != x by {
            if a.contains(p) && p != x {
                let k = choose|k: int| 0 <= k < a.len() && a[k] == p;
                assert(s[k] == p);
            }
            if s.contains(p) {
                let k = choose|k: int| 0 <= k < s.len() && s[k] == p;
                assert(a[k] == p);
                assert(before(a[k], a[a.len() - 1]));
            }
        }
        assert forall|p: IpNet| t.to_set().contains(p) <==> b.to_set().contains(p) && p != y by {
            if b.contains(p) && p != y {
                let k = choose|k: int| 0 <= k < b.len() && b[k] == p;
                assert(t[k] == p);
            }
            if t.contains(p) {
                let k = choose|k: int| 0 <= k < t.len() && t[k] == p;
                assert(b[k] == p);
                assert(before(b[k], b[b.len() - 1]));
            }
        }
        assert(s.to_set() =~= t.to_set());
        assert(proper(s)) by {
            assert forall|k: int, m: int| 0 <= k < m < s.len() implies before(
                #[trigger] s[k],
                #[trigger] s[m],
            ) by {
                assert(before(a[k], a[m]));
            }
            assert forall|k: int| 0 <= k < s.len() implies (#[trigger] s[k]).wf() by {
                assert(s[k] == a[k]);
            }
        }
        assert(proper(t)) by {
            assert forall|k: int, m: int| 0 <= k < m < t.len() implies before(
                #[trigger] t[k],
                #[trigger] t[m],
            ) by {
                assert(before(b[k], b[m]));
            }
            assert forall|k: int| 0 <= k < t.len() implies (#[trigger] t[k]).wf() by {
                assert(t[k] == b[k]);
            }
        }
        lemma_proper_is_unique(s, t);
        assert(a =~= s.push(x));
        assert(b =~= t.push(y));
    }
}

/// Clearing the bits after a prefix keeps its family, its length and its leading bits,
/// and leaves nothing after them.
pub proof fn law_trunc_keeps_the_leading_bits(p: IpNet)
    requires
        p.wf(),
    ensures
        p.spec_trunc().prefix_len == p.prefix_len,
        match (p.addr, p.spec_trunc().addr) {
            (IpAddr::V4(a), IpAddr::V4(b)) => {
                let size = pow2((32 - p.prefix_len) as nat) as int;
                b.bits == a.bits - a.bits as int % size && b.bits as int % size == 0
            },
            (IpAddr::V6(a), IpAddr::V6(b)) => {
                let size = pow2((128 - p.prefix_len) as nat) as int;
                b.bits == a.bits - a.bits as int % size && b.bits as int % size == 0
            },
            _ => false,
        },
        p.canonical() <==> p.spec_trunc() == p,
{
    lemma_first_bounds(p);
    law_trunc_is_idempotent(p);
}

/// A prefix is one where its length is at most the width of an address of its family.
pub proof fn law_prefix_fits_its_family(p: IpNet)
    ensures
        p.addr is V4 ==> (p.wf() <==> p.prefix_len <= 32),
        p.addr is V6 ==> (p.wf() <==> p.prefix_len <= 128),
{
}

/// Prefixes are in order by family, then address, then length: IPv4 comes before IPv6,
/// lower addresses before higher ones, shorter prefixes before longer ones.
pub proof fn law_order_of_prefixes(a: IpNet, b: IpNet)
    ensures
        match (a.addr, b.addr) {
            (IpAddr::V4(x), IpAddr::V4(y)) => before(a, b) <==> x.bits < y.bits || (x.bits == y.bits
                && a.prefix_len < b.prefix_len),
            (IpAddr::V6(x), IpAddr::V6(y)) => before(a, b) <==> x.bits < y.bits || (x.bits == y.bits
                && a.prefix_len < b.prefix_len),
            (IpAddr::V4(_), IpAddr::V6(_)) => before(a, b),
            (IpAddr::V6(_), IpAddr::V4(_)) => !before(a, b),
        },
        a != b ==> before(a, b) != before(b, a),
        !before(a, a),
{
}

/// The prefixes of a set in order are all of them, each once, and each before the next.
pub proof fn law_set_is_listed_in_order(p: Prefixes, q: IpNet, i: int, j: int)
    requires
        p.wf(),
    ensures
        in_order(p@).contains(q) <==> p@.contains(q),
        0 <= i < j < in_order(p@).len() ==> before(in_order(p@)[i], in_order(p@)[j]),
{
    lemma_in_order(p);
}

/// A prefix can be made of an address and of no more bits than that has.
pub proof fn law_prefix_is_made(addr: IpAddr, prefix_len: u8, r: Option<IpNet>)
    requires
        call_ensures(IpNet::new, (addr, prefix_len), r),
    ensures
        addr is V4 ==> (r is Some <==> prefix_len <= 32),
        addr is V6 ==> (r is Some <==> prefix_len <= 128),
        r matches Some(p) ==> p.addr == addr && p.prefix_len == prefix_len,
{
}

/// A set of prefixes starts empty, gains what is inserted and loses what is removed, and
/// nothing else.
pub proof fn law_set_gains_and_loses(
    none: Prefixes,
    more: &mut Prefixes,
    fewer: &mut Prefixes,
    p: IpNet,
    q: IpNet,
)
    requires
        call_ensures(Prefixes::new, (), none),
        call_ensures(Prefixes::insert, (more, p), ()),
        call_ensures(Prefixes::remove, (fewer, &p), ()),
    ensures
        !none@.contains(q),
        final(more)@.contains(p),
        q != p ==> final(more)@.contains(q) == old(more)@.contains(q),
        !final(fewer)@.contains(p),
        q != p ==> final(fewer)@.contains(q) == old(fewer)@.contains(q),
{
}

/// Sets are put together and taken from each other prefix by prefix.
pub proof fn law_sets_are_combined(
    more: &mut Prefixes,
    fewer: &mut Prefixes,
    other: &Prefixes,
    p: IpNet,
)
    requires
        call_ensures(Prefixes::insert_all, (more, other), ()),
        call_ensures(Prefixes::remove_all, (fewer, other), ()),
    ensures
        final(more)@.contains(p) <==> old(more)@.contains(p) || other@.contains(p),
        final(fewer)@.contains(p) <==> old(fewer)@.contains(p) && !other@.contains(p),
{
}

/// A set is asked for its members, and compared by them. A copy is the same set.
pub proof fn law_sets_are_compared(
    set: &Prefixes,
    other: &Prefixes,
    p: IpNet,
    holds: bool,
    size: usize,
    copy: Prefixes,
    same: bool,
)
    requires
        call_ensures(Prefixes::contains, (set, &p), holds),
        call_ensures(Prefixes::len, (set,), size),
        call_ensures(Prefixes::copy, (set,), copy),
        call_ensures(Prefixes::same, (set, other), same),
    ensures
        holds <==> set@.contains(p),
        size == set@.len() && size == set.items@.len(),
        copy@ == set@ && copy.items@ == set.items@,
        same <==> forall|q: IpNet| set@.contains(q) == other@.contains(q),
{
    if forall|q: IpNet| set@.contains(q) == other@.contains(q) {
        assert(set@ =~= other@);
    }
}

} // verus!
