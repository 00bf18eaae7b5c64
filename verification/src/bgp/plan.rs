//! The difference between what a peer was told and what it should know.
use std::collections::VecDeque;
use vstd::prelude::*;

use crate::net::before;
use crate::net::lemma_kept;
use crate::net::proper;
use crate::net::{IpNet, Prefixes};
use crate::wire::encode::batch_ok;
use crate::wire::frame::MAX_UPDATE_PREFIXES;
use crate::wire::open::Negotiated;

verus! {

/// Whether prefixes of this family are exchanged.
pub open spec fn spec_enabled(n: Negotiated, p: IpNet) -> bool {
    if p.addr.is_ipv4() {
        n.ipv4
    } else {
        n.ipv6
    }
}

#[verifier::when_used_as_spec(spec_enabled)]
pub fn enabled(n: Negotiated, p: IpNet) -> (r: bool)
    ensures
        r == enabled(n, p),
{
    if p.addr.is_ipv4() {
        n.ipv4
    } else {
        n.ipv6
    }
}

/// Whether a prefix that was advertised has to be withdrawn.
pub open spec fn to_withdraw(desired: Set<IpNet>, n: Negotiated, p: IpNet) -> bool {
    !desired.contains(p) || !enabled(n, p)
}

/// Whether a desired prefix has to be announced; on a refresh all are.
pub open spec fn to_add(advertised: Set<IpNet>, n: Negotiated, refresh: bool, p: IpNet) -> bool {
    enabled(n, p) && (refresh || !advertised.contains(p))
}

/// What a peer should know of the desired prefixes.
pub open spec fn wanted(desired: Set<IpNet>, n: Negotiated) -> Set<IpNet> {
    desired.filter(|p: IpNet| enabled(n, p))
}

/// Prefixes to withdraw and to announce, in order.
pub struct Plan {
    pub withdrawals: VecDeque<IpNet>,
    pub additions: VecDeque<IpNet>,
}

impl Plan {
    pub open spec fn wf(self) -> bool {
        proper(self.withdrawals@) && proper(self.additions@)
    }

    /// The plan withdraws and announces what it has to, and nothing else.
    pub open spec fn is_for(
        self,
        advertised: Set<IpNet>,
        desired: Set<IpNet>,
        n: Negotiated,
        refresh: bool,
    ) -> bool {
        &&& forall|p: IpNet|
            self.withdrawals@.contains(p) <==> advertised.contains(p) && to_withdraw(desired, n, p)
        &&& forall|p: IpNet|
            self.additions@.contains(p) <==> desired.contains(p) && to_add(
                advertised,
                n,
                refresh,
                p,
            )
    }

    /// What a peer that knows `known` knows once the plan was carried out.
    pub open spec fn outcome(self, known: Set<IpNet>) -> Set<IpNet> {
        known.difference(self.withdrawals@.to_set()).union(self.additions@.to_set())
    }

    /// Compare what was advertised with what is desired. A refresh announces
    /// everything again.
    pub fn new(advertised: &Prefixes, desired: &Prefixes, n: &Negotiated, refresh: bool) -> (r: Plan)
        requires
            advertised.wf(),
            desired.wf(),
        ensures
            r.wf(),
            r.is_for(advertised@, desired@, *n, refresh),
    {
        let mut withdrawals: VecDeque<IpNet> = VecDeque::new();
        let mut i: usize = 0;
        while i < advertised.items.len()
            invariant
                i <= advertised.items@.len(),
                advertised.wf(),
                desired.wf(),
                proper(withdrawals@),
                forall|j: int|
                    0 <= j < withdrawals@.len() && i < advertised.items@.len() ==> before(
                        #[trigger] withdrawals@[j],
                        advertised.items@[i as int],
                    ),
                forall|p: IpNet|
                    withdrawals@.contains(p) <==> advertised.items@.take(i as int).contains(p)
                        && to_withdraw(desired@, *n, p),
            decreases advertised.items@.len() - i,
        {
            let p = advertised.items[i];
            let ghost queue = withdrawals@;
            let keep = !desired.contains(&p) || !enabled(*n, p);
            if keep {
                withdrawals.push_back(p);
            }
            i += 1;
            proof {
                lemma_kept(
                    advertised.items@,
                    i - 1,
                    queue,
                    withdrawals@,
                    |q: IpNet| to_withdraw(desired@, *n, q),
                );
            }
        }
        let mut additions: VecDeque<IpNet> = VecDeque::new();
        let mut k: usize = 0;
        while k < desired.items.len()
            invariant
                k <= desired.items@.len(),
                advertised.wf(),
                desired.wf(),
                proper(additions@),
                forall|j: int|
                    0 <= j < additions@.len() && k < desired.items@.len() ==> before(
                        #[trigger] additions@[j],
                        desired.items@[k as int],
                    ),
                forall|p: IpNet|
                    additions@.contains(p) <==> desired.items@.take(k as int).contains(p)
                        && to_add(advertised@, *n, refresh, p),
            decreases desired.items@.len() - k,
        {
            let p = desired.items[k];
            let ghost queue = additions@;
            let keep = enabled(*n, p) && (refresh || !advertised.contains(&p));
            if keep {
                additions.push_back(p);
            }
            k += 1;
            proof {
                lemma_kept(
                    desired.items@,
                    k - 1,
                    queue,
                    additions@,
                    |q: IpNet| to_add(advertised@, *n, refresh, q),
                );
            }
        }
        proof {
            assert(advertised.items@.take(i as int) =~= advertised.items@);
            assert(desired.items@.take(k as int) =~= desired.items@);
        }
        Plan { withdrawals, additions }
    }

    /// Whether nothing is left to do.
    pub open spec fn spec_is_empty(&self) -> bool {
        self.withdrawals@.len() == 0 && self.additions@.len() == 0
    }

    #[verifier::when_used_as_spec(spec_is_empty)]
    pub fn is_empty(&self) -> (r: bool)
        ensures
            r == self.is_empty(),
    {
        self.withdrawals.len() == 0 && self.additions.len() == 0
    }

    /// How many prefixes are left to withdraw and to announce.
    pub open spec fn pending(self) -> nat {
        self.withdrawals@.len() + self.additions@.len()
    }

    /// The next batch: withdrawals come first.
    pub open spec fn batch(self) -> Seq<IpNet> {
        if self.withdrawals@.len() > 0 {
            first_batch(self.withdrawals@)
        } else {
            first_batch(self.additions@)
        }
    }

    /// Take the next batch, and whether it is to be withdrawn.
    pub fn next(&mut self) -> (r: Option<(bool, Vec<IpNet>)>)
        requires
            old(self).wf(),
        ensures
            final(self).wf(),
            r is None <==> old(self).is_empty(),
            r is None ==> *final(self) == *old(self),
            r matches Some((withdraw, batch)) ==> {
                &&& batch_ok(batch@)
                &&& proper(batch@)
                &&& withdraw == (old(self).withdrawals@.len() > 0)
                &&& batch@ == old(self).batch()
                &&& if withdraw {
                    &&& final(self).withdrawals@ == old(self).withdrawals@.skip(batch@.len() as int)
                    &&& final(self).additions@ == old(self).additions@
                } else {
                    &&& final(self).additions@ == old(self).additions@.skip(batch@.len() as int)
                    &&& final(self).withdrawals@ == old(self).withdrawals@
                }
            },
    {
        if self.withdrawals.len() > 0 {
            let batch = take_batch(&mut self.withdrawals);
            Some((true, batch))
        } else if self.additions.len() > 0 {
            let batch = take_batch(&mut self.additions);
            Some((false, batch))
        } else {
            None
        }
    }
}

/// How many prefixes at the start of a queue make up a batch, where the first
/// `k` do: those of one family, up to the limit.
pub open spec fn run(q: Seq<IpNet>, k: nat) -> nat
    decreases q.len() - k,
{
    if k < q.len() && k < MAX_UPDATE_PREFIXES && q[k as int].addr.is_ipv6()
        == q[0].addr.is_ipv6() {
        run(q, k + 1)
    } else {
        k
    }
}

/// The batch at the start of a queue.
pub open spec fn first_batch(q: Seq<IpNet>) -> Seq<IpNet> {
    q.take(run(q, 0) as int)
}

fn take_batch(queue: &mut VecDeque<IpNet>) -> (r: Vec<IpNet>)
    requires
        proper(old(queue)@),
        old(queue)@.len() > 0,
    ensures
        proper(final(queue)@),
        batch_ok(r@),
        proper(r@),
        r@ == first_batch(old(queue)@),
        final(queue)@ == old(queue)@.skip(r@.len() as int),
{
    let v6 = queue[0].addr.is_ipv6();
    let mut batch: Vec<IpNet> = Vec::new();
    let ghost whole = queue@;
    while batch.len() < MAX_UPDATE_PREFIXES && queue.len() > 0 && queue[0].addr.is_ipv6() == v6
        invariant
            whole == old(queue)@,
            proper(whole),
            whole.len() > 0,
            whole[0].addr.is_ipv6() == v6,
            batch@.len() <= whole.len(),
            batch@ =~= whole.take(batch@.len() as int),
            queue@ =~= whole.skip(batch@.len() as int),
            batch@.len() <= MAX_UPDATE_PREFIXES,
            run(whole, 0) == run(whole, batch@.len()),
            forall|i: int|
                0 <= i < batch@.len() ==> (#[trigger] batch@[i]).wf() && batch@[i].addr.is_ipv6()
                    == v6,
        decreases queue@.len(),
    {
        assert(queue@[0] == whole[batch@.len() as int]);
        match queue.pop_front() {
            Some(p) => {
                batch.push(p);
            },
            None => {},
        }
    }
    proof {
        if queue@.len() > 0 {
            assert(queue@[0] == whole[batch@.len() as int]);
        }
        assert forall|i: int, j: int| 0 <= i < j < queue@.len() implies before(
            #[trigger] queue@[i],
            #[trigger] queue@[j],
        ) by {
            assert(whole[batch@.len() + i] == queue@[i]);
            assert(whole[batch@.len() + j] == queue@[j]);
        }
        assert forall|i: int| 0 <= i < queue@.len() implies (#[trigger] queue@[i]).wf() by {
            assert(whole[batch@.len() + i] == queue@[i]);
        }
    }
    batch
}

/// A plan that was carried out leaves the peer with what is wanted, whatever it
/// knew before and whether or not it asked for a refresh.
pub proof fn law_plan_reaches_what_is_wanted(
    plan: Plan,
    advertised: Set<IpNet>,
    desired: Set<IpNet>,
    n: Negotiated,
    refresh: bool,
)
    requires
        plan.is_for(advertised, desired, n, refresh),
    ensures
        plan.outcome(advertised) == wanted(desired, n),
{
    assert(plan.outcome(advertised) =~= wanted(desired, n));
}

pub proof fn lemma_run_fits(q: Seq<IpNet>, k: nat)
    requires
        k <= q.len(),
    ensures
        k <= run(q, k) <= q.len(),
    decreases q.len() - k,
{
    if run(q, k) != k {
        lemma_run_fits(q, k + 1);
    }
}

/// A batch is never empty while something is queued, holds one family and no more
/// than fits, and is as long as it can be.
pub proof fn law_batches_are_full(q: Seq<IpNet>)
    requires
        proper(q),
        q.len() > 0,
    ensures
        batch_ok(first_batch(q)),
        first_batch(q).len() == MAX_UPDATE_PREFIXES || first_batch(q).len() == q.len()
            || q[first_batch(q).len() as int].addr.is_ipv6() != q[0].addr.is_ipv6(),
{
    lemma_run_fits(q, 0);
    lemma_run_is_a_batch(q, 0);
    assert(run(q, 0) == run(q, 1));
    lemma_run_fits(q, 1);
}

proof fn lemma_run_is_a_batch(q: Seq<IpNet>, k: nat)
    requires
        k <= q.len(),
        k <= MAX_UPDATE_PREFIXES,
        forall|i: int| 0 <= i < k ==> (#[trigger] q[i]).addr.is_ipv6() == q[0].addr.is_ipv6(),
    ensures
        ({
            let r = run(q, k);
            &&& r <= MAX_UPDATE_PREFIXES
            &&& forall|i: int|
                0 <= i < r ==> (#[trigger] q[i]).addr.is_ipv6() == q[0].addr.is_ipv6()
            &&& r == MAX_UPDATE_PREFIXES || r >= q.len() || q[r as int].addr.is_ipv6()
                != q[0].addr.is_ipv6()
        }),
    decreases q.len() - k,
{
    if k < q.len() && k < MAX_UPDATE_PREFIXES && q[k as int].addr.is_ipv6()
        == q[0].addr.is_ipv6() {
        lemma_run_is_a_batch(q, k + 1);
    }
}

} // verus!
