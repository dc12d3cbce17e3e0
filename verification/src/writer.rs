//! The broadcast writer's decision core.  It owns the live connection
//! set (as plain identifiers) and the fragment generator; the I/O shell
//! around it performs the actual socket writes and reports back which
//! connections failed.
//!
//! Per tick exactly one fragment is drawn and every live connection is
//! scheduled to receive that same fragment (`tick_plan`); connections
//! whose writes failed or timed out are then removed in one
//! order-preserving pass (`prune`).

use vstd::prelude::*;

use crate::generator::{ascii_alphabet, RandStringSpitter};
use crate::stream::clean;

verus! {

/// One scheduled write: `payload` is to be sent to connection `conn`.
pub struct WriteCmd {
    pub conn: u64,
    pub payload: String,
}

/// Everything one tick asks the I/O shell to do: the fragment drawn for
/// this tick and one write command per live connection.
pub struct TickPlan {
    pub fragment: String,
    pub cmds: Vec<WriteCmd>,
}

/// The live connection sequence after a pruning pass: the connections
/// whose writes failed are dropped, the rest keep their relative order.
pub open spec fn pruned(live: Seq<u64>, failed: Seq<bool>) -> Seq<u64>
    decreases live.len(),
{
    if live.len() == 0 {
        Seq::empty()
    } else {
        pruned(live.drop_last(), failed.drop_last()) + if failed[live.len() - 1] {
            Seq::empty()
        } else {
            seq![live.last()]
        }
    }
}

/// No identifier occurs twice.
pub open spec fn distinct_ids(s: Seq<u64>) -> bool {
    forall|i: int, j: int| 0 <= i < j < s.len() ==> s[i] != s[j]
}

/// Every connection that survives a pruning pass was already live, at a
/// position whose write succeeded.
pub proof fn lemma_pruned_members(live: Seq<u64>, failed: Seq<bool>)
    requires
        live.len() == failed.len(),
    ensures
        forall|i: int|
            0 <= i < pruned(live, failed).len() ==> exists|j: int|
                0 <= j < live.len() && live[j] == #[trigger] pruned(live, failed)[i] && !failed[j],
    decreases live.len(),
{
    if live.len() > 0 {
        lemma_pruned_members(live.drop_last(), failed.drop_last());
        assert forall|i: int| 0 <= i < pruned(live, failed).len() implies exists|j: int|
            0 <= j < live.len() && live[j] == #[trigger] pruned(live, failed)[i] && !failed[j] by {
            let rest = pruned(live.drop_last(), failed.drop_last());
            if i < rest.len() {
                let j = choose|j: int|
                    0 <= j < live.drop_last().len() && live.drop_last()[j] == rest[i]
                        && !failed.drop_last()[j];
                assert(live[j] == pruned(live, failed)[i] && !failed[j]);
            } else {
                assert(live[live.len() - 1] == pruned(live, failed)[i]);
                assert(!failed[live.len() - 1]);
            }
        }
    }
}

/// Pruning distinct identifiers leaves them distinct.
pub proof fn lemma_pruned_distinct(live: Seq<u64>, failed: Seq<bool>)
    requires
        live.len() == failed.len(),
        distinct_ids(live),
    ensures
        distinct_ids(pruned(live, failed)),
    decreases live.len(),
{
    if live.len() > 0 {
        lemma_pruned_distinct(live.drop_last(), failed.drop_last());
        lemma_pruned_members(live.drop_last(), failed.drop_last());
        let rest = pruned(live.drop_last(), failed.drop_last());
        assert forall|i: int, j: int|
            0 <= i < j < pruned(live, failed).len() implies pruned(live, failed)[i] != pruned(
            live,
            failed,
        )[j] by {
            if j >= rest.len() {
                // the appended last element differs from every earlier
                // live identifier, hence from every member of `rest`
                let m = choose|m: int|
                    0 <= m < live.drop_last().len() && live.drop_last()[m] == rest[i]
                        && !failed.drop_last()[m];
                assert(live[m] != live[live.len() - 1]);
            }
        }
    }
}

/// A connection whose write failed does not survive the pruning pass.
pub proof fn lemma_pruned_removed(live: Seq<u64>, failed: Seq<bool>, i: int)
    requires
        live.len() == failed.len(),
        distinct_ids(live),
        0 <= i < live.len(),
        failed[i],
    ensures
        !pruned(live, failed).contains(live[i]),
{
    lemma_pruned_members(live, failed);
    if pruned(live, failed).contains(live[i]) {
        let p = choose|p: int| 0 <= p < pruned(live, failed).len() && pruned(live, failed)[p]
            == live[i];
        let j = choose|j: int|
            0 <= j < live.len() && live[j] == pruned(live, failed)[p] && !failed[j];
        assert(j == i);
    }
}

/// A connection whose write succeeded does survive the pruning pass.
pub proof fn lemma_pruned_kept(live: Seq<u64>, failed: Seq<bool>, i: int)
    requires
        live.len() == failed.len(),
        0 <= i < live.len(),
        !failed[i],
    ensures
        pruned(live, failed).contains(live[i]),
    decreases live.len(),
{
    let rest = pruned(live.drop_last(), failed.drop_last());
    if i == live.len() - 1 {
        assert(pruned(live, failed)[rest.len() as int] == live[i]);
    } else {
        lemma_pruned_kept(live.drop_last(), failed.drop_last(), i);
        let p = choose|p: int| 0 <= p < rest.len() && rest[p] == live.drop_last()[i];
        assert(pruned(live, failed)[p] == live[i]);
    }
}

/// The connection multiplexer: the single owner of the live connection
/// set and of the shared fragment generator.
pub struct BroadcastWriter {
    spitter: RandStringSpitter,
    conns: Vec<u64>,
    next_id: u64,
}

impl BroadcastWriter {
    /// The identifiers of the live connections, in arrival order.
    pub closed spec fn live(&self) -> Seq<u64> {
        self.conns@
    }

    /// The single shared stream: everything the generator has emitted.
    pub closed spec fn stream(&self) -> Seq<char> {
        self.spitter.emitted()
    }

    /// The banned strings the stream avoids.
    pub closed spec fn banned_strs(&self) -> Seq<Seq<char>> {
        self.spitter.banned_strs()
    }

    /// How many identifiers have been handed out.
    pub closed spec fn issued(&self) -> nat {
        self.next_id as nat
    }

    /// The fragments the shared generator samples from.
    pub closed spec fn alphabet(&self) -> Seq<Seq<char>> {
        self.spitter.alphabet()
    }

    /// The writer's invariant: the generator is well-formed with a
    /// non-empty alphabet, every live identifier was issued, and no
    /// identifier is live twice.
    pub closed spec fn wf(&self) -> bool {
        &&& self.spitter.wf()
        &&& self.spitter.alphabet().len() >= 1
        &&& forall|i: int| 0 <= i < self.conns@.len() ==> self.conns@[i] < self.next_id
        &&& distinct_ids(self.conns@)
    }

    /// A writer around the SSH-banner-avoiding generator, with no live
    /// connections and nothing emitted yet.
    pub fn new_ssh_tarpit() -> (r: Self)
        ensures
            r.wf(),
            r.live() == Seq::<u64>::empty(),
            r.stream() == Seq::<char>::empty(),
            r.banned_strs() == seq![seq!['S', 'S', 'H', '-']],
            r.alphabet() == ascii_alphabet(),
    {
        let spitter = RandStringSpitter::new_ssh_identifier();
        proof {
            assert(ascii_alphabet().len() == 95);
        }
        let r = Self { spitter, conns: Vec::new(), next_id: 0 };
        proof {
            assert(r.live() =~= Seq::<u64>::empty());
        }
        r
    }

    /// The current live identifiers, for callers that want to observe
    /// them.
    pub fn live_ids(&self) -> (r: &Vec<u64>)
        ensures
            r@ == self.live(),
    {
        &self.conns
    }

    /// A newly accepted connection joins the live set with a fresh
    /// identifier; it receives nothing until the next tick.  `None` is
    /// returned — leaving the writer untouched — only once the identifier
    /// space is exhausted.
    pub fn on_accept(&mut self) -> (r: Option<u64>)
        requires
            old(self).wf(),
        ensures
            final(self).wf(),
            final(self).stream() == old(self).stream(),
            final(self).banned_strs() == old(self).banned_strs(),
            final(self).alphabet() == old(self).alphabet(),
            (r is Some) <==> old(self).issued() < u64::MAX,
            r matches Some(id) ==> {
                &&& final(self).live() == old(self).live().push(id)
                &&& forall|i: int| 0 <= i < old(self).live().len() ==> old(self).live()[i] != id
            },
            r is None ==> *final(self) == *old(self),
    {
        if self.next_id == u64::MAX {
            return None;
        }
        let id = self.next_id;
        self.conns.push(id);
        self.next_id = id + 1;
        Some(id)
    }

    /// One tick: draw a single fragment and schedule that same fragment,
    /// byte for byte, for every currently-live connection.  The live set
    /// itself is untouched.  `None` is returned — leaving the writer
    /// untouched — only if the generator gave up (see
    /// `RandStringSpitter::spit`); a plan is certain whenever every
    /// alphabet fragment is currently safe, in particular with an empty
    /// banned set.
    pub fn tick_plan(&mut self) -> (r: Option<TickPlan>)
        requires
            old(self).wf(),
        ensures
            final(self).wf(),
            final(self).live() == old(self).live(),
            final(self).banned_strs() == old(self).banned_strs(),
            final(self).alphabet() == old(self).alphabet(),
            (forall|k: int|
                0 <= k < old(self).alphabet().len() ==> clean(
                    old(self).banned_strs(),
                    old(self).stream() + #[trigger] old(self).alphabet()[k],
                )) ==> r is Some,
            old(self).banned_strs().len() == 0 ==> r is Some,
            r matches Some(plan) ==> {
                &&& final(self).stream() == old(self).stream() + plan.fragment@
                &&& clean(old(self).banned_strs(), final(self).stream())
                &&& plan.cmds@.len() == old(self).live().len()
                &&& forall|i: int|
                    0 <= i < plan.cmds@.len() ==> (#[trigger] plan.cmds@[i]).conn == old(
                        self,
                    ).live()[i]
                &&& forall|i: int|
                    0 <= i < plan.cmds@.len() ==> (#[trigger] plan.cmds@[i]).payload@
                        == plan.fragment@
                &&& forall|i: int, j: int|
                    0 <= i < plan.cmds@.len() && 0 <= j < plan.cmds@.len() ==> (
                    #[trigger] plan.cmds@[i]).payload@ == (#[trigger] plan.cmds@[j]).payload@
            },
            r is None ==> *final(self) == *old(self),
    {
        let fragment = match self.spitter.spit() {
            Some(f) => f,
            None => {
                proof {
                    // the generator refused, so some candidate was
                    // unsafe: the all-candidates-safe hypothesis of this
                    // function's success clause cannot hold
                    if (forall|k: int|
                        0 <= k < old(self).alphabet().len() ==> clean(
                            old(self).banned_strs(),
                            old(self).stream() + #[trigger] old(self).alphabet()[k],
                        )) {
                        assert forall|k: int|
                            0 <= k < old(self).spitter.alphabet().len() implies clean(
                            old(self).spitter.banned_strs(),
                            old(self).spitter.emitted() + #[trigger] old(self).spitter.alphabet()[
                                k
                            ],
                        ) by {
                            assert(clean(
                                old(self).banned_strs(),
                                old(self).stream() + old(self).alphabet()[k],
                            ));
                        }
                        assert(false);
                    }
                }
                return None;
            },
        };
        let mut cmds: Vec<WriteCmd> = Vec::new();
        let mut i: usize = 0;
        while i < self.conns.len()
            invariant
                0 <= i <= self.conns@.len(),
                cmds@.len() == i,
                forall|k: int| 0 <= k < i ==> (#[trigger] cmds@[k]).conn == self.conns@[k],
                forall|k: int| 0 <= k < i ==> (#[trigger] cmds@[k]).payload@ == fragment@,
            decreases self.conns@.len() - i,
        {
            cmds.push(WriteCmd { conn: self.conns[i], payload: fragment.clone() });
            i += 1;
        }
        Some(TickPlan { fragment, cmds })
    }

    /// Remove every connection whose write failed or timed out, in one
    /// order-preserving pass; `failed` gives one verdict per live
    /// connection, in the live set's order.  One failure is terminal for
    /// that connection only: every failed connection itself is gone,
    /// every other connection stays, and the stream is untouched.
    pub fn prune(&mut self, failed: &Vec<bool>)
        requires
            old(self).wf(),
            failed@.len() == old(self).live().len(),
        ensures
            final(self).wf(),
            final(self).live() == pruned(old(self).live(), failed@),
            forall|i: int|
                0 <= i < old(self).live().len() && failed@[i] ==> !final(self).live().contains(
                    #[trigger] old(self).live()[i],
                ),
            forall|i: int|
                0 <= i < old(self).live().len() && !failed@[i] ==> final(self).live().contains(
                    #[trigger] old(self).live()[i],
                ),
            final(self).stream() == old(self).stream(),
            final(self).banned_strs() == old(self).banned_strs(),
            final(self).alphabet() == old(self).alphabet(),
    {
        let ghost orig = self.conns@;
        let mut kept: Vec<u64> = Vec::new();
        let mut i: usize = 0;
        while i < self.conns.len()
            invariant
                0 <= i <= self.conns@.len(),
                failed@.len() == self.conns@.len(),
                kept@ == pruned(self.conns@.subrange(0, i as int), failed@.subrange(0, i as int)),
            decreases self.conns@.len() - i,
        {
            proof {
                let live1 = self.conns@.subrange(0, i + 1);
                let failed1 = failed@.subrange(0, i + 1);
                assert(live1.drop_last() =~= self.conns@.subrange(0, i as int));
                assert(failed1.drop_last() =~= failed@.subrange(0, i as int));
            }
            if !failed[i] {
                kept.push(self.conns[i]);
                proof {
                    assert(kept@ =~= pruned(
                        self.conns@.subrange(0, i + 1),
                        failed@.subrange(0, i + 1),
                    ));
                }
            } else {
                proof {
                    assert(kept@ =~= pruned(
                        self.conns@.subrange(0, i + 1),
                        failed@.subrange(0, i + 1),
                    ));
                }
            }
            i += 1;
        }
        proof {
            assert(self.conns@.subrange(0, self.conns@.len() as int) =~= self.conns@);
            assert(failed@.subrange(0, failed@.len() as int) =~= failed@);
        }
        self.conns = kept;
        proof {
            lemma_pruned_members(orig, failed@);
            lemma_pruned_distinct(orig, failed@);
            assert forall|k: int| 0 <= k < orig.len() && failed@[k] implies !self.conns@.contains(
                #[trigger] orig[k],
            ) by {
                lemma_pruned_removed(orig, failed@, k);
            }
            assert forall|k: int| 0 <= k < orig.len() && !failed@[k] implies self.conns@.contains(
                #[trigger] orig[k],
            ) by {
                lemma_pruned_kept(orig, failed@, k);
            }
        }
    }
}

} // verus!
