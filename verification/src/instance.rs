use crate::types::{InstanceState, Sharing};
use vstd::prelude::*;

verus! {

/// One realization of a pipeline template by the external executor.
/// An instance handle is its index in the table. The record of a
/// `Stopped` instance is kept — so handles are never reused and the
/// history of engine calls stays visible — but its engine resources are
/// gone: a `Stopped` instance is never attached to again.
#[derive(Debug)]
pub struct PipelineInstance {
    pub mount_path: String,
    pub sharing: Sharing,
    pub state: InstanceState,
    /// Number of sessions currently attached.
    pub ref_count: usize,
}

/// The pipeline instances created since the controller was built. Every
/// record stands for exactly one successful `instantiate` call to the
/// external executor, and every `Stopped` record for exactly one
/// `teardown` call, so the table is also the ledger of engine calls.
#[derive(Debug)]
pub struct InstanceTable {
    pub instances: Vec<PipelineInstance>,
}

/// A live instance: one whose engine resources exist. `Created` and
/// `Stopping` are passed through inside single operations of this
/// synchronous core, so at rest liveness means `Running`.
pub open spec fn live(i: PipelineInstance) -> bool {
    i.state is Running
}

/// 1 when the instance has been torn down, else 0.
pub open spec fn stopped_contrib(i: PipelineInstance) -> nat {
    if i.state is Stopped {
        1nat
    } else {
        0nat
    }
}

/// How many instances of `is` have been torn down: the number of
/// `teardown` calls the external executor has received.
pub open spec fn stopped_count(is: Seq<PipelineInstance>) -> nat
    decreases is.len(),
{
    if is.len() == 0 {
        0nat
    } else {
        stopped_count(is.drop_last()) + stopped_contrib(is.last())
    }
}

/// Whether some live shared instance serves mount path `p`.
pub open spec fn has_live_shared(is: Seq<PipelineInstance>, p: Seq<char>) -> bool {
    exists|n: int|
        0 <= n < is.len() && live(is[n]) && is[n].sharing is Shared && is[n].mount_path@ == p
}

/// `post` is `pre` with every instance torn down: one already `Stopped`
/// in `pre` is untouched (the executor gets no second teardown call for
/// it), and the rest are `Stopped` with no attached session left.
pub open spec fn instances_all_stopped_of(
    pre: Seq<PipelineInstance>,
    post: Seq<PipelineInstance>,
) -> bool {
    &&& post.len() == pre.len()
    &&& forall|n: int|
        0 <= n < pre.len() ==> {
            &&& (#[trigger] post[n]).state is Stopped
            &&& post[n].ref_count == 0
            &&& post[n].mount_path == pre[n].mount_path
            &&& post[n].sharing == pre[n].sharing
            &&& (pre[n].state is Stopped ==> post[n] == pre[n])
        }
}

pub proof fn lemma_stopped_count_update(is: Seq<PipelineInstance>, k: int, x: PipelineInstance)
    requires
        0 <= k < is.len(),
    ensures
        stopped_count(is.update(k, x)) == stopped_count(is) - stopped_contrib(is[k])
            + stopped_contrib(x),
    decreases is.len(),
{
    let t = is.update(k, x);
    if k == is.len() - 1 {
        assert(t.drop_last() =~= is.drop_last());
    } else {
        assert(t.drop_last() =~= is.drop_last().update(k, x));
        lemma_stopped_count_update(is.drop_last(), k, x);
    }
}

/// Every instance of `is` is stopped, so the teardown ledger equals the
/// whole table.
pub proof fn lemma_stopped_count_full(is: Seq<PipelineInstance>)
    requires
        forall|n: int| 0 <= n < is.len() ==> is[n].state is Stopped,
    ensures
        stopped_count(is) == is.len(),
    decreases is.len(),
{
    if is.len() > 0 {
        lemma_stopped_count_full(is.drop_last());
    }
}

impl InstanceTable {
    /// A fresh table: no instance has ever been created.
    pub fn new() -> (t: Self)
        ensures
            t.instances@ =~= Seq::<PipelineInstance>::empty(),
    {
        InstanceTable { instances: Vec::new() }
    }

    /// The live shared instance serving `p`, if one exists — the one a
    /// new session on a `Shared` mount attaches to instead of causing a
    /// second `instantiate` call.
    pub fn find_live_shared(&self, p: &String) -> (r: Option<usize>)
        ensures
            match r {
                Some(n) => n < self.instances@.len() && live(self.instances@[n as int])
                    && self.instances@[n as int].sharing is Shared
                    && self.instances@[n as int].mount_path@ == p@,
                None => !has_live_shared(self.instances@, p@),
            },
    {
        let mut i: usize = 0;
        while i < self.instances.len()
            invariant
                i <= self.instances@.len(),
                forall|n: int|
                    0 <= n < i ==> !(live(self.instances@[n]) && self.instances@[n].sharing
                        is Shared && self.instances@[n].mount_path@ == p@),
            decreases self.instances@.len() - i,
        {
            if self.instances[i].state == InstanceState::Running && self.instances[i].sharing
                == Sharing::Shared && self.instances[i].mount_path == *p {
                return Some(i);
            }
            i = i + 1;
        }
        None
    }

    /// How many `instantiate` calls the executor has answered with an
    /// instance: every record of the table stands for exactly one.
    pub fn instantiate_calls(&self) -> (r: usize)
        ensures
            r == self.instances@.len(),
    {
        self.instances.len()
    }

    /// The lifecycle state of the instance behind `handle`; `None` for a
    /// handle never issued.
    pub fn state_of(&self, handle: usize) -> (r: Option<InstanceState>)
        ensures
            match r {
                Some(s) => handle < self.instances@.len() && s == self.instances@[handle as int].state,
                None => handle >= self.instances@.len(),
            },
    {
        if handle < self.instances.len() {
            Some(self.instances[handle].state)
        } else {
            None
        }
    }

    /// The number of sessions attached to the instance behind `handle`;
    /// `None` for a handle never issued.
    pub fn ref_count_of(&self, handle: usize) -> (r: Option<usize>)
        ensures
            match r {
                Some(c) => handle < self.instances@.len() && c == self.instances@[handle as int].ref_count,
                None => handle >= self.instances@.len(),
            },
    {
        if handle < self.instances.len() {
            Some(self.instances[handle].ref_count)
        } else {
            None
        }
    }

    /// How many `teardown` calls the executor has received.
    pub fn teardown_calls(&self) -> (r: usize)
        ensures
            r == stopped_count(self.instances@),
    {
        let mut i: usize = 0;
        let mut acc: usize = 0;
        while i < self.instances.len()
            invariant
                i <= self.instances@.len(),
                acc == stopped_count(self.instances@.take(i as int)),
                acc <= i,
            decreases self.instances@.len() - i,
        {
            proof {
                assert(self.instances@.take(i + 1).drop_last() =~= self.instances@.take(i as int));
                assert(self.instances@.take(i + 1).last() == self.instances@[i as int]);
            }
            if self.instances[i].state == InstanceState::Stopped {
                acc = acc + 1;
            }
            i = i + 1;
        }
        proof {
            assert(self.instances@.take(self.instances@.len() as int) =~= self.instances@);
        }
        acc
    }
}

} // verus!
