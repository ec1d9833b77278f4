use vstd::prelude::*;

verus! {

/// A client session. It is bound to exactly one pipeline instance for
/// its entire lifetime; a new stream request creates a new session. A
/// closed session keeps its record with `active == false`, so its handle
/// is never reused and closing it again is a no-op.
#[derive(Debug)]
pub struct ClientSession {
    pub mount_path: String,
    /// Handle of the bound pipeline instance: its index in the instance table.
    pub instance: usize,
    pub active: bool,
}

/// Tracks the client sessions of one server. A session handle is the
/// index of its record in `sessions`; the table only grows.
#[derive(Debug)]
pub struct SessionManager {
    pub sessions: Vec<ClientSession>,
}

/// 1 when `s` is an active session bound to instance `n`, else 0.
pub open spec fn session_contrib(s: ClientSession, n: int) -> nat {
    if s.active && s.instance == n {
        1nat
    } else {
        0nat
    }
}

/// How many sessions of `ss` are active and bound to instance `n`. This
/// is what a live instance's `ref_count` equals at every point of rest.
pub open spec fn bound_count(ss: Seq<ClientSession>, n: int) -> nat
    decreases ss.len(),
{
    if ss.len() == 0 {
        0nat
    } else {
        bound_count(ss.drop_last(), n) + session_contrib(ss.last(), n)
    }
}

/// 1 when `s` is active, else 0.
pub open spec fn active_contrib(s: ClientSession) -> nat {
    if s.active {
        1nat
    } else {
        0nat
    }
}

/// How many sessions of `ss` are active.
pub open spec fn active_count(ss: Seq<ClientSession>) -> nat
    decreases ss.len(),
{
    if ss.len() == 0 {
        0nat
    } else {
        active_count(ss.drop_last()) + active_contrib(ss.last())
    }
}

pub proof fn lemma_bound_count_push(ss: Seq<ClientSession>, x: ClientSession, n: int)
    ensures
        bound_count(ss.push(x), n) == bound_count(ss, n) + session_contrib(x, n),
{
    assert(ss.push(x).drop_last() =~= ss);
}

pub proof fn lemma_bound_count_update(ss: Seq<ClientSession>, k: int, x: ClientSession, n: int)
    requires
        0 <= k < ss.len(),
    ensures
        bound_count(ss.update(k, x), n) == bound_count(ss, n) - session_contrib(ss[k], n)
            + session_contrib(x, n),
    decreases ss.len(),
{
    let t = ss.update(k, x);
    if k == ss.len() - 1 {
        assert(t.drop_last() =~= ss.drop_last());
    } else {
        assert(t.drop_last() =~= ss.drop_last().update(k, x));
        lemma_bound_count_update(ss.drop_last(), k, x, n);
    }
}

pub proof fn lemma_bound_count_le_len(ss: Seq<ClientSession>, n: int)
    ensures
        bound_count(ss, n) <= ss.len(),
    decreases ss.len(),
{
    if ss.len() > 0 {
        lemma_bound_count_le_len(ss.drop_last(), n);
    }
}

/// No session of `ss` is active and bound to `n`, so the count is zero.
pub proof fn lemma_bound_count_zero(ss: Seq<ClientSession>, n: int)
    requires
        forall|k: int| 0 <= k < ss.len() ==> !(ss[k].active && ss[k].instance == n),
    ensures
        bound_count(ss, n) == 0,
    decreases ss.len(),
{
    if ss.len() > 0 {
        lemma_bound_count_zero(ss.drop_last(), n);
    }
}

/// Two session tables whose entries contribute alike to instance `n`
/// have the same count for it.
pub proof fn lemma_bound_count_pointwise(ss1: Seq<ClientSession>, ss2: Seq<ClientSession>, n: int)
    requires
        ss1.len() == ss2.len(),
        forall|k: int| 0 <= k < ss1.len() ==> session_contrib(ss1[k], n) == session_contrib(ss2[k], n),
    ensures
        bound_count(ss1, n) == bound_count(ss2, n),
    decreases ss1.len(),
{
    if ss1.len() > 0 {
        lemma_bound_count_pointwise(ss1.drop_last(), ss2.drop_last(), n);
        assert(session_contrib(ss1[ss1.len() - 1], n) == session_contrib(ss2[ss2.len() - 1], n));
    }
}

/// A positive count names a witness: some session is active and bound to `n`.
pub proof fn lemma_bound_count_pos(ss: Seq<ClientSession>, n: int)
    requires
        bound_count(ss, n) > 0,
    ensures
        exists|k: int| 0 <= k < ss.len() && ss[k].active && ss[k].instance == n,
    decreases ss.len(),
{
    if session_contrib(ss.last(), n) == 1 {
        assert(ss[ss.len() - 1].active && ss[ss.len() - 1].instance == n);
    } else {
        lemma_bound_count_pos(ss.drop_last(), n);
    }
}

/// One active session bound to `n` makes the count at least one.
pub proof fn lemma_bound_count_at_least_one(ss: Seq<ClientSession>, k: int, n: int)
    requires
        0 <= k < ss.len(),
        ss[k].active,
        ss[k].instance == n,
    ensures
        bound_count(ss, n) >= 1,
    decreases ss.len(),
{
    if k < ss.len() - 1 {
        lemma_bound_count_at_least_one(ss.drop_last(), k, n);
    }
}

/// Two distinct active sessions bound to `n` make the count at least two.
pub proof fn lemma_bound_count_at_least_two(ss: Seq<ClientSession>, k1: int, k2: int, n: int)
    requires
        0 <= k1 < ss.len(),
        0 <= k2 < ss.len(),
        k1 != k2,
        ss[k1].active && ss[k1].instance == n,
        ss[k2].active && ss[k2].instance == n,
    ensures
        bound_count(ss, n) >= 2,
    decreases ss.len(),
{
    let m = ss.len() - 1;
    if k1 == m {
        lemma_bound_count_at_least_one(ss.drop_last(), k2, n);
    } else if k2 == m {
        lemma_bound_count_at_least_one(ss.drop_last(), k1, n);
    } else {
        lemma_bound_count_at_least_two(ss.drop_last(), k1, k2, n);
    }
}

/// `post` is `pre` with every session closed: the same sessions with
/// the same bindings, none of them active any more.
pub open spec fn sessions_all_closed_of(pre: Seq<ClientSession>, post: Seq<ClientSession>) -> bool {
    &&& post.len() == pre.len()
    &&& forall|k: int|
        0 <= k < pre.len() ==> {
            &&& !(#[trigger] post[k]).active
            &&& post[k].instance == pre[k].instance
            &&& post[k].mount_path == pre[k].mount_path
        }
}

impl SessionManager {
    /// A fresh manager tracking no sessions.
    pub fn new() -> (m: Self)
        ensures
            m.sessions@ =~= Seq::<ClientSession>::empty(),
    {
        SessionManager { sessions: Vec::new() }
    }

    /// Whether any active session is bound to mount path `p`. Used to
    /// refuse `unregister` and duplicate registration while a mount is
    /// in use.
    pub fn has_active_on(&self, p: &String) -> (r: bool)
        ensures
            r == exists|k: int|
                0 <= k < self.sessions@.len() && self.sessions@[k].active
                    && self.sessions@[k].mount_path@ == p@,
    {
        let mut i: usize = 0;
        while i < self.sessions.len()
            invariant
                i <= self.sessions@.len(),
                forall|k: int|
                    0 <= k < i ==> !(self.sessions@[k].active && self.sessions@[k].mount_path@
                        == p@),
            decreases self.sessions@.len() - i,
        {
            if self.sessions[i].active && self.sessions[i].mount_path == *p {
                return true;
            }
            i = i + 1;
        }
        false
    }

    /// Whether `handle` names a session that is still open.
    pub fn is_active(&self, handle: usize) -> (r: bool)
        ensures
            r == (handle < self.sessions@.len() && self.sessions@[handle as int].active),
    {
        handle < self.sessions.len() && self.sessions[handle].active
    }

    /// The instance the session behind `handle` is bound to; `None` for
    /// a handle never issued. The binding outlives the session's close.
    pub fn instance_of(&self, handle: usize) -> (r: Option<usize>)
        ensures
            match r {
                Some(n) => handle < self.sessions@.len() && n == self.sessions@[handle as int].instance,
                None => handle >= self.sessions@.len(),
            },
    {
        if handle < self.sessions.len() {
            Some(self.sessions[handle].instance)
        } else {
            None
        }
    }

    /// How many sessions are currently active.
    pub fn active_sessions(&self) -> (r: usize)
        ensures
            r == active_count(self.sessions@),
    {
        let mut i: usize = 0;
        let mut acc: usize = 0;
        while i < self.sessions.len()
            invariant
                i <= self.sessions@.len(),
                acc == active_count(self.sessions@.take(i as int)),
                acc <= i,
            decreases self.sessions@.len() - i,
        {
            proof {
                assert(self.sessions@.take(i + 1).drop_last() =~= self.sessions@.take(i as int));
                assert(self.sessions@.take(i + 1).last() == self.sessions@[i as int]);
            }
            if self.sessions[i].active {
                acc = acc + 1;
            }
            i = i + 1;
        }
        proof {
            assert(self.sessions@.take(self.sessions@.len() as int) =~= self.sessions@);
        }
        acc
    }
}

} // verus!
