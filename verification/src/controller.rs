use crate::instance::{
    has_live_shared, instances_all_stopped_of, lemma_stopped_count_full, live, stopped_count,
    InstanceTable, PipelineInstance,
};
use crate::registry::{has_path, idx_of, insert_one, load_templates, template_at, MountRegistry};
use crate::session::{
    bound_count, lemma_bound_count_at_least_one, lemma_bound_count_at_least_two,
    lemma_bound_count_le_len, lemma_bound_count_pos, lemma_bound_count_push,
    lemma_bound_count_update, lemma_bound_count_zero, sessions_all_closed_of, ClientSession,
    SessionManager,
};
use crate::types::{
    BindOutcome, ControllerError, EngineError, EngineVerdict, InstanceState, PipelineTemplate,
    RegistryError, RunState, SessionError, Sharing,
};
use vstd::prelude::*;

verus! {

/// A template the server may load: its description is non-empty and the
/// external executor accepted it when asked to validate.
pub open spec fn template_valid(t: PipelineTemplate, v: EngineVerdict) -> bool {
    t.description@.len() > 0 && v is Accepted
}

/// The top-level orchestrator. It owns the mount registry, the session
/// table and the instance table, and runs the server-wide
/// `Idle -> Running -> Stopping -> Idle` lifecycle. All mutation goes
/// through its methods, which model the single dispatch loop thread:
/// exactly one mutator, so no further synchronization is required.
#[derive(Debug)]
pub struct ServerController {
    pub run_state: RunState,
    pub listen_port: u16,
    pub registry: MountRegistry,
    pub sessions: SessionManager,
    pub instances: InstanceTable,
}

impl ServerController {
    /// Every active session is bound to a live instance serving the
    /// session's own mount path.
    pub open spec fn sessions_ok(self) -> bool {
        forall|k: int|
            0 <= k < self.sessions.sessions@.len() && (#[trigger] self.sessions.sessions@[k]).active
                ==> {
                let s = self.sessions.sessions@[k];
                &&& s.instance < self.instances.instances@.len()
                &&& live(self.instances.instances@[s.instance as int])
                &&& self.instances.instances@[s.instance as int].mount_path@ == s.mount_path@
            }
    }

    /// Every instance's `ref_count` is exactly the number of active
    /// sessions bound to it.
    pub open spec fn refcounts_ok(self) -> bool {
        forall|n: int|
            0 <= n < self.instances.instances@.len()
                ==> (#[trigger] self.instances.instances@[n]).ref_count == bound_count(
                self.sessions.sessions@,
                n,
            )
    }

    /// Instances at rest are `Running` or `Stopped`; a live instance has
    /// at least one session; a per-client instance never has more than
    /// one; and a mount path has at most one live shared instance.
    pub open spec fn instances_ok(self) -> bool {
        let is = self.instances.instances@;
        &&& forall|n: int|
            0 <= n < is.len() ==> ((#[trigger] is[n]).state is Running || is[n].state is Stopped)
        &&& forall|n: int| 0 <= n < is.len() && live(#[trigger] is[n]) ==> is[n].ref_count >= 1
        &&& forall|n: int|
            0 <= n < is.len() && (#[trigger] is[n]).sharing is PerClient ==> is[n].ref_count <= 1
        &&& forall|n: int, m: int|
            0 <= n < m < is.len() && live(#[trigger] is[n]) && live(#[trigger] is[m]) && is[n].sharing
                is Shared && is[m].sharing is Shared ==> is[n].mount_path@ != is[m].mount_path@
    }

    /// While the controller is idle no session is active and no instance
    /// is live: `stop` tears everything down before reaching `Idle`.
    pub open spec fn idle_quiescent(self) -> bool {
        self.run_state is Idle ==> {
            &&& forall|k: int|
                0 <= k < self.sessions.sessions@.len()
                    ==> !(#[trigger] self.sessions.sessions@[k]).active
            &&& forall|n: int|
                0 <= n < self.instances.instances@.len() ==> !live(
                    #[trigger] self.instances.instances@[n],
                )
        }
    }

    /// The controller's invariant: established by `new` and preserved by
    /// every operation.
    pub open spec fn wf(self) -> bool {
        &&& self.registry.wf()
        &&& self.sessions_ok()
        &&& self.refcounts_ok()
        &&& self.instances_ok()
        &&& self.idle_quiescent()
    }

    /// Whether a template is registered under mount path `p`.
    pub open spec fn is_registered(self, p: Seq<char>) -> bool {
        has_path(self.registry.entries@, p)
    }

    /// Whether some active session is bound to mount path `p`.
    pub open spec fn mount_in_use(self, p: Seq<char>) -> bool {
        exists|k: int|
            0 <= k < self.sessions.sessions@.len() && self.sessions.sessions@[k].active
                && self.sessions.sessions@[k].mount_path@ == p
    }

    /// A fresh, idle controller: nothing registered, no sessions, no
    /// instances, no engine call made yet.
    pub fn new() -> (c: Self)
        ensures
            c.wf(),
            c.run_state is Idle,
            c.listen_port == 0,
            c.registry.entries@ =~= Seq::<PipelineTemplate>::empty(),
            c.sessions.sessions@ =~= Seq::<ClientSession>::empty(),
            c.instances.instances@ =~= Seq::<PipelineInstance>::empty(),
    {
        ServerController {
            run_state: RunState::Idle,
            listen_port: 0,
            registry: MountRegistry::new(),
            sessions: SessionManager::new(),
            instances: InstanceTable::new(),
        }
    }

    /// Register `template` under its mount path. `validation` is the
    /// external executor's verdict on the description, obtained at
    /// registration time so that an invalid description fails here and
    /// not at first use. Fails with `DuplicateMount` when the path is
    /// registered and in use by sessions; with `ValidationFailed` when
    /// the description is empty or the executor rejected it; otherwise
    /// inserts, replacing any inactive prior entry.
    pub fn register(&mut self, template: PipelineTemplate, validation: EngineVerdict) -> (r:
        Result<(), RegistryError>)
        requires
            old(self).wf(),
        ensures
            final(self).wf(),
            final(self).run_state == old(self).run_state,
            final(self).listen_port == old(self).listen_port,
            final(self).sessions == old(self).sessions,
            final(self).instances == old(self).instances,
            r is Err ==> final(self).registry == old(self).registry,
            (old(self).is_registered(template.mount_path@) && old(self).mount_in_use(
                template.mount_path@,
            )) <==> r == Err::<(), RegistryError>(RegistryError::DuplicateMount),
            !(r == Err::<(), RegistryError>(RegistryError::DuplicateMount)) ==> {
                &&& template.description@.len() == 0 ==> (r matches Err(
                    RegistryError::ValidationFailed(_),
                ))
                &&& template.description@.len() > 0 ==> (validation matches EngineVerdict::Rejected(
                    reason,
                ) ==> r == Err::<(), RegistryError>(RegistryError::ValidationFailed(reason)))
                &&& (template.description@.len() > 0 && validation is Accepted) ==> {
                    &&& r is Ok
                    &&& final(self).registry.entries@ == insert_one(
                        old(self).registry.entries@,
                        template,
                    )
                }
            },
    {
        if self.registry.find(&template.mount_path).is_some() && self.sessions.has_active_on(
            &template.mount_path,
        ) {
            return Err(RegistryError::DuplicateMount);
        }
        if template.description.as_str().is_empty() {
            return Err(RegistryError::ValidationFailed("empty description".to_owned()));
        }
        match validation {
            EngineVerdict::Rejected(reason) => Err(RegistryError::ValidationFailed(reason)),
            EngineVerdict::Accepted => {
                self.registry.insert(template);
                Ok(())
            },
        }
    }

    /// Remove the template registered under `path`. Fails with
    /// `MountInUse` while any session is bound to that mount; otherwise
    /// removes the entry (an unknown path is a no-op) — and by then the
    /// mount's shared instance, if it ever existed, has already been
    /// torn down, since a live instance always has a session.
    pub fn unregister(&mut self, path: &str) -> (r: Result<(), RegistryError>)
        requires
            old(self).wf(),
        ensures
            final(self).wf(),
            final(self).run_state == old(self).run_state,
            final(self).listen_port == old(self).listen_port,
            final(self).sessions == old(self).sessions,
            final(self).instances == old(self).instances,
            old(self).mount_in_use(path@) <==> r == Err::<(), RegistryError>(
                RegistryError::MountInUse,
            ),
            !old(self).mount_in_use(path@) ==> r is Ok,
            r is Err ==> *final(self) == *old(self),
            r is Ok ==> {
                &&& !final(self).is_registered(path@)
                &&& !has_live_shared(final(self).instances.instances@, path@)
                &&& old(self).is_registered(path@) ==> final(self).registry.entries@ == old(
                    self,
                ).registry.entries@.remove(idx_of(old(self).registry.entries@, path@))
                &&& !old(self).is_registered(path@) ==> final(self).registry == old(self).registry
            },
    {
        let p: String = path.to_owned();
        if self.sessions.has_active_on(&p) {
            return Err(RegistryError::MountInUse);
        }
        proof {
            if has_live_shared(self.instances.instances@, p@) {
                let n = choose|n: int|
                    0 <= n < self.instances.instances@.len() && live(self.instances.instances@[n])
                        && self.instances.instances@[n].sharing is Shared
                        && self.instances.instances@[n].mount_path@ == p@;
                assert(bound_count(self.sessions.sessions@, n) >= 1);
                lemma_bound_count_pos(self.sessions.sessions@, n);
            }
        }
        self.registry.remove_path(&p);
        Ok(())
    }

    /// The index of the live shared instance serving mount path `p`;
    /// meaningful when `has_live_shared` holds, unique under `wf`.
    pub open spec fn live_shared_idx(self, p: Seq<char>) -> int {
        choose|n: int|
            0 <= n < self.instances.instances@.len() && live(self.instances.instances@[n])
                && self.instances.instances@[n].sharing is Shared
                && self.instances.instances@[n].mount_path@ == p
    }

    /// Under `wf`, any live shared instance serving `p` is the
    /// `live_shared_idx` one: a shared mount never has two.
    pub proof fn lemma_live_shared_unique(self, p: Seq<char>, n: int)
        requires
            self.wf(),
            0 <= n < self.instances.instances@.len(),
            live(self.instances.instances@[n]),
            self.instances.instances@[n].sharing is Shared,
            self.instances.instances@[n].mount_path@ == p,
        ensures
            has_live_shared(self.instances.instances@, p),
            self.live_shared_idx(p) == n,
    {
        assert(has_live_shared(self.instances.instances@, p));
        let m = self.live_shared_idx(p);
        let is = self.instances.instances@;
        assert(0 <= m < is.len() && live(is[m]) && is[m].sharing is Shared && is[m].mount_path@
            == p);
        if n < m {
            assert(is[n].mount_path@ != is[m].mount_path@);
        } else if m < n {
            assert(is[m].mount_path@ != is[n].mount_path@);
        }
    }

    /// Open a session on `path`: resolve the mount, then — per the
    /// template's sharing policy — attach to the existing live shared
    /// instance, or have the external executor instantiate a new one.
    /// `engine` is the executor's verdict on that instantiation; it is
    /// consulted only when a new instance is needed, and an engine
    /// failure is surfaced to this caller alone, with no session
    /// created. The returned handle is the new session's index.
    pub fn open_session(&mut self, path: &str, engine: EngineVerdict) -> (r: Result<
        usize,
        SessionError,
    >)
        requires
            old(self).wf(),
            old(self).run_state is Running,
        ensures
            final(self).wf(),
            final(self).run_state == old(self).run_state,
            final(self).listen_port == old(self).listen_port,
            final(self).registry == old(self).registry,
            !old(self).is_registered(path@) <==> r == Err::<usize, SessionError>(
                SessionError::MountNotFound,
            ),
            r == Err::<usize, SessionError>(SessionError::MountNotFound) ==> *final(self) == *old(
                self,
            ),
            old(self).is_registered(path@) ==> ({
                let t = template_at(old(self).registry.entries@, path@);
                let ss0 = old(self).sessions.sessions@;
                let is0 = old(self).instances.instances@;
                let reuse = t.sharing is Shared && has_live_shared(is0, path@);
                &&& reuse ==> ({
                    let n = old(self).live_shared_idx(path@);
                    &&& r == Ok::<usize, SessionError>(ss0.len() as usize)
                    &&& final(self).sessions.sessions@.len() == ss0.len() + 1
                    &&& (forall|k: int|
                        0 <= k < ss0.len() ==> final(self).sessions.sessions@[k] == ss0[k])
                    &&& final(self).sessions.sessions@.last().active
                    &&& final(self).sessions.sessions@.last().instance == n
                    &&& final(self).sessions.sessions@.last().mount_path@ == path@
                    &&& final(self).instances.instances@.len() == is0.len()
                    &&& (forall|m: int|
                        0 <= m < is0.len() && m != n ==> final(self).instances.instances@[m]
                            == is0[m])
                    &&& final(self).instances.instances@[n].ref_count == is0[n].ref_count + 1
                    &&& final(self).instances.instances@[n].state == is0[n].state
                    &&& final(self).instances.instances@[n].sharing == is0[n].sharing
                    &&& final(self).instances.instances@[n].mount_path == is0[n].mount_path
                })
                &&& !reuse ==> {
                    &&& (engine matches EngineVerdict::Rejected(reason) ==> {
                        &&& r == Err::<usize, SessionError>(
                            SessionError::EngineError(EngineError::InstantiationFailed(reason)),
                        )
                        &&& *final(self) == *old(self)
                    })
                    &&& engine is Accepted ==> {
                        &&& r == Ok::<usize, SessionError>(ss0.len() as usize)
                        &&& final(self).instances.instances@.len() == is0.len() + 1
                        &&& (forall|m: int|
                            0 <= m < is0.len() ==> final(self).instances.instances@[m] == is0[m])
                        &&& final(self).instances.instances@.last().mount_path@ == path@
                        &&& final(self).instances.instances@.last().sharing == t.sharing
                        &&& final(self).instances.instances@.last().state is Running
                        &&& final(self).instances.instances@.last().ref_count == 1
                        &&& final(self).sessions.sessions@.len() == ss0.len() + 1
                        &&& (forall|k: int|
                            0 <= k < ss0.len() ==> final(self).sessions.sessions@[k] == ss0[k])
                        &&& final(self).sessions.sessions@.last().active
                        &&& final(self).sessions.sessions@.last().instance == is0.len()
                        &&& final(self).sessions.sessions@.last().mount_path@ == path@
                    }
                }
            }),
    {
        let p: String = path.to_owned();
        let ri = match self.registry.find(&p) {
            None => {
                return Err(SessionError::MountNotFound);
            },
            Some(i) => i,
        };
        proof {
            self.registry.lemma_idx_unique(p@, ri as int);
        }
        let sharing = self.registry.entries[ri].sharing;
        if sharing == Sharing::Shared {
            match self.instances.find_live_shared(&p) {
                Some(n) => {
                    proof {
                        self.lemma_live_shared_unique(p@, n as int);
                    }
                    let ghost ss0 = self.sessions.sessions@;
                    let h = self.sessions.sessions.len();
                    self.sessions.sessions.push(
                        ClientSession { mount_path: p, instance: n, active: true },
                    );
                    let len_after = self.sessions.sessions.len();
                    proof {
                        let x = self.sessions.sessions@.last();
                        assert forall|m: int|
                            bound_count(self.sessions.sessions@, m) == bound_count(ss0, m)
                                + crate::session::session_contrib(x, m) by {
                            lemma_bound_count_push(ss0, x, m);
                        }
                        lemma_bound_count_le_len(self.sessions.sessions@, n as int);
                        assert(len_after as nat == self.sessions.sessions@.len());
                    }
                    self.instances.instances[n].ref_count = self.instances.instances[n].ref_count
                        + 1;
                    return Ok(h);
                },
                None => {
                },
            }
        }
        // No live shared instance serves this mount (or the policy is
        // per-client): the executor must instantiate the description.
        match engine {
            EngineVerdict::Rejected(reason) => Err(
                SessionError::EngineError(EngineError::InstantiationFailed(reason)),
            ),
            EngineVerdict::Accepted => {
                let n = self.instances.instances.len();
                let mut inst = PipelineInstance {
                    mount_path: p.clone(),
                    sharing,
                    state: InstanceState::Created,
                    ref_count: 1,
                };
                inst.state = InstanceState::Running;
                let ghost is0 = self.instances.instances@;
                let ghost ss0 = self.sessions.sessions@;
                self.instances.instances.push(inst);
                let h = self.sessions.sessions.len();
                self.sessions.sessions.push(
                    ClientSession { mount_path: p, instance: n, active: true },
                );
                proof {
                    let x = self.sessions.sessions@.last();
                    assert forall|m: int|
                        bound_count(self.sessions.sessions@, m) == bound_count(ss0, m)
                            + crate::session::session_contrib(x, m) by {
                        lemma_bound_count_push(ss0, x, m);
                    }
                    lemma_bound_count_zero(ss0, n as int);
                }
                Ok(h)
            },
        }
    }

    /// Close the session behind `handle`: remove it from tracking and
    /// release its bound instance — the instance's reference count drops
    /// by one, and on reaching zero the instance is torn down exactly
    /// once. Idempotent: an unknown or already-closed handle is a no-op,
    /// not an error.
    pub fn close_session(&mut self, handle: usize)
        requires
            old(self).wf(),
        ensures
            final(self).wf(),
            final(self).run_state == old(self).run_state,
            final(self).listen_port == old(self).listen_port,
            final(self).registry == old(self).registry,
            (handle >= old(self).sessions.sessions@.len() || !old(
                self,
            ).sessions.sessions@[handle as int].active) ==> *final(self) == *old(self),
            (handle < old(self).sessions.sessions@.len() && old(
                self,
            ).sessions.sessions@[handle as int].active) ==> ({
                let ss0 = old(self).sessions.sessions@;
                let is0 = old(self).instances.instances@;
                let n = ss0[handle as int].instance as int;
                let released = is0[n].ref_count == 1;
                &&& final(self).sessions.sessions@.len() == ss0.len()
                &&& (forall|k: int|
                    0 <= k < ss0.len() && k != handle ==> final(self).sessions.sessions@[k]
                        == ss0[k])
                &&& !final(self).sessions.sessions@[handle as int].active
                &&& final(self).sessions.sessions@[handle as int].instance == ss0[handle as int].instance
                &&& final(self).sessions.sessions@[handle as int].mount_path == ss0[handle as int].mount_path
                &&& final(self).instances.instances@.len() == is0.len()
                &&& (forall|m: int|
                    0 <= m < is0.len() && m != n ==> final(self).instances.instances@[m] == is0[m])
                &&& final(self).instances.instances@[n].mount_path == is0[n].mount_path
                &&& final(self).instances.instances@[n].sharing == is0[n].sharing
                &&& final(self).instances.instances@[n].ref_count == is0[n].ref_count - 1
                &&& (released ==> final(self).instances.instances@[n].state is Stopped)
                &&& (!released ==> final(self).instances.instances@[n].state == is0[n].state)
                &&& stopped_count(final(self).instances.instances@) == stopped_count(is0) + (
                if released {
                    1nat
                } else {
                    0nat
                })
            }),
    {
        if handle < self.sessions.sessions.len() {
            if self.sessions.sessions[handle].active {
                let n = self.sessions.sessions[handle].instance;
                let ghost ss0 = self.sessions.sessions@;
                let ghost is0 = self.instances.instances@;
                self.sessions.sessions[handle].active = false;
                proof {
                    let x = self.sessions.sessions@[handle as int];
                    assert forall|m: int|
                        bound_count(self.sessions.sessions@, m) == bound_count(ss0, m)
                            - crate::session::session_contrib(ss0[handle as int], m)
                            + crate::session::session_contrib(x, m) by {
                        lemma_bound_count_update(ss0, handle as int, x, m);
                    }
                    lemma_bound_count_at_least_one(ss0, handle as int, n as int);
                    if is0[n as int].ref_count == 1 {
                        assert forall|k: int|
                            0 <= k < self.sessions.sessions@.len()
                                && self.sessions.sessions@[k].active implies self.sessions.sessions@[k].instance
                            != n by {
                            if k != handle && ss0[k].active && ss0[k].instance == n {
                                lemma_bound_count_at_least_two(ss0, k, handle as int, n as int);
                            }
                        }
                    }
                }
                let rc = self.instances.instances[n].ref_count;
                if rc == 1 {
                    self.instances.instances[n].state = InstanceState::Stopped;
                    self.instances.instances[n].ref_count = 0;
                } else {
                    self.instances.instances[n].ref_count = rc - 1;
                }
                proof {
                    assert(self.instances.instances@ =~= is0.update(
                        n as int,
                        self.instances.instances@[n as int],
                    ));
                    crate::instance::lemma_stopped_count_update(
                        is0,
                        n as int,
                        self.instances.instances@[n as int],
                    );
                }
            }
        }
    }

    /// Close every tracked session, in table order (the order is
    /// immaterial: each release is independent), then release the
    /// instances they held. Every live instance has at least one
    /// session, so after the last release no instance is left live:
    /// each one is torn down exactly once, the already-stopped ones not
    /// again.
    pub fn close_all(&mut self)
        requires
            old(self).wf(),
        ensures
            final(self).wf(),
            final(self).run_state == old(self).run_state,
            final(self).listen_port == old(self).listen_port,
            final(self).registry == old(self).registry,
            sessions_all_closed_of(old(self).sessions.sessions@, final(self).sessions.sessions@),
            instances_all_stopped_of(
                old(self).instances.instances@,
                final(self).instances.instances@,
            ),
            stopped_count(final(self).instances.instances@)
                == final(self).instances.instances@.len(),
    {
        let mut k: usize = 0;
        while k < self.sessions.sessions.len()
            invariant
                self.run_state == old(self).run_state,
                self.listen_port == old(self).listen_port,
                self.registry == old(self).registry,
                self.instances == old(self).instances,
                k <= self.sessions.sessions@.len(),
                self.sessions.sessions@.len() == old(self).sessions.sessions@.len(),
                forall|j: int|
                    0 <= j < k ==> {
                        &&& !(#[trigger] self.sessions.sessions@[j]).active
                        &&& self.sessions.sessions@[j].instance == old(
                            self,
                        ).sessions.sessions@[j].instance
                        &&& self.sessions.sessions@[j].mount_path == old(
                            self,
                        ).sessions.sessions@[j].mount_path
                    },
                forall|j: int|
                    k <= j < self.sessions.sessions@.len() ==> self.sessions.sessions@[j] == old(
                        self,
                    ).sessions.sessions@[j],
            decreases self.sessions.sessions@.len() - k,
        {
            self.sessions.sessions[k].active = false;
            k = k + 1;
        }
        proof {
            // an instance that was already stopped holds no session, so
            // its reference count was already zero
            assert forall|j: int|
                0 <= j < self.instances.instances@.len() && self.instances.instances@[j].state
                    is Stopped implies self.instances.instances@[j].ref_count == 0 by {
                lemma_bound_count_zero(old(self).sessions.sessions@, j);
            }
        }
        let ghost mid = *self;
        let mut n: usize = 0;
        while n < self.instances.instances.len()
            invariant
                self.run_state == mid.run_state,
                self.listen_port == mid.listen_port,
                self.registry == mid.registry,
                self.sessions == mid.sessions,
                n <= self.instances.instances@.len(),
                self.instances.instances@.len() == mid.instances.instances@.len(),
                forall|j: int|
                    0 <= j < mid.instances.instances@.len() ==> (
                    mid.instances.instances@[j].state is Running
                        || mid.instances.instances@[j].state is Stopped),
                forall|j: int|
                    0 <= j < mid.instances.instances@.len()
                        && mid.instances.instances@[j].state is Stopped
                        ==> mid.instances.instances@[j].ref_count == 0,
                forall|j: int|
                    0 <= j < n ==> {
                        &&& (#[trigger] self.instances.instances@[j]).state is Stopped
                        &&& self.instances.instances@[j].ref_count == 0
                        &&& self.instances.instances@[j].mount_path
                            == mid.instances.instances@[j].mount_path
                        &&& self.instances.instances@[j].sharing
                            == mid.instances.instances@[j].sharing
                        &&& (mid.instances.instances@[j].state is Stopped
                            ==> self.instances.instances@[j] == mid.instances.instances@[j])
                    },
                forall|j: int|
                    n <= j < self.instances.instances@.len() ==> self.instances.instances@[j]
                        == mid.instances.instances@[j],
            decreases self.instances.instances@.len() - n,
        {
            if self.instances.instances[n].state == InstanceState::Running {
                self.instances.instances[n].state = InstanceState::Stopped;
                self.instances.instances[n].ref_count = 0;
            }
            n = n + 1;
        }
        proof {
            assert forall|m: int| bound_count(self.sessions.sessions@, m) == 0 by {
                lemma_bound_count_zero(self.sessions.sessions@, m);
            }
            lemma_stopped_count_full(self.instances.instances@);
        }
    }

    /// Tear down the instance behind `handle` regardless of its
    /// reference count, for a shutdown policy that cannot wait for the
    /// last detach. All outstanding handles on it become invalid: its
    /// sessions are closed first, so no session is ever left referencing
    /// a torn-down instance, and then the instance is stopped. A handle
    /// never issued, or one already stopped, sends the executor no
    /// (second) teardown call.
    pub fn force_stop(&mut self, handle: usize)
        requires
            old(self).wf(),
        ensures
            final(self).wf(),
            final(self).run_state == old(self).run_state,
            final(self).listen_port == old(self).listen_port,
            final(self).registry == old(self).registry,
            handle >= old(self).instances.instances@.len() ==> *final(self) == *old(self),
            handle < old(self).instances.instances@.len() ==> ({
                let ss0 = old(self).sessions.sessions@;
                let is0 = old(self).instances.instances@;
                &&& final(self).sessions.sessions@.len() == ss0.len()
                &&& (forall|k: int|
                    0 <= k < ss0.len() && ss0[k].instance != handle
                        ==> final(self).sessions.sessions@[k] == ss0[k])
                &&& (forall|k: int|
                    0 <= k < ss0.len() && ss0[k].instance == handle ==> {
                        &&& !(#[trigger] final(self).sessions.sessions@[k]).active
                        &&& final(self).sessions.sessions@[k].instance == ss0[k].instance
                        &&& final(self).sessions.sessions@[k].mount_path == ss0[k].mount_path
                    })
                &&& final(self).instances.instances@.len() == is0.len()
                &&& (forall|m: int|
                    0 <= m < is0.len() && m != handle ==> final(self).instances.instances@[m]
                        == is0[m])
                &&& final(self).instances.instances@[handle as int].state is Stopped
                &&& final(self).instances.instances@[handle as int].ref_count == 0
                &&& final(self).instances.instances@[handle as int].mount_path == is0[handle as int].mount_path
                &&& final(self).instances.instances@[handle as int].sharing == is0[handle as int].sharing
                &&& stopped_count(final(self).instances.instances@) == stopped_count(is0) + (
                if is0[handle as int].state is Stopped {
                    0nat
                } else {
                    1nat
                })
            }),
    {
        if handle >= self.instances.instances.len() {
            return ;
        }
        // close every session that still holds this instance
        let mut k: usize = 0;
        while k < self.sessions.sessions.len()
            invariant
                old(self).wf(),
                handle < old(self).instances.instances@.len(),
                self.run_state == old(self).run_state,
                self.listen_port == old(self).listen_port,
                self.registry == old(self).registry,
                self.instances == old(self).instances,
                k <= self.sessions.sessions@.len(),
                self.sessions.sessions@.len() == old(self).sessions.sessions@.len(),
                forall|j: int|
                    0 <= j < k && old(self).sessions.sessions@[j].instance == handle ==> {
                        &&& !(#[trigger] self.sessions.sessions@[j]).active
                        &&& self.sessions.sessions@[j].instance
                            == old(self).sessions.sessions@[j].instance
                        &&& self.sessions.sessions@[j].mount_path
                            == old(self).sessions.sessions@[j].mount_path
                    },
                forall|j: int|
                    0 <= j < k && old(self).sessions.sessions@[j].instance != handle
                        ==> self.sessions.sessions@[j] == old(self).sessions.sessions@[j],
                forall|j: int|
                    k <= j < self.sessions.sessions@.len() ==> self.sessions.sessions@[j]
                        == old(self).sessions.sessions@[j],
            decreases self.sessions.sessions@.len() - k,
        {
            if self.sessions.sessions[k].instance == handle {
                self.sessions.sessions[k].active = false;
            }
            k = k + 1;
        }
        proof {
            // other instances keep their counts; this one's drops to zero
            assert forall|m: int|
                0 <= m < self.instances.instances@.len() && m != handle implies bound_count(
                self.sessions.sessions@,
                m,
            ) == bound_count(old(self).sessions.sessions@, m) by {
                crate::session::lemma_bound_count_pointwise(
                    self.sessions.sessions@,
                    old(self).sessions.sessions@,
                    m,
                );
            }
            lemma_bound_count_zero(self.sessions.sessions@, handle as int);
        }
        let ghost is0 = self.instances.instances@;
        if self.instances.instances[handle].state == InstanceState::Running {
            self.instances.instances[handle].state = InstanceState::Stopped;
        }
        self.instances.instances[handle].ref_count = 0;
        proof {
            assert(self.instances.instances@ =~= is0.update(
                handle as int,
                self.instances.instances@[handle as int],
            ));
            crate::instance::lemma_stopped_count_update(
                is0,
                handle as int,
                self.instances.instances@[handle as int],
            );
        }
    }

    /// Stop the server. While `Running`, this runs the ordered shutdown
    /// sequence: signal the dispatch loop to exit, close every active
    /// session, then tear down every instance still up — strictly in
    /// that order, so no session ever references a torn-down instance —
    /// and return to `Idle`; the surrounding loop runner detaches the
    /// listening endpoint once this returns. Idempotent: a call while
    /// already `Idle` changes nothing, and in particular sends the
    /// executor no second teardown call.
    pub fn stop(&mut self)
        requires
            old(self).wf(),
        ensures
            final(self).wf(),
            final(self).run_state is Idle,
            final(self).listen_port == old(self).listen_port,
            final(self).registry == old(self).registry,
            old(self).run_state is Idle ==> *final(self) == *old(self),
            sessions_all_closed_of(old(self).sessions.sessions@, final(self).sessions.sessions@),
            instances_all_stopped_of(
                old(self).instances.instances@,
                final(self).instances.instances@,
            ),
            stopped_count(final(self).instances.instances@)
                == final(self).instances.instances@.len(),
    {
        match self.run_state {
            RunState::Idle => {
                proof {
                    assert forall|j: int|
                        0 <= j < self.instances.instances@.len() implies self.instances.instances@[j].ref_count
                        == 0 && self.instances.instances@[j].state is Stopped by {
                        lemma_bound_count_zero(self.sessions.sessions@, j);
                    }
                    lemma_stopped_count_full(self.instances.instances@);
                }
            },
            _ => {
                self.run_state = RunState::Stopping;
                self.close_all();
                self.run_state = RunState::Idle;
            },
        }
    }

    /// Start the server on `port` with the given template set.
    /// `verdicts[i]` is the external executor's validation verdict for
    /// `templates[i]`, and `bind` is the network collaborator's answer
    /// to binding the port; the surrounding loop runner obtains both and
    /// hands them in. Fails with `AlreadyRunning` unless idle; with
    /// `InvalidTemplate` on the first template whose description is
    /// empty or rejected, loading none (all-or-nothing); with
    /// `BindError` when the endpoint is unavailable. On success the
    /// registry holds exactly the given set (a later duplicate path
    /// replaces an earlier one) and the dispatch loop may run.
    pub fn start(
        &mut self,
        port: u16,
        templates: Vec<PipelineTemplate>,
        verdicts: Vec<EngineVerdict>,
        bind: BindOutcome,
    ) -> (r: Result<(), ControllerError>)
        requires
            old(self).wf(),
            templates@.len() == verdicts@.len(),
        ensures
            final(self).wf(),
            r == Err::<(), ControllerError>(ControllerError::AlreadyRunning) <==> !(old(
                self,
            ).run_state is Idle),
            !(old(self).run_state is Idle) ==> *final(self) == *old(self),
            old(self).run_state is Idle ==> {
                let all_valid = forall|i: int|
                    0 <= i < templates@.len() ==> template_valid(templates@[i], verdicts@[i]);
                &&& !all_valid ==> {
                    &&& *final(self) == *old(self)
                    &&& exists|i: int|
                        {
                            &&& 0 <= i < templates@.len()
                            &&& !template_valid(templates@[i], verdicts@[i])
                            &&& (forall|j: int|
                                0 <= j < i ==> template_valid(templates@[j], verdicts@[j]))
                            &&& (r matches Err(ControllerError::InvalidTemplate(mp, _))
                                && mp@ == templates@[i].mount_path@)
                            &&& (templates@[i].description@.len() > 0 ==> (
                            verdicts@[i] matches EngineVerdict::Rejected(re) ==> (
                            r matches Err(ControllerError::InvalidTemplate(_, reason))
                                && reason@ == re@)))
                        }
                }
                &&& (all_valid && bind is Refused) ==> {
                    &&& r == Err::<(), ControllerError>(ControllerError::BindError(port))
                    &&& *final(self) == *old(self)
                }
                &&& (all_valid && bind is Bound) ==> {
                    &&& r is Ok
                    &&& final(self).run_state is Running
                    &&& final(self).listen_port == port
                    &&& final(self).registry.entries@ == load_templates(templates@)
                    &&& final(self).sessions == old(self).sessions
                    &&& final(self).instances == old(self).instances
                }
            },
    {
        match self.run_state {
            RunState::Idle => {},
            _ => {
                return Err(ControllerError::AlreadyRunning);
            },
        }
        let mut i: usize = 0;
        while i < templates.len()
            invariant
                *self == *old(self),
                old(self).wf(),
                old(self).run_state is Idle,
                templates@.len() == verdicts@.len(),
                i <= templates@.len(),
                forall|j: int| 0 <= j < i ==> template_valid(templates@[j], verdicts@[j]),
            decreases templates@.len() - i,
        {
            if templates[i].description.as_str().is_empty() {
                proof {
                    assert(!template_valid(templates@[i as int], verdicts@[i as int]));
                }
                return Err(
                    ControllerError::InvalidTemplate(
                        templates[i].mount_path.clone(),
                        "empty description".to_owned(),
                    ),
                );
            }
            match &verdicts[i] {
                EngineVerdict::Rejected(re) => {
                    proof {
                        assert(!template_valid(templates@[i as int], verdicts@[i as int]));
                    }
                    return Err(
                        ControllerError::InvalidTemplate(templates[i].mount_path.clone(), re.clone()),
                    );
                },
                EngineVerdict::Accepted => {},
            }
            i = i + 1;
        }
        match bind {
            BindOutcome::Refused => {
                return Err(ControllerError::BindError(port));
            },
            BindOutcome::Bound => {},
        }
        // all templates are valid and the endpoint is bound: reconstruct
        // the mount table from the given set, in order
        self.registry = MountRegistry::new();
        let mut k: usize = 0;
        while k < templates.len()
            invariant
                old(self).wf(),
                self.run_state == old(self).run_state,
                self.listen_port == old(self).listen_port,
                self.sessions == old(self).sessions,
                self.instances == old(self).instances,
                self.registry.wf(),
                templates@.len() == verdicts@.len(),
                k <= templates@.len(),
                self.registry.entries@ == load_templates(templates@.take(k as int)),
                forall|j: int|
                    0 <= j < templates@.len() ==> template_valid(templates@[j], verdicts@[j]),
            decreases templates@.len() - k,
        {
            proof {
                assert(templates@.take(k + 1).drop_last() =~= templates@.take(k as int));
                assert(templates@.take(k + 1).last() == templates@[k as int]);
            }
            self.registry.insert(templates[k].clone());
            k = k + 1;
        }
        proof {
            assert(templates@.take(templates@.len() as int) =~= templates@);
        }
        self.run_state = RunState::Running;
        self.listen_port = port;
        Ok(())
    }

    /// Restart: `stop()` followed by `start()` with a possibly updated
    /// template set, used when the served content changes at runtime.
    /// Safe to call from `Running` or `Idle`, and never refused as
    /// already running; whatever `start` then decides, the old sessions
    /// are closed and the old instances torn down first.
    pub fn restart(
        &mut self,
        port: u16,
        templates: Vec<PipelineTemplate>,
        verdicts: Vec<EngineVerdict>,
        bind: BindOutcome,
    ) -> (r: Result<(), ControllerError>)
        requires
            old(self).wf(),
            templates@.len() == verdicts@.len(),
        ensures
            final(self).wf(),
            r != Err::<(), ControllerError>(ControllerError::AlreadyRunning),
            sessions_all_closed_of(old(self).sessions.sessions@, final(self).sessions.sessions@),
            instances_all_stopped_of(
                old(self).instances.instances@,
                final(self).instances.instances@,
            ),
            r is Err ==> {
                &&& final(self).run_state is Idle
                &&& final(self).registry == old(self).registry
                &&& final(self).listen_port == old(self).listen_port
            },
            r is Ok ==> {
                &&& final(self).run_state is Running
                &&& final(self).listen_port == port
                &&& final(self).registry.entries@ == load_templates(templates@)
            },
            ({
                let all_valid = forall|i: int|
                    0 <= i < templates@.len() ==> template_valid(templates@[i], verdicts@[i]);
                &&& (all_valid && bind is Bound) ==> r is Ok
                &&& (all_valid && bind is Refused) ==> r == Err::<(), ControllerError>(
                    ControllerError::BindError(port),
                )
                &&& !all_valid ==> exists|i: int|
                    {
                        &&& 0 <= i < templates@.len()
                        &&& !template_valid(templates@[i], verdicts@[i])
                        &&& (forall|j: int|
                            0 <= j < i ==> template_valid(templates@[j], verdicts@[j]))
                        &&& (r matches Err(ControllerError::InvalidTemplate(mp, _))
                            && mp@ == templates@[i].mount_path@)
                    }
            }),
    {
        self.stop();
        self.start(port, templates, verdicts, bind)
    }

    /// Law: an idle controller is quiescent. No session is active, no
    /// instance is live, and every instance ever created has already
    /// been torn down — so `start()` followed immediately by `stop()`
    /// (which ends `Idle` by its contract) leaves the tables empty of
    /// active instances.
    pub proof fn lemma_idle_quiescent_law(c: ServerController)
        requires
            c.wf(),
            c.run_state is Idle,
        ensures
            forall|k: int|
                0 <= k < c.sessions.sessions@.len() ==> !(#[trigger] c.sessions.sessions@[k]).active,
            forall|n: int|
                0 <= n < c.instances.instances@.len() ==> !live(#[trigger] c.instances.instances@[n]),
    {
    }

    /// Law: a `Shared` mount is served by at most one live instance, and
    /// that instance's `ref_count` is exactly the number of active
    /// sessions bound to it. However many sessions open on the mount,
    /// they share the one acquire; with `close_session`'s contract, the
    /// count reaches zero exactly at the last close, and that release
    /// tears the instance down.
    pub proof fn lemma_shared_mount_single_instance(c: ServerController, n: int, m: int)
        requires
            c.wf(),
            0 <= n < c.instances.instances@.len(),
            0 <= m < c.instances.instances@.len(),
            live(c.instances.instances@[n]),
            live(c.instances.instances@[m]),
            c.instances.instances@[n].sharing is Shared,
            c.instances.instances@[m].sharing is Shared,
            c.instances.instances@[n].mount_path@ == c.instances.instances@[m].mount_path@,
        ensures
            n == m,
            c.instances.instances@[n].ref_count == bound_count(c.sessions.sessions@, n),
    {
        let is = c.instances.instances@;
        if n < m {
            assert(is[n].mount_path@ != is[m].mount_path@);
        } else if m < n {
            assert(is[m].mount_path@ != is[n].mount_path@);
        }
    }

    /// One attach to the live shared instance `n`: the effect
    /// `open_session` has on the tables when it reuses the mount's
    /// running instance instead of instantiating — a new active session
    /// bound to `n`, the instance table unchanged but for `n`'s
    /// reference count going up.
    pub open spec fn shared_attach_step(pre: Self, post: Self, n: int) -> bool {
        &&& post.wf()
        &&& 0 <= n < pre.instances.instances@.len()
        &&& live(pre.instances.instances@[n])
        &&& post.sessions.sessions@.len() == pre.sessions.sessions@.len() + 1
        &&& post.sessions.sessions@.last().active
        &&& post.sessions.sessions@.last().instance == n
        &&& post.instances.instances@.len() == pre.instances.instances@.len()
        &&& (forall|m: int|
            0 <= m < pre.instances.instances@.len() && m != n ==> post.instances.instances@[m]
                == pre.instances.instances@[m])
        &&& post.instances.instances@[n].state == pre.instances.instances@[n].state
        &&& post.instances.instances@[n].ref_count == pre.instances.instances@[n].ref_count + 1
    }

    /// One detach from the live shared instance `n`: the effect
    /// `close_session` has when the closed session was bound to `n` —
    /// the reference count goes down, and the release that reaches zero
    /// stops the instance.
    pub open spec fn shared_detach_step(pre: Self, post: Self, n: int) -> bool {
        &&& post.wf()
        &&& 0 <= n < pre.instances.instances@.len()
        &&& live(pre.instances.instances@[n])
        &&& post.sessions.sessions@.len() == pre.sessions.sessions@.len()
        &&& post.instances.instances@.len() == pre.instances.instances@.len()
        &&& (forall|m: int|
            0 <= m < pre.instances.instances@.len() && m != n ==> post.instances.instances@[m]
                == pre.instances.instances@[m])
        &&& post.instances.instances@[n].ref_count + 1 == pre.instances.instances@[n].ref_count
        &&& (pre.instances.instances@[n].ref_count == 1 ==> post.instances.instances@[n].state
            is Stopped)
        &&& (pre.instances.instances@[n].ref_count > 1 ==> post.instances.instances@[n].state
            == pre.instances.instances@[n].state)
    }

    /// Law (one acquire/release pair for a whole serving trace):
    /// however many sessions open on a `Shared` mount and later close,
    /// in any order — `states` holding the controller after each such
    /// call, every step an attach to or a detach from the mount's one
    /// live instance `n` — the executor is asked for no further
    /// instance (the instance table never grows) and for no teardown
    /// until the detach that drops the last session; that one stops `n`
    /// once, with its `ref_count` at zero, and no step can follow it.
    pub proof fn lemma_shared_mount_one_pair(states: Seq<ServerController>, n: int)
        requires
            states.len() >= 1,
            0 <= n < states[0].instances.instances@.len(),
            forall|i: int|
                0 <= i < states.len() - 1 ==> Self::shared_attach_step(
                    #[trigger] states[i],
                    states[i + 1],
                    n,
                ) || Self::shared_detach_step(states[i], states[i + 1], n),
        ensures
            states.last().instances.instances@.len() == states[0].instances.instances@.len(),
            live(states.last().instances.instances@[n]) ==> stopped_count(
                states.last().instances.instances@,
            ) == stopped_count(states[0].instances.instances@),
            !live(states.last().instances.instances@[n]) && states.len() > 1 ==> {
                &&& states.last().instances.instances@[n].state is Stopped
                &&& states.last().instances.instances@[n].ref_count == 0
                &&& stopped_count(states.last().instances.instances@) == stopped_count(
                    states[0].instances.instances@,
                ) + 1
            },
        decreases states.len(),
    {
        if states.len() > 1 {
            let prefix = states.drop_last();
            assert forall|i: int|
                0 <= i < prefix.len() - 1 implies Self::shared_attach_step(
                #[trigger] prefix[i],
                prefix[i + 1],
                n,
            ) || Self::shared_detach_step(prefix[i], prefix[i + 1], n) by {
                assert(prefix[i] == states[i] && prefix[i + 1] == states[i + 1]);
            }
            Self::lemma_shared_mount_one_pair(prefix, n);
            let s = states[states.len() - 2];
            let t = states.last();
            assert(Self::shared_attach_step(s, t, n) || Self::shared_detach_step(s, t, n));
            // the step out of `s` needs `n` live there, so the prefix ran
            // without a teardown
            assert(live(s.instances.instances@[n]));
            assert(t.instances.instances@ =~= s.instances.instances@.update(
                n,
                t.instances.instances@[n],
            ));
            crate::instance::lemma_stopped_count_update(
                s.instances.instances@,
                n,
                t.instances.instances@[n],
            );
        }
    }

    /// Law: sessions on a `PerClient` mount never share. Two distinct
    /// active sessions whose common instance would be per-client cannot
    /// exist, since a per-client instance carries at most one attached
    /// session — so each of N concurrent sessions is bound to its own
    /// instance, and by `close_session`'s contract closing one touches
    /// only that session's instance, leaving the others running.
    pub proof fn lemma_per_client_sessions_distinct(c: ServerController, k1: int, k2: int)
        requires
            c.wf(),
            0 <= k1 < c.sessions.sessions@.len(),
            0 <= k2 < c.sessions.sessions@.len(),
            k1 != k2,
            c.sessions.sessions@[k1].active,
            c.sessions.sessions@[k2].active,
            c.instances.instances@[c.sessions.sessions@[k1].instance as int].sharing is PerClient,
        ensures
            c.sessions.sessions@[k1].instance != c.sessions.sessions@[k2].instance,
    {
        let n = c.sessions.sessions@[k1].instance as int;
        if c.sessions.sessions@[k2].instance as int == n {
            lemma_bound_count_at_least_two(c.sessions.sessions@, k1, k2, n);
        }
    }

    /// The template registered under `path`, read-only; `None` for an
    /// unknown path, which a caller surfaces as `MountNotFound`.
    pub fn resolve(&self, path: &str) -> (r: Option<&PipelineTemplate>)
        requires
            self.wf(),
        ensures
            match r {
                Some(t) => self.is_registered(path@) && *t == template_at(
                    self.registry.entries@,
                    path@,
                ) && t.mount_path@ == path@,
                None => !self.is_registered(path@),
            },
    {
        let p: String = path.to_owned();
        self.registry.resolve(&p)
    }
}

} // verus!
