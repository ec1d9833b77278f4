use crate::types::PipelineTemplate;
use vstd::prelude::*;

verus! {

/// The mount table: templates keyed by their mount path. Paths are
/// unique and every registered description is non-empty (an invalid
/// description fails registration, not first use).
#[derive(Debug)]
pub struct MountRegistry {
    pub entries: Vec<PipelineTemplate>,
}

/// Whether some entry of `es` is keyed by mount path `p`.
pub open spec fn has_path(es: Seq<PipelineTemplate>, p: Seq<char>) -> bool {
    exists|i: int| 0 <= i < es.len() && es[i].mount_path@ == p
}

/// The index of the entry keyed by `p`; meaningful under `has_path` and
/// path uniqueness.
pub open spec fn idx_of(es: Seq<PipelineTemplate>, p: Seq<char>) -> int {
    choose|i: int| 0 <= i < es.len() && es[i].mount_path@ == p
}

/// The template registered under `p`; meaningful under `has_path` and
/// path uniqueness.
pub open spec fn template_at(es: Seq<PipelineTemplate>, p: Seq<char>) -> PipelineTemplate {
    es[idx_of(es, p)]
}

/// Registration of one template into a table with unique paths: it
/// replaces the entry with the same path if there is one, else it is
/// appended.
pub open spec fn insert_one(es: Seq<PipelineTemplate>, t: PipelineTemplate) -> Seq<
    PipelineTemplate,
> {
    if has_path(es, t.mount_path@) {
        es.update(idx_of(es, t.mount_path@), t)
    } else {
        es.push(t)
    }
}

/// The mount table that registering `ts` in order into an empty table
/// leaves behind: for a path given twice, the later template wins.
pub open spec fn load_templates(ts: Seq<PipelineTemplate>) -> Seq<PipelineTemplate>
    decreases ts.len(),
{
    if ts.len() == 0 {
        Seq::empty()
    } else {
        insert_one(load_templates(ts.drop_last()), ts.last())
    }
}

impl MountRegistry {
    /// Paths are unique and every registered description is non-empty.
    pub open spec fn wf(self) -> bool {
        &&& forall|i: int, j: int|
            0 <= i < j < self.entries@.len() ==> self.entries@[i].mount_path@
                != self.entries@[j].mount_path@
        &&& forall|i: int| 0 <= i < self.entries@.len() ==> self.entries@[i].description@.len() > 0
    }

    /// An empty table.
    pub fn new() -> (r: Self)
        ensures
            r.wf(),
            r.entries@ =~= Seq::<PipelineTemplate>::empty(),
    {
        MountRegistry { entries: Vec::new() }
    }

    /// The index of the entry for `p`, if the path is registered.
    pub fn find(&self, p: &String) -> (r: Option<usize>)
        ensures
            match r {
                Some(i) => i < self.entries@.len() && self.entries@[i as int].mount_path@ == p@,
                None => !has_path(self.entries@, p@),
            },
    {
        let mut i: usize = 0;
        while i < self.entries.len()
            invariant
                i <= self.entries@.len(),
                forall|k: int| 0 <= k < i ==> self.entries@[k].mount_path@ != p@,
            decreases self.entries@.len() - i,
        {
            if self.entries[i].mount_path == *p {
                return Some(i);
            }
            i = i + 1;
        }
        None
    }

    /// Under path uniqueness, any index holding `p` is the `idx_of` index.
    pub proof fn lemma_idx_unique(self, p: Seq<char>, i: int)
        requires
            self.wf(),
            0 <= i < self.entries@.len(),
            self.entries@[i].mount_path@ == p,
        ensures
            idx_of(self.entries@, p) == i,
            has_path(self.entries@, p),
            template_at(self.entries@, p) == self.entries@[i],
    {
        assert(has_path(self.entries@, p));
        let j = idx_of(self.entries@, p);
        assert(0 <= j < self.entries@.len() && self.entries@[j].mount_path@ == p);
        if i < j {
            assert(self.entries@[i].mount_path@ != self.entries@[j].mount_path@);
        } else if j < i {
            assert(self.entries@[j].mount_path@ != self.entries@[i].mount_path@);
        }
    }

    /// Put `t` into the table: replace the entry with the same path, or
    /// append. The caller has already found the description valid.
    pub fn insert(&mut self, t: PipelineTemplate)
        requires
            old(self).wf(),
            t.description@.len() > 0,
        ensures
            final(self).wf(),
            final(self).entries@ == insert_one(old(self).entries@, t),
    {
        match self.find(&t.mount_path) {
            Some(i) => {
                proof {
                    self.lemma_idx_unique(t.mount_path@, i as int);
                }
                self.entries[i] = t;
            },
            None => {
                self.entries.push(t);
            },
        }
    }

    /// Take the entry for `p` out of the table; without one, leave the
    /// table as it is.
    pub fn remove_path(&mut self, p: &String)
        requires
            old(self).wf(),
        ensures
            final(self).wf(),
            !has_path(final(self).entries@, p@),
            has_path(old(self).entries@, p@) ==> final(self).entries@ == old(
                self,
            ).entries@.remove(idx_of(old(self).entries@, p@)),
            !has_path(old(self).entries@, p@) ==> *final(self) == *old(self),
    {
        match self.find(p) {
            Some(i) => {
                proof {
                    self.lemma_idx_unique(p@, i as int);
                    self.entries@.remove_ensures(i as int);
                }
                self.entries.remove(i);
            },
            None => {
            },
        }
    }

    /// The template registered under `p`, read-only; `None` for an
    /// unknown path (the caller surfaces the error to the client).
    pub fn resolve(&self, p: &String) -> (r: Option<&PipelineTemplate>)
        requires
            self.wf(),
        ensures
            match r {
                Some(t) => has_path(self.entries@, p@) && *t == template_at(self.entries@, p@)
                    && t.mount_path@ == p@,
                None => !has_path(self.entries@, p@),
            },
    {
        match self.find(p) {
            Some(i) => {
                proof {
                    self.lemma_idx_unique(p@, i as int);
                }
                Some(&self.entries[i])
            },
            None => None,
        }
    }
}

} // verus!
