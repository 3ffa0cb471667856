//! Workspaces: per-tenant working areas.

use vstd::prelude::*;

use crate::folder::clone_opt_text;

verus! {

/// One workspace row.
pub struct Workspace {
    pub tenant_id: u64,
    pub id: u64,
    pub name: String,
    pub description: Option<String>,
}

impl Clone for Workspace {
    fn clone(&self) -> (r: Workspace)
        ensures
            r == *self,
    {
        Workspace {
            tenant_id: self.tenant_id,
            id: self.id,
            name: self.name.clone(),
            description: clone_opt_text(&self.description),
        }
    }
}

impl Workspace {
    /// The tenant's default workspace; `id` comes from the identity
    /// generator.
    pub fn new(id: u64, tenant_id: u64) -> (r: Workspace)
        ensures
            r.id == id,
            r.tenant_id == tenant_id,
            r.name@ == "默认工作空间"@,
            r.description matches Some(d) && d@ == "默认工作空间"@,
    {
        Workspace {
            tenant_id,
            id,
            name: "默认工作空间".to_owned(),
            description: Some("默认工作空间".to_owned()),
        }
    }
}

/// The workspace table.
pub struct WorkspaceDao {
    rows: Vec<Workspace>,
}

impl View for WorkspaceDao {
    type V = Seq<Workspace>;

    closed spec fn view(&self) -> Seq<Workspace> {
        self.rows@
    }
}

impl WorkspaceDao {
    pub fn new() -> (r: WorkspaceDao)
        ensures
            r@ == Seq::<Workspace>::empty(),
    {
        let r = WorkspaceDao { rows: Vec::new() };
        proof {
            assert(r@ =~= Seq::<Workspace>::empty());
        }
        r
    }

    /// Appends one row as given.
    pub fn insert(&mut self, workspace: &Workspace)
        ensures
            final(self)@ == old(self)@.push(*workspace),
    {
        self.rows.push(workspace.clone());
    }

    /// Renames every row with the given identity (at most one, when ids
    /// are kept unique).
    pub fn update(&mut self, workspace: Workspace)
        ensures
            final(self)@.len() == old(self)@.len(),
            forall|i: int|
                0 <= i < old(self)@.len() ==> #[trigger] final(self)@[i] == (if old(
                    self,
                )@[i].tenant_id == workspace.tenant_id && old(self)@[i].id == workspace.id {
                    Workspace {
                        name: workspace.name,
                        description: workspace.description,
                        ..old(self)@[i]
                    }
                } else {
                    old(self)@[i]
                }),
    {
        let mut i: usize = 0;
        while i < self.rows.len()
            invariant
                i <= self@.len(),
                self@.len() == old(self)@.len(),
                forall|j: int|
                    0 <= j < i ==> #[trigger] self@[j] == (if old(self)@[j].tenant_id
                        == workspace.tenant_id && old(self)@[j].id == workspace.id {
                        Workspace {
                            name: workspace.name,
                            description: workspace.description,
                            ..old(self)@[j]
                        }
                    } else {
                        old(self)@[j]
                    }),
                forall|j: int| i <= j < self@.len() ==> #[trigger] self@[j] == old(self)@[j],
            decreases self@.len() - i,
        {
            let hit = {
                let g = &self.rows[i];
                g.tenant_id == workspace.tenant_id && g.id == workspace.id
            };
            if hit {
                let mut ng = self.rows[i].clone();
                ng.name = workspace.name.clone();
                ng.description = clone_opt_text(&workspace.description);
                self.rows.set(i, ng);
            }
            i = i + 1;
        }
    }

    /// Removes every row with the given identity.
    pub fn delete(&mut self, tenant_id: u64, id: u64)
        ensures
            final(self)@ == old(self)@.filter(
                |g: Workspace| !(g.tenant_id == tenant_id && g.id == id),
            ),
    {
        let mut kept: Vec<Workspace> = Vec::new();
        let ghost pred = |g: Workspace| !(g.tenant_id == tenant_id && g.id == id);
        proof {
            reveal(Seq::filter);
            assert(old(self)@.subrange(0, 0) =~= Seq::<Workspace>::empty());
            assert(kept@ =~= old(self)@.subrange(0, 0).filter(pred));
        }
        let mut i: usize = 0;
        while i < self.rows.len()
            invariant
                i <= self@.len(),
                self@ == old(self)@,
                kept@ == old(self)@.subrange(0, i as int).filter(pred),
                pred == (|g: Workspace| !(g.tenant_id == tenant_id && g.id == id)),
            decreases self@.len() - i,
        {
            proof {
                reveal(Seq::filter);
                assert(self@.subrange(0, i + 1).drop_last() =~= self@.subrange(0, i as int));
                assert(self@.subrange(0, i + 1).last() == self@[i as int]);
            }
            let keep = {
                let g = &self.rows[i];
                !(g.tenant_id == tenant_id && g.id == id)
            };
            if keep {
                kept.push(self.rows[i].clone());
            }
            i = i + 1;
        }
        proof {
            assert(old(self)@.subrange(0, old(self)@.len() as int) =~= old(self)@);
        }
        self.rows = kept;
    }

    /// All rows of one tenant, in table order.
    pub fn list(&self, tenant_id: u64) -> (r: Vec<Workspace>)
        ensures
            r@ == self@.filter(|g: Workspace| g.tenant_id == tenant_id),
    {
        let mut out: Vec<Workspace> = Vec::new();
        let ghost pred = |g: Workspace| g.tenant_id == tenant_id;
        proof {
            reveal(Seq::filter);
            assert(self@.subrange(0, 0) =~= Seq::<Workspace>::empty());
            assert(out@ =~= self@.subrange(0, 0).filter(pred));
        }
        let mut i: usize = 0;
        while i < self.rows.len()
            invariant
                i <= self@.len(),
                out@ == self@.subrange(0, i as int).filter(pred),
                pred == (|g: Workspace| g.tenant_id == tenant_id),
            decreases self@.len() - i,
        {
            proof {
                reveal(Seq::filter);
                assert(self@.subrange(0, i + 1).drop_last() =~= self@.subrange(0, i as int));
                assert(self@.subrange(0, i + 1).last() == self@[i as int]);
            }
            if self.rows[i].tenant_id == tenant_id {
                out.push(self.rows[i].clone());
            }
            i = i + 1;
        }
        proof {
            assert(self@.subrange(0, self@.len() as int) =~= self@);
        }
        out
    }

    /// Lookup by identity: the first matching row.
    pub fn get(&self, tenant_id: u64, id: u64) -> (r: Option<Workspace>)
        ensures
            r is Some <==> exists|i: int|
                0 <= i < self@.len() && (#[trigger] self@[i]).tenant_id == tenant_id
                    && self@[i].id == id,
            r matches Some(w) ==> exists|i: int|
                0 <= i < self@.len() && #[trigger] self@[i] == w && w.tenant_id == tenant_id
                    && w.id == id,
    {
        let mut i: usize = 0;
        while i < self.rows.len()
            invariant
                i <= self@.len(),
                forall|j: int|
                    0 <= j < i ==> !((#[trigger] self@[j]).tenant_id == tenant_id && self@[j].id
                        == id),
            decreases self@.len() - i,
        {
            let hit = {
                let g = &self.rows[i];
                g.tenant_id == tenant_id && g.id == id
            };
            if hit {
                return Some(self.rows[i].clone());
            }
            i = i + 1;
        }
        proof {
            if exists|j: int|
                0 <= j < self@.len() && (#[trigger] self@[j]).tenant_id == tenant_id
                    && self@[j].id == id {
                let j = choose|j: int|
                    0 <= j < self@.len() && (#[trigger] self@[j]).tenant_id == tenant_id
                        && self@[j].id == id;
                assert(false);
            }
        }
        None
    }

    /// The workspace a tenant lands in by default: the first existing one,
    /// or a fresh default workspace (with the supplied generator id) when
    /// the tenant has none yet.
    pub fn default_workspace_id(&mut self, tenant_id: u64, new_id: u64) -> (r: u64)
        ensures
            ({
                let existing = old(self)@.filter(|g: Workspace| g.tenant_id == tenant_id);
                if existing.len() == 0 {
                    &&& r == new_id
                    &&& final(self)@.len() == old(self)@.len() + 1
                    &&& forall|i: int|
                        0 <= i < old(self)@.len() ==> final(self)@[i] == old(self)@[i]
                    &&& final(self)@.last().id == new_id
                    &&& final(self)@.last().tenant_id == tenant_id
                    &&& final(self)@.last().name@ == "默认工作空间"@
                } else {
                    &&& r == existing[0].id
                    &&& final(self)@ == old(self)@
                }
            }),
    {
        let existing = self.list(tenant_id);
        if existing.len() == 0 {
            let ws = Workspace::new(new_id, tenant_id);
            self.insert(&ws);
            proof {
                assert(forall|i: int|
                    0 <= i < old(self)@.len() ==> #[trigger] final(self)@[i] == old(self)@[i]);
            }
            new_id
        } else {
            existing[0].id
        }
    }
}

} // verus!
