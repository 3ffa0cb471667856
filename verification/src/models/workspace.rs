//! Workspace request and response shapes, and the selection marking of a
//! workspace listing.

use vstd::prelude::*;

use crate::folder::clone_opt_text;
use crate::workspace::Workspace;

verus! {

/// Body of a workspace creation or rename.
pub struct WorkspaceReq {
    pub name: String,
    pub description: Option<String>,
}

/// One workspace as reported to clients; `selected` marks the one the
/// user currently works in.
pub struct WorkspaceResp {
    pub id: u64,
    pub name: String,
    pub description: Option<String>,
    pub selected: bool,
}

impl Clone for WorkspaceResp {
    fn clone(&self) -> (r: WorkspaceResp)
        ensures
            r == *self,
    {
        WorkspaceResp {
            id: self.id,
            name: self.name.clone(),
            description: clone_opt_text(&self.description),
            selected: self.selected,
        }
    }
}

impl WorkspaceResp {
    pub fn of_workspace(workspace: Workspace) -> (r: WorkspaceResp)
        ensures
            r.id == workspace.id,
            r.name == workspace.name,
            r.description == workspace.description,
            !r.selected,
    {
        WorkspaceResp {
            id: workspace.id,
            name: workspace.name,
            description: workspace.description,
            selected: false,
        }
    }
}

/// The workspace a listing highlights: the cached choice when there is
/// one, else the first listed workspace.
pub open spec fn chosen_workspace(s: Seq<WorkspaceResp>, cached: Option<u64>) -> Option<u64> {
    match cached {
        Some(id) => Some(id),
        None => if s.len() > 0 {
            Some(s[0].id)
        } else {
            None
        },
    }
}

/// Index of the first listing entry with the given id; the length when
/// there is none.
pub open spec fn resp_index(s: Seq<WorkspaceResp>, id: u64) -> int
    decreases s.len(),
{
    if s.len() == 0 {
        0
    } else if s[0].id == id {
        0
    } else {
        1 + resp_index(s.drop_first(), id)
    }
}

proof fn lemma_resp_index(s: Seq<WorkspaceResp>, id: u64)
    ensures
        0 <= resp_index(s, id) <= s.len(),
        resp_index(s, id) < s.len() ==> s[resp_index(s, id)].id == id,
        forall|j: int| 0 <= j < resp_index(s, id) ==> (#[trigger] s[j]).id != id,
    decreases s.len(),
{
    if s.len() > 0 && s[0].id != id {
        lemma_resp_index(s.drop_first(), id);
        assert(forall|i: int|
            0 <= i < s.drop_first().len() ==> #[trigger] s.drop_first()[i] == s[i + 1]);
        let r = resp_index(s, id);
        assert forall|j: int| 0 <= j < r implies (#[trigger] s[j]).id != id by {
            if j > 0 {
                assert(s.drop_first()[j - 1] == s[j]);
            }
        }
    }
}

/// Marks the workspace the user works in: the cached one when present in
/// the listing, else the first listed one.  Returns, on a first visit
/// (nothing cached yet), the id to cache.
pub fn mark_selected(workspaces: &mut Vec<WorkspaceResp>, cached: Option<u64>) -> (to_cache:
    Option<u64>)
    ensures
        chosen_workspace(old(workspaces)@, cached) is None ==> final(workspaces)@ == old(
            workspaces,
        )@ && to_cache is None,
        chosen_workspace(old(workspaces)@, cached) matches Some(id) ==> ({
            let s = old(workspaces)@;
            let fi = resp_index(s, id);
            if fi < s.len() {
                &&& final(workspaces)@ == s.update(
                    fi,
                    (WorkspaceResp { selected: true, ..s[fi] }),
                )
                &&& to_cache == (if cached is None {
                    Some(id)
                } else {
                    None::<u64>
                })
            } else {
                final(workspaces)@ == s && to_cache is None
            }
        }),
{
    let ghost s = workspaces@;
    let (selected_id, first_visit): (u64, bool) = match cached {
        Some(id) => (id, false),
        None => {
            if workspaces.len() > 0 {
                (workspaces[0].id, true)
            } else {
                return None;
            }
        },
    };
    proof {
        assert(chosen_workspace(s, cached) == Some(selected_id));
        lemma_resp_index(s, selected_id);
    }
    let mut i: usize = 0;
    while i < workspaces.len()
        invariant
            i <= s.len(),
            workspaces@ == s,
            old(workspaces)@ == s,
            chosen_workspace(s, cached) == Some(selected_id),
            first_visit == (cached is None),
            forall|j: int| 0 <= j < i ==> (#[trigger] s[j]).id != selected_id,
        decreases s.len() - i,
    {
        if workspaces[i].id == selected_id {
            proof {
                lemma_resp_index(s, selected_id);
                let fi = resp_index(s, selected_id);
                if fi < i {
                    assert(s[fi].id == selected_id);
                    assert(false);
                }
                assert(fi == i);
            }
            let mut w = workspaces[i].clone();
            w.selected = true;
            let ghost wg = w;
            workspaces.set(i, w);
            proof {
                assert(wg == (WorkspaceResp { selected: true, ..s[i as int] }));
                assert(workspaces@ =~= s.update(i as int, wg));
            }
            let to_cache = if first_visit {
                Some(selected_id)
            } else {
                None
            };
            return to_cache;
        }
        i = i + 1;
    }
    proof {
        lemma_resp_index(s, selected_id);
        let fi = resp_index(s, selected_id);
        if fi < s.len() {
            assert(s[fi].id == selected_id);
            assert(false);
        }
    }
    None
}

} // verus!
