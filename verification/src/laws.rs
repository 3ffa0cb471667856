//! The behavioural laws of the folder hierarchy, stated and proved over
//! the spec-level decision and effect functions of the operations.
//!
//! The density guarantee itself — after any run of create, move and delete
//! operations every scope of `n` siblings uses exactly the positions
//! `1..=n` — is `crate::store::lemma_scope_seqs_dense` together with the
//! `folders_wf` clause every operation ensures.

use vstd::prelude::*;

use crate::folder::Folder;
use crate::ops::{
    create_apply, create_err, delete_apply, delete_err, move_err, rename_apply, rename_err,
    FolderError,
};
use crate::store::{
    folders_wf, has_child, has_row, lemma_row_index, lemma_row_index_pointwise, row_index,
    row_matches, scope_count, type_matches,
};

verus! {

/// Round trip of a creation: after creating a folder whose name is new to
/// its tree, the tree holds exactly one folder of that name — under the
/// requested parent, at position "previous scope size + 1" (so position 1
/// when it has no siblings).
pub proof fn lemma_create_round_trip(
    s: Seq<Folder>,
    t: u64,
    w: u64,
    ty: i32,
    parent_id: u64,
    name: String,
    description: Option<String>,
    id: u64,
)
    requires
        folders_wf(s),
        create_err(s, t, w, ty, parent_id, name@) is None,
        forall|i: int|
            0 <= i < s.len() ==> !(type_matches(#[trigger] s[i], t, w, ty) && s[i].name@
                == name@),
    ensures
        ({
            let s2 = create_apply(s, t, w, ty, parent_id, name, description, id);
            let created = s2[s.len() as int];
            &&& type_matches(created, t, w, ty)
            &&& created.name@ == name@
            &&& created.parent_id == parent_id
            &&& created.seq == scope_count(s, t, w, ty, parent_id) + 1
            &&& scope_count(s, t, w, ty, parent_id) == 0 ==> created.seq == 1
            &&& forall|i: int|
                0 <= i < s2.len() && type_matches(#[trigger] s2[i], t, w, ty) && s2[i].name@
                    == name@ ==> i == s.len()
        }),
{
    let s2 = create_apply(s, t, w, ty, parent_id, name, description, id);
    crate::store::lemma_scope_count_le_len(s, t, w, ty, parent_id);
    assert(scope_count(s, t, w, ty, parent_id) + 1 <= crate::store::MAX_FOLDER_ROWS + 1);
    assert(forall|i: int| 0 <= i < s.len() ==> #[trigger] s2[i] == s[i]);
    assert(s2[s.len() as int].name == name);
    assert(s2[s.len() as int].seq == scope_count(s, t, w, ty, parent_id) + 1);
}

/// Renaming is idempotent: a second rename to the same name and
/// description is admissible and leaves the table exactly where the first
/// rename put it.
pub proof fn lemma_rename_idempotent(
    s: Seq<Folder>,
    t: u64,
    w: u64,
    id: u64,
    name: String,
    description: Option<String>,
)
    requires
        folders_wf(s),
        rename_err(s, t, w, id, name@) is None,
    ensures
        ({
            let s1 = rename_apply(s, t, w, id, name, description);
            &&& rename_err(s1, t, w, id, name@) is None
            &&& rename_apply(s1, t, w, id, name, description) == s1
        }),
{
    lemma_row_index(s, t, w, id);
    let ri = row_index(s, t, w, id);
    let s1 = rename_apply(s, t, w, id, name, description);
    assert(s1.len() == s.len());
    assert(forall|i: int|
        0 <= i < s.len() ==> ((#[trigger] s1[i]).tenant_id == s[i].tenant_id && s1[i].workspace_id
            == s[i].workspace_id && s1[i].id == s[i].id));
    lemma_row_index_pointwise(s, s1, t, w, id);
    assert(row_index(s1, t, w, id) == ri);
    assert(s1[ri].name == name && s1[ri].description == description);
    assert(rename_apply(s1, t, w, id, name, description) =~= s1);
}

/// A folder with a child cannot be deleted; once its only child is gone,
/// deleting it is admissible.
pub proof fn lemma_delete_blocked_then_free(s: Seq<Folder>, t: u64, w: u64, p_id: u64, c_id: u64)
    requires
        folders_wf(s),
        has_row(s, t, w, p_id),
        has_row(s, t, w, c_id),
        c_id != p_id,
        // The child row really hangs under the parent ...
        s[row_index(s, t, w, c_id)].parent_id == p_id,
        // ... is itself childless, and is the parent's only child.
        !has_child(s, t, w, c_id),
        forall|i: int|
            0 <= i < s.len() && (#[trigger] s[i]).tenant_id == t && s[i].workspace_id == w
                && s[i].parent_id == p_id ==> s[i].id == c_id,
    ensures
        delete_err(s, t, w, p_id) == Some(FolderError::NotEmpty),
        delete_err(s, t, w, c_id) is None,
        delete_err(delete_apply(s, t, w, c_id), t, w, p_id) is None,
{
    lemma_row_index(s, t, w, c_id);
    lemma_row_index(s, t, w, p_id);
    let ci = row_index(s, t, w, c_id);
    assert(s[ci].tenant_id == t && s[ci].workspace_id == w && s[ci].parent_id == p_id);
    assert(has_child(s, t, w, p_id));

    let s1 = s.remove(ci);
    let s2 = delete_apply(s, t, w, c_id);
    assert(s2.len() == s1.len());
    assert(forall|i: int| 0 <= i < ci ==> #[trigger] s1[i] == s[i]);
    assert(forall|i: int| ci <= i < s1.len() ==> #[trigger] s1[i] == s[i + 1]);
    assert(forall|i: int|
        0 <= i < s2.len() ==> ((#[trigger] s2[i]).id == s1[i].id && s2[i].tenant_id
            == s1[i].tenant_id && s2[i].workspace_id == s1[i].workspace_id && s2[i].parent_id
            == s1[i].parent_id));

    // The parent row survives the child's removal.
    let pi = row_index(s, t, w, p_id);
    assert(pi != ci);
    let pi2: int = if pi < ci {
        pi
    } else {
        pi - 1
    };
    assert(row_matches(s2[pi2], t, w, p_id));
    assert(has_row(s2, t, w, p_id));

    // And no child of the parent is left.
    assert forall|i: int|
        0 <= i < s2.len() implies !((#[trigger] s2[i]).tenant_id == t && s2[i].workspace_id == w
        && s2[i].parent_id == p_id) by {
        let oi: int = if i < ci {
            i
        } else {
            i + 1
        };
        assert(s2[i].tenant_id == s[oi].tenant_id && s2[i].workspace_id == s[oi].workspace_id
            && s2[i].parent_id == s[oi].parent_id && s2[i].id == s[oi].id);
        if s2[i].tenant_id == t && s2[i].workspace_id == w && s2[i].parent_id == p_id {
            assert(s[oi].id == c_id);
            assert(oi != ci);
            assert(s[oi].id != s[ci].id);
            assert(s[ci].id == c_id);
            assert(false);
        }
    }
}

/// Moving a folder onto itself is always rejected as a self-move, whatever
/// the position argument; the operation's contract adds that a rejected
/// move leaves the table untouched.
pub proof fn lemma_move_to_self_rejected(s: Seq<Folder>, t: u64, w: u64, id: u64, new_seq: i32)
    ensures
        move_err(s, t, w, id, id, new_seq) == Some(FolderError::SelfMove),
{
}

} // verus!
