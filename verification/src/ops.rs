//! Folder tree mutations, each proved to keep the table well-formed.
//!
//! Every operation has a spec-level decision function (`..._err`) saying
//! exactly on which inputs it fails and with which error, and a spec-level
//! effect function (`..._apply`) saying exactly what the table becomes on
//! success.  The executable functions promise precisely those two things,
//! plus preservation of `folders_wf`.

use vstd::prelude::*;

use crate::folder::Folder;
use crate::store::{
    choose_scope_row, compressed, folders_wf, has_child, has_row, id_used, in_scope,
    lemma_child_count_has_child, lemma_row_index, lemma_row_index_pointwise,
    lemma_scope_count_le_len, lemma_scope_count_pointwise, lemma_scope_count_push,
    lemma_scope_count_remove, lemma_scope_count_update, lemma_scope_count_zero,
    lemma_scope_seqs_dense, row_index, row_matches, same_scope, scope_count, scope_has_seq,
    shifted, FolderDao, MAX_FOLDER_ROWS,
};

verus! {

/// The business failures of folder operations.
#[derive(Clone, Copy, Debug, PartialEq, Eq, Structural)]
pub enum FolderError {
    /// Malformed input, e.g. an empty name.
    Validation,
    /// The folder itself is missing.
    NotFound,
    /// The designated parent folder is missing.
    ParentNotFound,
    /// A folder with children cannot be deleted.
    NotEmpty,
    /// A folder cannot become its own parent.
    SelfMove,
}

// ------------------------------------------------------------------
// Create.
// ------------------------------------------------------------------

/// Why creation fails, or `None` when it succeeds.
pub open spec fn create_err(
    s: Seq<Folder>,
    t: u64,
    w: u64,
    ty: i32,
    parent_id: u64,
    name: Seq<char>,
) -> Option<FolderError> {
    if name.len() == 0 {
        Some(FolderError::Validation)
    } else if parent_id != 0 && !has_row(s, t, w, parent_id) {
        Some(FolderError::ParentNotFound)
    } else {
        None
    }
}

/// The row that creation appends: next free sibling position in the target
/// scope.
pub open spec fn created_folder(
    s: Seq<Folder>,
    t: u64,
    w: u64,
    ty: i32,
    parent_id: u64,
    name: String,
    description: Option<String>,
    id: u64,
) -> Folder {
    Folder {
        id,
        tenant_id: t,
        workspace_id: w,
        parent_id,
        folder_type: ty,
        name,
        seq: (scope_count(s, t, w, ty, parent_id) + 1) as i32,
        description,
    }
}

/// The table after a successful creation.
pub open spec fn create_apply(
    s: Seq<Folder>,
    t: u64,
    w: u64,
    ty: i32,
    parent_id: u64,
    name: String,
    description: Option<String>,
    id: u64,
) -> Seq<Folder> {
    s.push(created_folder(s, t, w, ty, parent_id, name, description, id))
}

/// Creates a folder under `parent_id` (0 for the root) with the next free
/// sibling position; returns the id that was assigned to it.
///
/// The fresh `id` comes from the identity generator, which never repeats
/// an id and never issues the root sentinel; the preconditions record
/// exactly that.
pub fn create_folder(
    dao: &mut FolderDao,
    tenant_id: u64,
    workspace_id: u64,
    folder_type: i32,
    parent_id: u64,
    name: String,
    description: Option<String>,
    id: u64,
) -> (r: Result<u64, FolderError>)
    requires
        folders_wf(old(dao)@),
        old(dao)@.len() < MAX_FOLDER_ROWS,
        id != 0,
        !id_used(old(dao)@, id),
    ensures
        folders_wf(final(dao)@),
        match r {
            Ok(out) => {
                &&& out == id
                &&& create_err(old(dao)@, tenant_id, workspace_id, folder_type, parent_id, name@)
                    is None
                &&& final(dao)@ == create_apply(
                    old(dao)@,
                    tenant_id,
                    workspace_id,
                    folder_type,
                    parent_id,
                    name,
                    description,
                    id,
                )
            },
            Err(e) => {
                &&& create_err(old(dao)@, tenant_id, workspace_id, folder_type, parent_id, name@)
                    == Some(e)
                &&& final(dao)@ == old(dao)@
            },
        },
{
    if name.as_str().is_empty() {
        return Err(FolderError::Validation);
    }
    if parent_id != 0 {
        let parent = dao.get_by_id(tenant_id, workspace_id, parent_id);
        if parent.is_none() {
            return Err(FolderError::ParentNotFound);
        }
    }

    let ghost s = dao@;
    let max_seq = dao.get_max_seq(tenant_id, workspace_id, folder_type, parent_id);
    proof {
        lemma_scope_seqs_dense(s, tenant_id, workspace_id, folder_type, parent_id);
        lemma_scope_count_le_len(s, tenant_id, workspace_id, folder_type, parent_id);
        lemma_scope_count_zero(s, tenant_id, workspace_id, folder_type, parent_id);
        if max_seq is Some {
            let m = max_seq->Some_0;
            // The maximum sibling position equals the scope size: it is a
            // member position, so at most the size; and density makes the
            // size itself a member position, so at most the maximum.
            let n = scope_count(s, tenant_id, workspace_id, folder_type, parent_id) as int;
            let i = choose_scope_row(s, tenant_id, workspace_id, folder_type, parent_id, m as int);
            assert(m <= n);
            assert(n >= 1);
            assert(scope_has_seq(s, tenant_id, workspace_id, folder_type, parent_id, n));
            let j = choose_scope_row(s, tenant_id, workspace_id, folder_type, parent_id, n);
            assert(s[j].seq <= m);
            assert(m == n);
        }
    }
    let seq: i32 = match max_seq {
        None => 1,
        Some(m) => m + 1,
    };

    let row = Folder {
        id,
        tenant_id,
        workspace_id,
        parent_id,
        folder_type,
        name,
        seq,
        description,
    };
    let ghost row_g = row;
    dao.insert(row);

    proof {
        let s2 = dao@;
        assert(s2 == s.push(row_g));
        assert(row_g == created_folder(s, tenant_id, workspace_id, folder_type, parent_id,
        row_g.name, description, id));
        lemma_create_preserves_wf(s, tenant_id, workspace_id, folder_type, parent_id, row_g);
    }
    Ok(id)
}

/// Appending the next-position row keeps the table well-formed.
pub proof fn lemma_create_preserves_wf(s: Seq<Folder>, t: u64, w: u64, ty: i32, p: u64, f: Folder)
    requires
        folders_wf(s),
        s.len() < MAX_FOLDER_ROWS,
        f.id != 0,
        !id_used(s, f.id),
        f.tenant_id == t,
        f.workspace_id == w,
        f.folder_type == ty,
        f.parent_id == p,
        f.seq == scope_count(s, t, w, ty, p) + 1,
        p != 0 ==> has_row(s, t, w, p),
    ensures
        folders_wf(s.push(f)),
{
    let s2 = s.push(f);
    let n = scope_count(s, t, w, ty, p) as int;
    lemma_scope_count_le_len(s, t, w, ty, p);
    lemma_scope_seqs_dense(s, t, w, ty, p);
    assert(forall|i: int| 0 <= i < s.len() ==> #[trigger] s2[i] == s[i]);
    assert(s2[s.len() as int] == f);

    // Unique ids: the fresh id never collides.
    assert forall|i: int, j: int|
        0 <= i < s2.len() && 0 <= j < s2.len() && i != j implies (#[trigger] s2[i]).id != (
    #[trigger] s2[j]).id by {
        if i < s.len() && j < s.len() {
        } else if i < s.len() {
            assert(s[i].id != f.id);
        } else {
            assert(s[j].id != f.id);
        }
    }

    // The new row is not its own parent: its parent either is the root or
    // already exists, and an existing row cannot carry the fresh id.
    if p != 0 {
        let k = choose|k: int| 0 <= k < s.len() && row_matches(#[trigger] s[k], t, w, p);
        assert(s[k].id != f.id);
        assert(f.parent_id != f.id);
    }

    // Parent links survive the append.
    assert forall|i: int|
        0 <= i < s2.len() && (#[trigger] s2[i]).parent_id != 0 implies has_row(
        s2,
        s2[i].tenant_id,
        s2[i].workspace_id,
        s2[i].parent_id,
    ) by {
        if i < s.len() {
            let k = choose|k: int|
                0 <= k < s.len() && row_matches(#[trigger] s[k], s[i].tenant_id, s[i].workspace_id,
                s[i].parent_id);
            assert(row_matches(s2[k], s2[i].tenant_id, s2[i].workspace_id, s2[i].parent_id));
        } else {
            let k = choose|k: int| 0 <= k < s.len() && row_matches(#[trigger] s[k], t, w, p);
            assert(row_matches(s2[k], t, w, p));
        }
    }

    // Sibling positions stay in range and distinct.
    assert forall|i: int|
        0 <= i < s2.len() implies 1 <= (#[trigger] s2[i]).seq && s2[i].seq <= scope_count(
        s2,
        s2[i].tenant_id,
        s2[i].workspace_id,
        s2[i].folder_type,
        s2[i].parent_id,
    ) by {
        lemma_scope_count_push(s, f, s2[i].tenant_id, s2[i].workspace_id, s2[i].folder_type,
        s2[i].parent_id);
        if i < s.len() {
            assert(scope_count(s2, s2[i].tenant_id, s2[i].workspace_id, s2[i].folder_type,
            s2[i].parent_id) >= scope_count(s, s[i].tenant_id, s[i].workspace_id, s[i].folder_type,
            s[i].parent_id));
        } else {
            assert(in_scope(f, t, w, ty, p));
            assert(scope_count(s2, t, w, ty, p) == n + 1);
        }
    }
    assert forall|i: int, j: int|
        0 <= i < s2.len() && 0 <= j < s2.len() && i != j && same_scope(
            #[trigger] s2[i],
            #[trigger] s2[j],
        ) implies s2[i].seq != s2[j].seq by {
        if i < s.len() && j < s.len() {
        } else if i < s.len() {
            // s2[j] is the new row; an old sibling of its scope sits at
            // position at most n, below the new position n + 1.
            assert(in_scope(s[i], t, w, ty, p));
            assert(s[i].seq <= n);
        } else {
            assert(in_scope(s[j], t, w, ty, p));
            assert(s[j].seq <= n);
        }
    }
}

// ------------------------------------------------------------------
// Rename.
// ------------------------------------------------------------------

/// Why a rename fails, or `None` when it succeeds.
pub open spec fn rename_err(s: Seq<Folder>, t: u64, w: u64, id: u64, name: Seq<char>) -> Option<
    FolderError,
> {
    if name.len() == 0 {
        Some(FolderError::Validation)
    } else if !has_row(s, t, w, id) {
        Some(FolderError::NotFound)
    } else {
        None
    }
}

/// The table after a successful rename: name and description of the row
/// change, everything else stays.
pub open spec fn rename_apply(
    s: Seq<Folder>,
    t: u64,
    w: u64,
    id: u64,
    name: String,
    description: Option<String>,
) -> Seq<Folder> {
    s.update(
        row_index(s, t, w, id),
        Folder { name, description, ..s[row_index(s, t, w, id)] },
    )
}

/// Renames a folder (and replaces its description); position and parent
/// are untouched.
pub fn update_folder(
    dao: &mut FolderDao,
    tenant_id: u64,
    workspace_id: u64,
    id: u64,
    name: String,
    description: Option<String>,
) -> (r: Result<(), FolderError>)
    requires
        folders_wf(old(dao)@),
    ensures
        folders_wf(final(dao)@),
        match r {
            Ok(()) => {
                &&& rename_err(old(dao)@, tenant_id, workspace_id, id, name@) is None
                &&& final(dao)@ == rename_apply(
                    old(dao)@,
                    tenant_id,
                    workspace_id,
                    id,
                    name,
                    description,
                )
            },
            Err(e) => {
                &&& rename_err(old(dao)@, tenant_id, workspace_id, id, name@) == Some(e)
                &&& final(dao)@ == old(dao)@
            },
        },
{
    if name.as_str().is_empty() {
        return Err(FolderError::Validation);
    }
    let probe = Folder {
        id,
        tenant_id,
        workspace_id,
        parent_id: 0,
        folder_type: 0,
        name,
        seq: 0,
        description,
    };
    let ghost s = dao@;
    let hit = dao.update(&probe);
    if hit {
        proof {
            lemma_row_index(s, tenant_id, workspace_id, id);
            lemma_rename_preserves_wf(s, tenant_id, workspace_id, id, probe.name,
            probe.description);
        }
        Ok(())
    } else {
        Err(FolderError::NotFound)
    }
}

/// Replacing name and description of one row keeps the table well-formed.
proof fn lemma_rename_preserves_wf(
    s: Seq<Folder>,
    t: u64,
    w: u64,
    id: u64,
    name: String,
    description: Option<String>,
)
    requires
        folders_wf(s),
        has_row(s, t, w, id),
    ensures
        folders_wf(rename_apply(s, t, w, id, name, description)),
{
    lemma_row_index(s, t, w, id);
    let ri = row_index(s, t, w, id);
    let s2 = rename_apply(s, t, w, id, name, description);
    assert(forall|i: int|
        0 <= i < s.len() && i != ri ==> #[trigger] s2[i] == s[i]);
    assert(s2[ri].id == s[ri].id && s2[ri].tenant_id == s[ri].tenant_id && s2[ri].workspace_id
        == s[ri].workspace_id && s2[ri].parent_id == s[ri].parent_id && s2[ri].folder_type
        == s[ri].folder_type && s2[ri].seq == s[ri].seq);
    assert(s2.len() == s.len());
    lemma_row_index_pointwise(s, s2, t, w, id);

    assert forall|i: int|
        0 <= i < s2.len() && (#[trigger] s2[i]).parent_id != 0 implies has_row(
        s2,
        s2[i].tenant_id,
        s2[i].workspace_id,
        s2[i].parent_id,
    ) by {
        assert(s[i].parent_id == s2[i].parent_id && s[i].tenant_id == s2[i].tenant_id
            && s[i].workspace_id == s2[i].workspace_id);
        lemma_row_index_pointwise(s, s2, s[i].tenant_id, s[i].workspace_id, s[i].parent_id);
    }

    assert forall|i: int|
        0 <= i < s2.len() implies 1 <= (#[trigger] s2[i]).seq && s2[i].seq <= scope_count(
        s2,
        s2[i].tenant_id,
        s2[i].workspace_id,
        s2[i].folder_type,
        s2[i].parent_id,
    ) by {
        lemma_scope_count_pointwise(s, s2, s2[i].tenant_id, s2[i].workspace_id, s2[i].folder_type,
        s2[i].parent_id);
        assert(1 <= s[i].seq && s[i].seq <= scope_count(s, s[i].tenant_id, s[i].workspace_id,
        s[i].folder_type, s[i].parent_id));
    }
    assert forall|i: int, j: int|
        0 <= i < s2.len() && 0 <= j < s2.len() && i != j && same_scope(
            #[trigger] s2[i],
            #[trigger] s2[j],
        ) implies s2[i].seq != s2[j].seq by {
        assert(same_scope(s[i], s[j]));
    }
}


// ------------------------------------------------------------------
// Delete.
// ------------------------------------------------------------------

/// Why a delete fails, or `None` when it succeeds.
pub open spec fn delete_err(s: Seq<Folder>, t: u64, w: u64, id: u64) -> Option<FolderError> {
    if !has_row(s, t, w, id) {
        Some(FolderError::NotFound)
    } else if has_child(s, t, w, id) {
        Some(FolderError::NotEmpty)
    } else {
        None
    }
}

/// The table after a successful delete: the row goes, and the vacated
/// scope is compressed back to density.
pub open spec fn delete_apply(s: Seq<Folder>, t: u64, w: u64, id: u64) -> Seq<Folder> {
    let ri = row_index(s, t, w, id);
    let f = s[ri];
    compressed(s.remove(ri), t, w, f.folder_type, f.parent_id, f.seq as int)
}

/// Deletes a childless folder and closes the gap its departure leaves in
/// its sibling scope.
pub fn delete_folder(dao: &mut FolderDao, tenant_id: u64, workspace_id: u64, id: u64) -> (r:
    Result<(), FolderError>)
    requires
        folders_wf(old(dao)@),
    ensures
        folders_wf(final(dao)@),
        match r {
            Ok(()) => {
                &&& delete_err(old(dao)@, tenant_id, workspace_id, id) is None
                &&& final(dao)@ == delete_apply(old(dao)@, tenant_id, workspace_id, id)
            },
            Err(e) => {
                &&& delete_err(old(dao)@, tenant_id, workspace_id, id) == Some(e)
                &&& final(dao)@ == old(dao)@
            },
        },
{
    let found = dao.get_by_id(tenant_id, workspace_id, id);
    let f = match found {
        None => {
            return Err(FolderError::NotFound);
        },
        Some(f) => f,
    };
    let children = dao.count_children(tenant_id, workspace_id, id);
    proof {
        lemma_child_count_has_child(dao@, tenant_id, workspace_id, id);
    }
    if children > 0 {
        return Err(FolderError::NotEmpty);
    }

    let ghost s = dao@;
    dao.delete(tenant_id, workspace_id, id);
    dao.compress_seq_on_remove(tenant_id, workspace_id, f.folder_type, f.parent_id, f.seq);
    proof {
        lemma_delete_preserves_wf(s, tenant_id, workspace_id, id);
    }
    Ok(())
}

/// Removing a childless row and compressing its scope keeps the table
/// well-formed.
proof fn lemma_delete_preserves_wf(s: Seq<Folder>, t: u64, w: u64, id: u64)
    requires
        folders_wf(s),
        has_row(s, t, w, id),
        !has_child(s, t, w, id),
    ensures
        folders_wf(delete_apply(s, t, w, id)),
{
    lemma_row_index(s, t, w, id);
    let ri = row_index(s, t, w, id);
    let f = s[ri];
    let s1 = s.remove(ri);
    let s2 = delete_apply(s, t, w, id);
    let na = scope_count(s, t, w, f.folder_type, f.parent_id) as int;
    lemma_scope_seqs_dense(s, t, w, f.folder_type, f.parent_id);

    // Index bookkeeping: a surviving row at index i came from index
    // `orig(i)` of the old table.
    assert(forall|i: int| 0 <= i < ri ==> #[trigger] s1[i] == s[i]);
    assert(forall|i: int| ri <= i < s1.len() ==> #[trigger] s1[i] == s[i + 1]);
    assert(s2.len() == s1.len());
    // The compression changes at most the position of each row.
    assert(forall|i: int|
        0 <= i < s2.len() ==> ((#[trigger] s2[i]).id == s1[i].id && s2[i].tenant_id
            == s1[i].tenant_id && s2[i].workspace_id == s1[i].workspace_id && s2[i].parent_id
            == s1[i].parent_id && s2[i].folder_type == s1[i].folder_type && s2[i].name
            == s1[i].name && s2[i].description == s1[i].description));
    assert(in_scope(f, t, w, f.folder_type, f.parent_id));

    let ghost orig = |i: int| if i < ri { i } else { i + 1 };

    assert forall|i: int, j: int|
        0 <= i < s2.len() && 0 <= j < s2.len() && i != j implies (#[trigger] s2[i]).id != (
    #[trigger] s2[j]).id by {
        assert(s2[i].id == s[orig(i)].id && s2[j].id == s[orig(j)].id && orig(i) != orig(j));
    }

    assert forall|i: int|
        0 <= i < s2.len() implies (#[trigger] s2[i]).id != 0 && s2[i].parent_id != s2[i].id by {
        assert(s2[i].id == s[orig(i)].id && s2[i].parent_id == s[orig(i)].parent_id);
    }

    // Parent links survive: the deleted row was nobody's parent.
    assert forall|i: int|
        0 <= i < s2.len() && (#[trigger] s2[i]).parent_id != 0 implies has_row(
        s2,
        s2[i].tenant_id,
        s2[i].workspace_id,
        s2[i].parent_id,
    ) by {
        let oi = orig(i);
        assert(s[oi].parent_id == s2[i].parent_id && s[oi].tenant_id == s2[i].tenant_id
            && s[oi].workspace_id == s2[i].workspace_id);
        let k = choose|k: int|
            0 <= k < s.len() && row_matches(#[trigger] s[k], s[oi].tenant_id, s[oi].workspace_id,
            s[oi].parent_id);
        if k == ri {
            // Then s[oi] would be a child of the deleted folder.
            assert(s[oi].tenant_id == f.tenant_id && s[oi].workspace_id == f.workspace_id
                && s[oi].parent_id == f.id);
            assert(f.tenant_id == t && f.workspace_id == w && f.id == id);
            assert(has_child(s, t, w, id));
            assert(false);
        }
        let k2 = if k < ri { k } else { k - 1 };
        assert(s2[k2].tenant_id == s[k].tenant_id && s2[k2].workspace_id == s[k].workspace_id
            && s2[k2].id == s[k].id);
        assert(row_matches(s2[k2], s2[i].tenant_id, s2[i].workspace_id, s2[i].parent_id));
    }

    // Scope counts: only the vacated scope shrinks, by exactly one.
    assert forall|i: int| 0 <= i < s2.len() implies scope_count(
        s2,
        (#[trigger] s2[i]).tenant_id,
        s2[i].workspace_id,
        s2[i].folder_type,
        s2[i].parent_id,
    ) == scope_count(
        s,
        s2[i].tenant_id,
        s2[i].workspace_id,
        s2[i].folder_type,
        s2[i].parent_id,
    ) - (if in_scope(f, s2[i].tenant_id, s2[i].workspace_id, s2[i].folder_type,
    s2[i].parent_id) {
        1int
    } else {
        0int
    }) by {
        lemma_scope_count_remove(s, ri, s2[i].tenant_id, s2[i].workspace_id, s2[i].folder_type,
        s2[i].parent_id);
        lemma_scope_count_pointwise(s1, s2, s2[i].tenant_id, s2[i].workspace_id, s2[i].folder_type,
        s2[i].parent_id);
    }

    // Positions: in the vacated scope everything past the gap slides down;
    // other scopes are untouched.
    assert forall|i: int|
        0 <= i < s2.len() implies 1 <= (#[trigger] s2[i]).seq && s2[i].seq <= scope_count(
        s2,
        s2[i].tenant_id,
        s2[i].workspace_id,
        s2[i].folder_type,
        s2[i].parent_id,
    ) by {
        let oi = orig(i);
        assert(s1[i] == s[oi]);
        assert(1 <= s[oi].seq && s[oi].seq <= scope_count(s, s[oi].tenant_id, s[oi].workspace_id,
        s[oi].folder_type, s[oi].parent_id));
        if in_scope(s[oi], t, w, f.folder_type, f.parent_id) {
            assert(scope_count(s, s[oi].tenant_id, s[oi].workspace_id, s[oi].folder_type,
            s[oi].parent_id) == na);
            assert(same_scope(s[oi], s[ri]));
            assert(s[oi].seq != f.seq);
            assert(in_scope(f, s2[i].tenant_id, s2[i].workspace_id, s2[i].folder_type,
            s2[i].parent_id));
            if s[oi].seq > f.seq {
                assert(s2[i].seq == s[oi].seq - 1);
            } else {
                assert(s2[i].seq == s[oi].seq);
                assert(f.seq <= na);
            }
        } else {
            assert(!in_scope(s1[i], t, w, f.folder_type, f.parent_id));
            assert(s2[i].seq == s[oi].seq);
            if in_scope(f, s2[i].tenant_id, s2[i].workspace_id, s2[i].folder_type,
            s2[i].parent_id) {
                assert(in_scope(s[oi], t, w, f.folder_type, f.parent_id));
                assert(false);
            }
        }
    }

    // Distinctness of positions inside each scope.
    assert forall|i: int, j: int|
        0 <= i < s2.len() && 0 <= j < s2.len() && i != j && same_scope(
            #[trigger] s2[i],
            #[trigger] s2[j],
        ) implies s2[i].seq != s2[j].seq by {
        let oi = orig(i);
        let oj = orig(j);
        assert(s1[i] == s[oi] && s1[j] == s[oj] && oi != oj);
        assert(same_scope(s[oi], s[oj]));
        assert(s[oi].seq != s[oj].seq);
        if in_scope(s[oi], t, w, f.folder_type, f.parent_id) {
            assert(in_scope(s[oj], t, w, f.folder_type, f.parent_id));
            assert(same_scope(s[oi], s[ri]) && same_scope(s[oj], s[ri]));
            assert(s[oi].seq != f.seq && s[oj].seq != f.seq);
        } else {
            assert(!in_scope(s1[i], t, w, f.folder_type, f.parent_id));
            assert(!in_scope(s1[j], t, w, f.folder_type, f.parent_id));
        }
    }
}


// ------------------------------------------------------------------
// Move.
// ------------------------------------------------------------------

/// Why a move fails, or `None` when it succeeds.
///
/// The sibling position asked for must fall inside the target scope:
/// `1..=n` when the folder merely reorders inside its own scope (the scope
/// keeps its n members), `1..=m+1` when it enters a scope of m members.
/// Any other position would leave a gap, breaking density.
pub open spec fn move_err(
    s: Seq<Folder>,
    t: u64,
    w: u64,
    id: u64,
    new_parent_id: u64,
    new_seq: i32,
) -> Option<FolderError> {
    if id == new_parent_id {
        Some(FolderError::SelfMove)
    } else if !has_row(s, t, w, id) {
        Some(FolderError::NotFound)
    } else if new_parent_id != 0 && !has_row(s, t, w, new_parent_id) {
        Some(FolderError::ParentNotFound)
    } else {
        let f = s[row_index(s, t, w, id)];
        let bound = scope_count(s, t, w, f.folder_type, new_parent_id) + (
        if f.parent_id == new_parent_id {
            0int
        } else {
            1int
        });
        if new_seq < 1 || new_seq > bound {
            Some(FolderError::Validation)
        } else {
            None
        }
    }
}

/// The table after a successful move, exactly as the three renumbering
/// steps produce it: compress the old scope, open a slot in the new scope,
/// then re-home the row.
pub open spec fn move_apply(
    s: Seq<Folder>,
    t: u64,
    w: u64,
    id: u64,
    new_parent_id: u64,
    new_seq: i32,
) -> Seq<Folder> {
    let ri = row_index(s, t, w, id);
    let f = s[ri];
    let a = compressed(s, t, w, f.folder_type, f.parent_id, f.seq as int);
    let b = shifted(a, t, w, f.folder_type, new_parent_id, new_seq as int);
    b.update(ri, Folder { parent_id: new_parent_id, seq: new_seq, ..b[ri] })
}

/// Moves a folder to a new parent (0 for the root) at a given sibling
/// position, renumbering both the vacated and the receiving scope.
pub fn move_folder(
    dao: &mut FolderDao,
    tenant_id: u64,
    workspace_id: u64,
    id: u64,
    new_parent_id: u64,
    new_seq: i32,
) -> (r: Result<(), FolderError>)
    requires
        folders_wf(old(dao)@),
    ensures
        folders_wf(final(dao)@),
        match r {
            Ok(()) => {
                &&& move_err(old(dao)@, tenant_id, workspace_id, id, new_parent_id, new_seq)
                    is None
                &&& final(dao)@ == move_apply(
                    old(dao)@,
                    tenant_id,
                    workspace_id,
                    id,
                    new_parent_id,
                    new_seq,
                )
            },
            Err(e) => {
                &&& move_err(old(dao)@, tenant_id, workspace_id, id, new_parent_id, new_seq)
                    == Some(e)
                &&& final(dao)@ == old(dao)@
            },
        },
{
    if id == new_parent_id {
        return Err(FolderError::SelfMove);
    }
    let f = match dao.get_by_id(tenant_id, workspace_id, id) {
        None => {
            return Err(FolderError::NotFound);
        },
        Some(f) => f,
    };
    if new_parent_id != 0 {
        let parent = dao.get_by_id(tenant_id, workspace_id, new_parent_id);
        if parent.is_none() {
            return Err(FolderError::ParentNotFound);
        }
    }

    let ghost s = dao@;
    proof {
        lemma_row_index(s, tenant_id, workspace_id, id);
    }
    let max_seq = dao.get_max_seq(tenant_id, workspace_id, f.folder_type, new_parent_id);
    proof {
        lemma_scope_seqs_dense(s, tenant_id, workspace_id, f.folder_type, new_parent_id);
        lemma_scope_count_le_len(s, tenant_id, workspace_id, f.folder_type, new_parent_id);
        lemma_scope_count_zero(s, tenant_id, workspace_id, f.folder_type, new_parent_id);
        if max_seq is Some {
            let m = max_seq->Some_0;
            let n = scope_count(s, tenant_id, workspace_id, f.folder_type, new_parent_id) as int;
            let i = choose_scope_row(s, tenant_id, workspace_id, f.folder_type, new_parent_id,
            m as int);
            assert(m <= n);
            assert(n >= 1);
            assert(scope_has_seq(s, tenant_id, workspace_id, f.folder_type, new_parent_id, n));
            let j = choose_scope_row(s, tenant_id, workspace_id, f.folder_type, new_parent_id, n);
            assert(s[j].seq <= m);
            assert(m == n);
        }
    }
    let target: i32 = match max_seq {
        None => 0,
        Some(m) => m,
    };
    let bound: i32 = if f.parent_id == new_parent_id {
        target
    } else {
        target + 1
    };
    if new_seq < 1 || new_seq > bound {
        return Err(FolderError::Validation);
    }

    proof {
        // The positions that the shift touches stay below `i32::MAX`.
        assert forall|i: int|
            0 <= i < s.len() implies (#[trigger] s[i]).seq < i32::MAX by {
            lemma_scope_count_le_len(s, s[i].tenant_id, s[i].workspace_id, s[i].folder_type,
            s[i].parent_id);
        }
    }
    dao.compress_seq_on_remove(tenant_id, workspace_id, f.folder_type, f.parent_id, f.seq);
    let ghost a = dao@;
    proof {
        assert(forall|i: int|
            0 <= i < a.len() ==> (#[trigger] a[i]).seq <= s[i].seq && a[i].tenant_id
                == s[i].tenant_id && a[i].workspace_id == s[i].workspace_id && a[i].folder_type
                == s[i].folder_type && a[i].parent_id == s[i].parent_id && a[i].id == s[i].id);
    }
    dao.shift_seq_on_insert(tenant_id, workspace_id, f.folder_type, new_parent_id, new_seq);
    let ghost b = dao@;
    proof {
        assert(forall|i: int|
            0 <= i < b.len() ==> (#[trigger] b[i]).tenant_id == s[i].tenant_id && b[i].workspace_id
                == s[i].workspace_id && b[i].id == s[i].id);
        lemma_row_index_pointwise(s, b, tenant_id, workspace_id, id);
    }
    dao.update_parent_and_seq(tenant_id, workspace_id, id, new_parent_id, new_seq);
    proof {
        lemma_move_preserves_wf(s, tenant_id, workspace_id, id, new_parent_id, new_seq);
        assert(dao@ == move_apply(s, tenant_id, workspace_id, id, new_parent_id, new_seq));
    }
    Ok(())
}

/// The three renumbering steps keep the table well-formed whenever the
/// move was admissible.
#[verifier::rlimit(60)]
proof fn lemma_move_preserves_wf(
    s: Seq<Folder>,
    t: u64,
    w: u64,
    id: u64,
    pn: u64,
    new_seq: i32,
)
    requires
        folders_wf(s),
        move_err(s, t, w, id, pn, new_seq) is None,
    ensures
        folders_wf(move_apply(s, t, w, id, pn, new_seq)),
{
    lemma_row_index(s, t, w, id);
    let ri = row_index(s, t, w, id);
    let f = s[ri];
    let ty = f.folder_type;
    let po = f.parent_id;
    let a = compressed(s, t, w, ty, po, f.seq as int);
    let b = shifted(a, t, w, ty, pn, new_seq as int);
    let f2 = Folder { parent_id: pn, seq: new_seq, ..b[ri] };
    let s2 = move_apply(s, t, w, id, pn, new_seq);
    assert(s2 == b.update(ri, f2));
    let n_old = scope_count(s, t, w, ty, po) as int;
    let n_new = scope_count(s, t, w, ty, pn) as int;
    lemma_scope_seqs_dense(s, t, w, ty, po);
    lemma_scope_seqs_dense(s, t, w, ty, pn);
    lemma_scope_count_le_len(s, t, w, ty, po);
    lemma_scope_count_le_len(s, t, w, ty, pn);

    assert(in_scope(f, t, w, ty, po));
    assert(f.tenant_id == t && f.workspace_id == w && f.id == id);
    assert(1 <= f.seq <= n_old);

    // Bounds on every position, so that spec-level casts are exact.
    assert forall|i: int| 0 <= i < s.len() implies 1 <= (#[trigger] s[i]).seq < i32::MAX by {
        lemma_scope_count_le_len(s, s[i].tenant_id, s[i].workspace_id, s[i].folder_type,
        s[i].parent_id);
    }

    // Pointwise characterization of the intermediate tables.
    assert(s2.len() == s.len());
    assert(forall|i: int|
        0 <= i < s.len() && i != ri ==> ((#[trigger] s2[i]).id == s[i].id && s2[i].tenant_id
            == s[i].tenant_id && s2[i].workspace_id == s[i].workspace_id && s2[i].parent_id
            == s[i].parent_id && s2[i].folder_type == s[i].folder_type && s2[i].name == s[i].name
            && s2[i].description == s[i].description));
    assert(s2[ri].id == f.id && s2[ri].tenant_id == t && s2[ri].workspace_id == w
        && s2[ri].folder_type == ty && s2[ri].parent_id == pn && s2[ri].seq == new_seq);

    // Unique ids and per-row sanity carry over unchanged.
    assert forall|i: int, j: int|
        0 <= i < s2.len() && 0 <= j < s2.len() && i != j implies (#[trigger] s2[i]).id != (
    #[trigger] s2[j]).id by {
        assert(s2[i].id == s[i].id && s2[j].id == s[j].id);
    }
    assert forall|i: int|
        0 <= i < s2.len() implies (#[trigger] s2[i]).id != 0 && s2[i].parent_id != s2[i].id by {
        assert(s2[i].id == s[i].id);
        if i == ri {
            assert(s2[i].parent_id == pn && s2[i].id == id && id != pn);
        } else {
            assert(s2[i].parent_id == s[i].parent_id);
        }
    }

    // Parent links: identities are untouched, and the moved row's new
    // parent exists by the admissibility check.
    assert forall|i: int|
        0 <= i < s2.len() && (#[trigger] s2[i]).parent_id != 0 implies has_row(
        s2,
        s2[i].tenant_id,
        s2[i].workspace_id,
        s2[i].parent_id,
    ) by {
        assert(forall|k: int|
            0 <= k < s.len() ==> ((#[trigger] s2[k]).id == s[k].id && s2[k].tenant_id
                == s[k].tenant_id && s2[k].workspace_id == s[k].workspace_id));
        if i == ri {
            assert(has_row(s, t, w, pn));
            let k = choose|k: int| 0 <= k < s.len() && row_matches(#[trigger] s[k], t, w, pn);
            assert(row_matches(s2[k], t, w, pn));
        } else {
            assert(s2[i].parent_id == s[i].parent_id && s2[i].tenant_id == s[i].tenant_id
                && s2[i].workspace_id == s[i].workspace_id);
            let k = choose|k: int|
                0 <= k < s.len() && row_matches(#[trigger] s[k], s[i].tenant_id, s[i].workspace_id,
                s[i].parent_id);
            assert(row_matches(s2[k], s2[i].tenant_id, s2[i].workspace_id, s2[i].parent_id));
        }
    }

    // Scope counts of the result: the vacated scope loses the row, the
    // receiving scope gains it, all others are untouched.
    assert forall|i: int| 0 <= i < s2.len() implies scope_count(
        s2,
        (#[trigger] s2[i]).tenant_id,
        s2[i].workspace_id,
        s2[i].folder_type,
        s2[i].parent_id,
    ) == scope_count(s, s2[i].tenant_id, s2[i].workspace_id, s2[i].folder_type, s2[i].parent_id)
        - (if in_scope(f, s2[i].tenant_id, s2[i].workspace_id, s2[i].folder_type,
    s2[i].parent_id) {
        1int
    } else {
        0int
    }) + (if in_scope(f2, s2[i].tenant_id, s2[i].workspace_id, s2[i].folder_type,
    s2[i].parent_id) {
        1int
    } else {
        0int
    }) by {
        lemma_scope_count_pointwise(s, b, s2[i].tenant_id, s2[i].workspace_id, s2[i].folder_type,
        s2[i].parent_id);
        lemma_scope_count_update(b, ri, f2, s2[i].tenant_id, s2[i].workspace_id, s2[i].folder_type,
        s2[i].parent_id);
        assert(in_scope(b[ri], s2[i].tenant_id, s2[i].workspace_id, s2[i].folder_type,
        s2[i].parent_id) == in_scope(f, s2[i].tenant_id, s2[i].workspace_id, s2[i].folder_type,
        s2[i].parent_id));
    }

    // Position ranges and distinctness.
    if po == pn {
        // Reorder within one scope: the scope keeps its n members and the
        // compress-then-shift pair renumbers the survivors onto
        // {1..n} minus the requested slot.
        assert(1 <= new_seq <= n_old);
        assert(in_scope(f2, t, w, ty, po));
        assert forall|i: int|
            0 <= i < s2.len() implies 1 <= (#[trigger] s2[i]).seq && s2[i].seq <= scope_count(
            s2,
            s2[i].tenant_id,
            s2[i].workspace_id,
            s2[i].folder_type,
            s2[i].parent_id,
        ) by {
            assert(scope_count(s2, s2[i].tenant_id, s2[i].workspace_id, s2[i].folder_type,
            s2[i].parent_id) == scope_count(s, s2[i].tenant_id, s2[i].workspace_id,
            s2[i].folder_type, s2[i].parent_id) - (if in_scope(f, s2[i].tenant_id,
            s2[i].workspace_id, s2[i].folder_type, s2[i].parent_id) {
                1int
            } else {
                0int
            }) + (if in_scope(f2, s2[i].tenant_id, s2[i].workspace_id, s2[i].folder_type,
            s2[i].parent_id) {
                1int
            } else {
                0int
            }));
            if i == ri {
                assert(s2[i].seq == new_seq);
            } else if in_scope(s[i], t, w, ty, po) {
                assert(same_scope(s[i], s[ri]));
                assert(s[i].seq != f.seq);
                assert(s[i].seq <= n_old);
            } else {
                assert(s2[i].seq == s[i].seq);
                if in_scope(f, s2[i].tenant_id, s2[i].workspace_id, s2[i].folder_type,
                s2[i].parent_id) {
                    assert(in_scope(s[i], t, w, ty, po));
                    assert(false);
                }
            }
        }
        assert forall|i: int, j: int|
            0 <= i < s2.len() && 0 <= j < s2.len() && i != j && same_scope(
                #[trigger] s2[i],
                #[trigger] s2[j],
            ) implies s2[i].seq != s2[j].seq by {
            assert(same_scope(s[i], s[j]));
            if i != ri && j != ri {
                if in_scope(s[i], t, w, ty, po) {
                    assert(in_scope(s[j], t, w, ty, po));
                    assert(same_scope(s[i], s[ri]) && same_scope(s[j], s[ri]));
                    assert(s[i].seq != f.seq && s[j].seq != f.seq && s[i].seq != s[j].seq);
                } else {
                    assert(!in_scope(a[i], t, w, ty, pn) && !in_scope(a[j], t, w, ty, pn));
                    assert(s2[i].seq == s[i].seq && s2[j].seq == s[j].seq);
                }
            } else {
                // One of the pair is the moved row at the requested slot;
                // every survivor dodges that slot.
                let k = if i == ri { j } else { i };
                assert(in_scope(s[k], t, w, ty, po));
                assert(same_scope(s[k], s[ri]));
                assert(s[k].seq != f.seq);
                if s[k].seq > f.seq {
                    assert(a[k].seq == s[k].seq - 1);
                } else {
                    assert(a[k].seq == s[k].seq);
                }
                assert(s2[k].seq != new_seq);
            }
        }
    } else {
        // Move across scopes: the old scope compresses to n_old - 1
        // members, the new scope opens a slot among its n_new members.
        assert(1 <= new_seq <= n_new + 1);
        assert(!in_scope(f, t, w, ty, pn));
        assert(in_scope(f2, t, w, ty, pn));
        assert(!in_scope(f2, t, w, ty, po));
        assert forall|i: int|
            0 <= i < s2.len() implies 1 <= (#[trigger] s2[i]).seq && s2[i].seq <= scope_count(
            s2,
            s2[i].tenant_id,
            s2[i].workspace_id,
            s2[i].folder_type,
            s2[i].parent_id,
        ) by {
            assert(scope_count(s2, s2[i].tenant_id, s2[i].workspace_id, s2[i].folder_type,
            s2[i].parent_id) == scope_count(s, s2[i].tenant_id, s2[i].workspace_id,
            s2[i].folder_type, s2[i].parent_id) - (if in_scope(f, s2[i].tenant_id,
            s2[i].workspace_id, s2[i].folder_type, s2[i].parent_id) {
                1int
            } else {
                0int
            }) + (if in_scope(f2, s2[i].tenant_id, s2[i].workspace_id, s2[i].folder_type,
            s2[i].parent_id) {
                1int
            } else {
                0int
            }));
            if i == ri {
                assert(s2[i].seq == new_seq);
                assert(scope_count(s2, t, w, ty, pn) == n_new + 1);
            } else if in_scope(s[i], t, w, ty, po) {
                assert(same_scope(s[i], s[ri]));
                assert(s[i].seq != f.seq);
                assert(!in_scope(a[i], t, w, ty, pn));
                assert(s2[i].seq == a[i].seq);
            } else if in_scope(s[i], t, w, ty, pn) {
                assert(a[i] == s[i]);
                assert(s[i].seq <= n_new);
            } else {
                assert(s2[i].seq == s[i].seq);
                if in_scope(f, s2[i].tenant_id, s2[i].workspace_id, s2[i].folder_type,
                s2[i].parent_id) {
                    assert(in_scope(s[i], t, w, ty, po));
                    assert(false);
                }
                if in_scope(f2, s2[i].tenant_id, s2[i].workspace_id, s2[i].folder_type,
                s2[i].parent_id) {
                    assert(in_scope(s[i], t, w, ty, pn));
                    assert(false);
                }
            }
        }
        assert forall|i: int, j: int|
            0 <= i < s2.len() && 0 <= j < s2.len() && i != j && same_scope(
                #[trigger] s2[i],
                #[trigger] s2[j],
            ) implies s2[i].seq != s2[j].seq by {
            if i != ri && j != ri {
                assert(same_scope(s[i], s[j]));
                if in_scope(s[i], t, w, ty, po) {
                    assert(in_scope(s[j], t, w, ty, po));
                    assert(same_scope(s[i], s[ri]) && same_scope(s[j], s[ri]));
                    assert(s[i].seq != f.seq && s[j].seq != f.seq && s[i].seq != s[j].seq);
                    assert(!in_scope(a[i], t, w, ty, pn) && !in_scope(a[j], t, w, ty, pn));
                } else if in_scope(s[i], t, w, ty, pn) {
                    assert(in_scope(s[j], t, w, ty, pn));
                    assert(a[i] == s[i] && a[j] == s[j]);
                    assert(s[i].seq != s[j].seq);
                } else {
                    assert(s2[i].seq == s[i].seq && s2[j].seq == s[j].seq);
                    assert(s[i].seq != s[j].seq);
                }
            } else {
                // The moved row sits in the receiving scope at the slot
                // the shift just vacated.
                let k = if i == ri { j } else { i };
                assert(same_scope(s2[k], s2[ri]));
                assert(in_scope(s2[k], t, w, ty, pn));
                assert(s[k].parent_id == pn && k != ri);
                assert(in_scope(s[k], t, w, ty, pn));
                assert(a[k] == s[k]);
                assert(s2[k].seq != new_seq);
            }
        }
    }
}

} // verus!
