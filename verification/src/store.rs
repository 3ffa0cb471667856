//! The folder table and the sibling-sequence invariant.
//!
//! Rows live in one flat table.  A *scope* is one sibling set: all rows that
//! share a (tenant, workspace, folder type, parent) tuple.  Well-formed
//! tables keep, in every scope with `n` rows, exactly the sibling positions
//! `1..=n` — no duplicates and no gaps.

use vstd::prelude::*;

use crate::folder::{clone_opt_text, Folder};

verus! {

/// Upper bound on the number of rows a table accepts.  It keeps every
/// sibling position strictly below `i32::MAX`, so renumbering in `i32`
/// arithmetic cannot overflow.
pub const MAX_FOLDER_ROWS: usize = 0x7fff_fffe;

/// Row membership in one sibling scope.
pub open spec fn in_scope(
    f: Folder,
    tenant_id: u64,
    workspace_id: u64,
    folder_type: i32,
    parent_id: u64,
) -> bool {
    &&& f.tenant_id == tenant_id
    &&& f.workspace_id == workspace_id
    &&& f.folder_type == folder_type
    &&& f.parent_id == parent_id
}

/// Two rows are siblings of the same scope.
pub open spec fn same_scope(a: Folder, b: Folder) -> bool {
    in_scope(a, b.tenant_id, b.workspace_id, b.folder_type, b.parent_id)
}

/// Number of rows in one sibling scope.
pub open spec fn scope_count(s: Seq<Folder>, t: u64, w: u64, ty: i32, p: u64) -> nat
    decreases s.len(),
{
    if s.len() == 0 {
        0
    } else {
        scope_count(s.drop_last(), t, w, ty, p) + if in_scope(s.last(), t, w, ty, p) {
            1nat
        } else {
            0nat
        }
    }
}

/// Some row of the given scope carries sibling position `k`.
pub open spec fn scope_has_seq(s: Seq<Folder>, t: u64, w: u64, ty: i32, p: u64, k: int) -> bool {
    exists|i: int| 0 <= i < s.len() && in_scope(#[trigger] s[i], t, w, ty, p) && s[i].seq == k
}

/// Row lookup is always by (tenant, workspace, id).
pub open spec fn row_matches(f: Folder, t: u64, w: u64, id: u64) -> bool {
    f.tenant_id == t && f.workspace_id == w && f.id == id
}

pub open spec fn has_row(s: Seq<Folder>, t: u64, w: u64, id: u64) -> bool {
    exists|i: int| 0 <= i < s.len() && row_matches(#[trigger] s[i], t, w, id)
}

/// Index of the first row with the given identity; `s.len()` when absent.
pub open spec fn row_index(s: Seq<Folder>, t: u64, w: u64, id: u64) -> int
    decreases s.len(),
{
    if s.len() == 0 {
        0
    } else if row_matches(s[0], t, w, id) {
        0
    } else {
        1 + row_index(s.drop_first(), t, w, id)
    }
}

/// The folder with this id has at least one child (of any type) in the
/// same tenant and workspace.
pub open spec fn has_child(s: Seq<Folder>, t: u64, w: u64, id: u64) -> bool {
    exists|i: int|
        0 <= i < s.len() && (#[trigger] s[i]).tenant_id == t && s[i].workspace_id == w
            && s[i].parent_id == id
}

/// Number of children (of any type) of the folder with this id.
pub open spec fn child_count(s: Seq<Folder>, t: u64, w: u64, id: u64) -> nat
    decreases s.len(),
{
    if s.len() == 0 {
        0
    } else {
        child_count(s.drop_last(), t, w, id) + if s.last().tenant_id == t
            && s.last().workspace_id == w && s.last().parent_id == id {
            1nat
        } else {
            0nat
        }
    }
}

/// No two rows share an id.
pub open spec fn ids_unique(s: Seq<Folder>) -> bool {
    forall|i: int, j: int|
        0 <= i < s.len() && 0 <= j < s.len() && i != j ==> (#[trigger] s[i]).id != (
        #[trigger] s[j]).id
}

/// Ids are nonzero (zero is the root sentinel) and no row is its own parent.
pub open spec fn rows_ok(s: Seq<Folder>) -> bool {
    forall|i: int|
        0 <= i < s.len() ==> (#[trigger] s[i]).id != 0 && s[i].parent_id != s[i].id
}

/// Every non-root parent reference resolves to a row of the same tenant
/// and workspace.
pub open spec fn parents_exist(s: Seq<Folder>) -> bool {
    forall|i: int|
        0 <= i < s.len() && (#[trigger] s[i]).parent_id != 0 ==> has_row(
            s,
            s[i].tenant_id,
            s[i].workspace_id,
            s[i].parent_id,
        )
}

/// Sibling positions: within bounds, and no scope holds a position twice.
/// Together the two clauses pin every scope's positions to exactly
/// `{1, ..., n}` (see `lemma_scope_seqs_dense`).
pub open spec fn seqs_dense(s: Seq<Folder>) -> bool {
    &&& forall|i: int|
        0 <= i < s.len() ==> 1 <= (#[trigger] s[i]).seq && s[i].seq <= scope_count(
            s,
            s[i].tenant_id,
            s[i].workspace_id,
            s[i].folder_type,
            s[i].parent_id,
        )
    &&& forall|i: int, j: int|
        0 <= i < s.len() && 0 <= j < s.len() && i != j && same_scope(
            #[trigger] s[i],
            #[trigger] s[j],
        ) ==> s[i].seq != s[j].seq
}

/// Well-formedness of the whole table.
pub open spec fn folders_wf(s: Seq<Folder>) -> bool {
    &&& s.len() <= MAX_FOLDER_ROWS
    &&& ids_unique(s)
    &&& rows_ok(s)
    &&& parents_exist(s)
    &&& seqs_dense(s)
}

// ------------------------------------------------------------------
// Counting lemmas.
// ------------------------------------------------------------------

/// A scope never holds more rows than the table.
pub proof fn lemma_scope_count_le_len(s: Seq<Folder>, t: u64, w: u64, ty: i32, p: u64)
    ensures
        scope_count(s, t, w, ty, p) <= s.len(),
    decreases s.len(),
{
    if s.len() > 0 {
        lemma_scope_count_le_len(s.drop_last(), t, w, ty, p);
    }
}

/// Appending one row raises exactly the count of its own scope.
pub proof fn lemma_scope_count_push(s: Seq<Folder>, f: Folder, t: u64, w: u64, ty: i32, p: u64)
    ensures
        scope_count(s.push(f), t, w, ty, p) == scope_count(s, t, w, ty, p) + if in_scope(
            f,
            t,
            w,
            ty,
            p,
        ) {
            1nat
        } else {
            0nat
        },
{
    assert(s.push(f).drop_last() =~= s);
    assert(s.push(f).last() == f);
}

/// Removing one row lowers exactly the count of its own scope.
pub proof fn lemma_scope_count_remove(s: Seq<Folder>, i: int, t: u64, w: u64, ty: i32, p: u64)
    requires
        0 <= i < s.len(),
    ensures
        scope_count(s.remove(i), t, w, ty, p) + if in_scope(s[i], t, w, ty, p) {
            1nat
        } else {
            0nat
        } == scope_count(s, t, w, ty, p),
    decreases s.len(),
{
    if i == s.len() - 1 {
        assert(s.remove(i) =~= s.drop_last());
    } else {
        assert(s.remove(i).drop_last() =~= s.drop_last().remove(i));
        assert(s.remove(i).last() == s.last());
        lemma_scope_count_remove(s.drop_last(), i, t, w, ty, p);
    }
}

/// Replacing one row adjusts the counts of the two scopes involved.
pub proof fn lemma_scope_count_update(
    s: Seq<Folder>,
    i: int,
    f: Folder,
    t: u64,
    w: u64,
    ty: i32,
    p: u64,
)
    requires
        0 <= i < s.len(),
    ensures
        scope_count(s.update(i, f), t, w, ty, p) + if in_scope(s[i], t, w, ty, p) {
            1nat
        } else {
            0nat
        } == scope_count(s, t, w, ty, p) + if in_scope(f, t, w, ty, p) {
            1nat
        } else {
            0nat
        },
    decreases s.len(),
{
    if i == s.len() - 1 {
        assert(s.update(i, f).drop_last() =~= s.drop_last());
        assert(s.update(i, f).last() == f);
    } else {
        assert(s.update(i, f).drop_last() =~= s.drop_last().update(i, f));
        assert(s.update(i, f).last() == s.last());
        lemma_scope_count_update(s.drop_last(), i, f, t, w, ty, p);
    }
}

/// Tables whose rows agree pointwise on scope membership have the same
/// scope count, whatever the other fields do.
pub proof fn lemma_scope_count_pointwise(
    a: Seq<Folder>,
    b: Seq<Folder>,
    t: u64,
    w: u64,
    ty: i32,
    p: u64,
)
    requires
        a.len() == b.len(),
        forall|i: int|
            0 <= i < a.len() ==> in_scope(#[trigger] a[i], t, w, ty, p) == in_scope(
                #[trigger] b[i],
                t,
                w,
                ty,
                p,
            ),
    ensures
        scope_count(a, t, w, ty, p) == scope_count(b, t, w, ty, p),
    decreases a.len(),
{
    if a.len() > 0 {
        assert(forall|i: int|
            0 <= i < a.drop_last().len() ==> #[trigger] a.drop_last()[i] == a[i]);
        assert(forall|i: int|
            0 <= i < b.drop_last().len() ==> #[trigger] b.drop_last()[i] == b[i]);
        lemma_scope_count_pointwise(a.drop_last(), b.drop_last(), t, w, ty, p);
        assert(a.last() == a[a.len() - 1]);
        assert(b.last() == b[a.len() - 1]);
    }
}

/// A table has a child row exactly when its child count is positive.
pub proof fn lemma_child_count_has_child(s: Seq<Folder>, t: u64, w: u64, id: u64)
    ensures
        has_child(s, t, w, id) <==> child_count(s, t, w, id) > 0,
    decreases s.len(),
{
    if s.len() > 0 {
        lemma_child_count_has_child(s.drop_last(), t, w, id);
        assert(forall|i: int|
            0 <= i < s.drop_last().len() ==> #[trigger] s.drop_last()[i] == s[i]);
        if has_child(s.drop_last(), t, w, id) {
            let i = choose|i: int|
                0 <= i < s.drop_last().len() && (#[trigger] s.drop_last()[i]).tenant_id == t
                    && s.drop_last()[i].workspace_id == w && s.drop_last()[i].parent_id == id;
            assert(s[i].tenant_id == t && s[i].workspace_id == w && s[i].parent_id == id);
        }
        if child_count(s, t, w, id) > 0 && child_count(s.drop_last(), t, w, id) == 0 {
            assert(s.last() == s[s.len() - 1]);
        }
        if has_child(s, t, w, id) && !has_child(s.drop_last(), t, w, id) {
            let i = choose|i: int|
                0 <= i < s.len() && (#[trigger] s[i]).tenant_id == t && s[i].workspace_id == w
                    && s[i].parent_id == id;
            if i < s.len() - 1 {
                assert(s.drop_last()[i] == s[i]);
            } else {
                assert(s.last() == s[i]);
            }
        }
    }
}

// ------------------------------------------------------------------
// Row lookup lemmas.
// ------------------------------------------------------------------

/// What `row_index` returns: the first match, or the length when there is
/// no match at all.
pub proof fn lemma_row_index(s: Seq<Folder>, t: u64, w: u64, id: u64)
    ensures
        0 <= row_index(s, t, w, id) <= s.len(),
        row_index(s, t, w, id) < s.len() ==> row_matches(s[row_index(s, t, w, id)], t, w, id),
        forall|j: int| 0 <= j < row_index(s, t, w, id) ==> !row_matches(#[trigger] s[j], t, w, id),
        has_row(s, t, w, id) <==> row_index(s, t, w, id) < s.len(),
    decreases s.len(),
{
    if s.len() == 0 {
    } else if row_matches(s[0], t, w, id) {
    } else {
        lemma_row_index(s.drop_first(), t, w, id);
        assert(forall|i: int|
            0 <= i < s.drop_first().len() ==> #[trigger] s.drop_first()[i] == s[i + 1]);
        let r = row_index(s, t, w, id);
        assert forall|j: int| 1 <= j < r implies !row_matches(#[trigger] s[j], t, w, id) by {
            assert(s.drop_first()[j - 1] == s[j]);
            assert(!row_matches(s.drop_first()[j - 1], t, w, id));
        }
        if has_row(s, t, w, id) {
            let i = choose|i: int| 0 <= i < s.len() && row_matches(#[trigger] s[i], t, w, id);
            assert(i != 0);
            assert(s.drop_first()[i - 1] == s[i]);
            assert(has_row(s.drop_first(), t, w, id));
        }
        if has_row(s.drop_first(), t, w, id) {
            let i = choose|i: int|
                0 <= i < s.drop_first().len() && row_matches(#[trigger] s.drop_first()[i], t, w, id);
            assert(s[i + 1] == s.drop_first()[i]);
        }
    }
}

/// Two tables that agree pointwise on identity fields resolve lookups to
/// the same index.
pub proof fn lemma_row_index_pointwise(a: Seq<Folder>, b: Seq<Folder>, t: u64, w: u64, id: u64)
    requires
        a.len() == b.len(),
        forall|i: int|
            0 <= i < a.len() ==> ((#[trigger] a[i]).tenant_id == (#[trigger] b[i]).tenant_id
                && a[i].workspace_id == b[i].workspace_id && a[i].id == b[i].id),
    ensures
        row_index(a, t, w, id) == row_index(b, t, w, id),
        has_row(a, t, w, id) == has_row(b, t, w, id),
    decreases a.len(),
{
    lemma_row_index(a, t, w, id);
    lemma_row_index(b, t, w, id);
    if a.len() > 0 && !row_matches(a[0], t, w, id) {
        assert(forall|i: int|
            0 <= i < a.drop_first().len() ==> #[trigger] a.drop_first()[i] == a[i + 1]);
        assert(forall|i: int|
            0 <= i < b.drop_first().len() ==> #[trigger] b.drop_first()[i] == b[i + 1]);
        lemma_row_index_pointwise(a.drop_first(), b.drop_first(), t, w, id);
    }
}

// ------------------------------------------------------------------
// Density: positions of a scope with n rows are exactly {1, ..., n}.
// ------------------------------------------------------------------

/// The set of sibling positions used by one scope.
pub open spec fn scope_seq_set(s: Seq<Folder>, t: u64, w: u64, ty: i32, p: u64) -> Set<int>
    decreases s.len(),
{
    if s.len() == 0 {
        Set::empty()
    } else if in_scope(s.last(), t, w, ty, p) {
        scope_seq_set(s.drop_last(), t, w, ty, p).insert(s.last().seq as int)
    } else {
        scope_seq_set(s.drop_last(), t, w, ty, p)
    }
}

/// Membership in `scope_seq_set` is exactly `scope_has_seq`.
pub proof fn lemma_scope_seq_set_membership(s: Seq<Folder>, t: u64, w: u64, ty: i32, p: u64)
    ensures
        scope_seq_set(s, t, w, ty, p).finite(),
        forall|k: int|
            scope_seq_set(s, t, w, ty, p).contains(k) <==> scope_has_seq(s, t, w, ty, p, k),
    decreases s.len(),
{
    if s.len() == 0 {
        assert(forall|k: int| !scope_has_seq(s, t, w, ty, p, k));
    } else {
        lemma_scope_seq_set_membership(s.drop_last(), t, w, ty, p);
        assert(forall|i: int|
            0 <= i < s.drop_last().len() ==> #[trigger] s.drop_last()[i] == s[i]);
        assert(s.last() == s[s.len() - 1]);
        assert forall|k: int|
            scope_seq_set(s, t, w, ty, p).contains(k) implies scope_has_seq(
            s,
            t,
            w,
            ty,
            p,
            k,
        ) by {
            if in_scope(s.last(), t, w, ty, p) && k == s.last().seq as int {
                assert(in_scope(s[s.len() - 1], t, w, ty, p) && s[s.len() - 1].seq == k);
            } else {
                assert(scope_has_seq(s.drop_last(), t, w, ty, p, k));
                let i = choose|i: int|
                    0 <= i < s.drop_last().len() && in_scope(
                        #[trigger] s.drop_last()[i],
                        t,
                        w,
                        ty,
                        p,
                    ) && s.drop_last()[i].seq == k;
                assert(in_scope(s[i], t, w, ty, p) && s[i].seq == k);
            }
        }
        assert forall|k: int|
            scope_has_seq(s, t, w, ty, p, k) implies scope_seq_set(s, t, w, ty, p).contains(
            k,
        ) by {
            let i = choose|i: int|
                0 <= i < s.len() && in_scope(#[trigger] s[i], t, w, ty, p) && s[i].seq == k;
            if i < s.len() - 1 {
                assert(s.drop_last()[i] == s[i]);
                assert(scope_has_seq(s.drop_last(), t, w, ty, p, k));
            }
        }
    }
}

/// Extracts the index of a row witnessing `scope_has_seq`.
pub proof fn choose_scope_row(s: Seq<Folder>, t: u64, w: u64, ty: i32, p: u64, k: int) -> (i: int)
    requires
        scope_has_seq(s, t, w, ty, p, k),
    ensures
        0 <= i < s.len(),
        in_scope(s[i], t, w, ty, p),
        s[i].seq == k,
{
    choose|i: int| 0 <= i < s.len() && in_scope(#[trigger] s[i], t, w, ty, p) && s[i].seq == k
}

/// When no scope position repeats, the position set is as large as the
/// scope itself.
pub proof fn lemma_scope_seq_set_size(s: Seq<Folder>, t: u64, w: u64, ty: i32, p: u64)
    requires
        forall|i: int, j: int|
            0 <= i < s.len() && 0 <= j < s.len() && i != j && same_scope(
                #[trigger] s[i],
                #[trigger] s[j],
            ) ==> s[i].seq != s[j].seq,
    ensures
        scope_seq_set(s, t, w, ty, p).len() == scope_count(s, t, w, ty, p),
    decreases s.len(),
{
    lemma_scope_seq_set_membership(s, t, w, ty, p);
    if s.len() > 0 {
        let d = s.drop_last();
        assert(forall|i: int| 0 <= i < d.len() ==> #[trigger] d[i] == s[i]);
        lemma_scope_seq_set_size(d, t, w, ty, p);
        lemma_scope_seq_set_membership(d, t, w, ty, p);
        if in_scope(s.last(), t, w, ty, p) {
            assert(s.last() == s[s.len() - 1]);
            // The last row's position is new: no earlier sibling shares it.
            if scope_seq_set(d, t, w, ty, p).contains(s.last().seq as int) {
                assert(scope_has_seq(d, t, w, ty, p, s.last().seq as int));
                let i = choose_scope_row(d, t, w, ty, p, s.last().seq as int);
                assert(d[i] == s[i]);
                assert(in_scope(s[i], t, w, ty, p) && s[i].seq == s.last().seq);
                assert(in_scope(s[s.len() - 1], t, w, ty, p));
                assert(same_scope(s[i], s[s.len() - 1]));
                assert(s[i].seq != s[s.len() - 1].seq);
                assert(false);
            }
        }
    }
}

/// Pigeonhole: `n` distinct positions inside `{1, ..., n}` hit every value.
/// This is the density guarantee: after any number of well-formed
/// mutations, every scope of `n` siblings uses exactly the positions
/// `1..=n`.
pub proof fn lemma_scope_seqs_dense(s: Seq<Folder>, t: u64, w: u64, ty: i32, p: u64)
    requires
        folders_wf(s),
    ensures
        forall|k: int|
            1 <= k <= scope_count(s, t, w, ty, p) ==> scope_has_seq(s, t, w, ty, p, k),
        forall|i: int|
            0 <= i < s.len() && in_scope(#[trigger] s[i], t, w, ty, p) ==> 1 <= s[i].seq
                && s[i].seq <= scope_count(s, t, w, ty, p),
{
    let n = scope_count(s, t, w, ty, p) as int;
    let used = scope_seq_set(s, t, w, ty, p);
    let range = vstd::set_lib::set_int_range(1, n + 1);
    lemma_scope_seq_set_membership(s, t, w, ty, p);
    lemma_scope_seq_set_size(s, t, w, ty, p);
    vstd::set_lib::lemma_int_range(1, n + 1);
    // Row positions stay inside the range: membership of a row in this
    // scope rewrites its own scope parameters.
    assert forall|i: int|
        0 <= i < s.len() && in_scope(#[trigger] s[i], t, w, ty, p) implies 1 <= s[i].seq
        && s[i].seq <= n by {
        assert(scope_count(s, s[i].tenant_id, s[i].workspace_id, s[i].folder_type, s[i].parent_id)
            == scope_count(s, t, w, ty, p));
    }
    assert forall|k: int| used.contains(k) implies range.contains(k) by {
        assert(scope_has_seq(s, t, w, ty, p, k));
        let i = choose_scope_row(s, t, w, ty, p, k);
        assert(1 <= s[i].seq && s[i].seq <= n);
    }
    assert(used.subset_of(range));
    assert forall|k: int| 1 <= k <= n implies scope_has_seq(s, t, w, ty, p, k) by {
        if !used.contains(k) {
            assert(used.subset_of(range.remove(k)));
            assert(range.remove(k).len() == n - 1);
            vstd::set_lib::lemma_len_subset(used, range.remove(k));
            assert(false);
        }
    }
}


// ------------------------------------------------------------------
// Further spec helpers for the executable table.
// ------------------------------------------------------------------

/// Some row anywhere in the table already uses this id.
pub open spec fn id_used(s: Seq<Folder>, id: u64) -> bool {
    exists|i: int| 0 <= i < s.len() && (#[trigger] s[i]).id == id
}

/// Row membership in one tree: same tenant, workspace and folder type.
pub open spec fn type_matches(f: Folder, t: u64, w: u64, ty: i32) -> bool {
    f.tenant_id == t && f.workspace_id == w && f.folder_type == ty
}

/// The rows of one tree, in table order.
pub open spec fn rows_of_type(s: Seq<Folder>, t: u64, w: u64, ty: i32) -> Seq<Folder>
    decreases s.len(),
{
    if s.len() == 0 {
        Seq::empty()
    } else if type_matches(s.last(), t, w, ty) {
        rows_of_type(s.drop_last(), t, w, ty).push(s.last())
    } else {
        rows_of_type(s.drop_last(), t, w, ty)
    }
}

/// The table after opening a slot: every row of the scope at position
/// `from` or later moves up by one.
pub open spec fn shifted(s: Seq<Folder>, t: u64, w: u64, ty: i32, p: u64, from: int) -> Seq<
    Folder,
> {
    Seq::new(
        s.len(),
        |i: int|
            if in_scope(s[i], t, w, ty, p) && s[i].seq >= from {
                Folder { seq: (s[i].seq + 1) as i32, ..s[i] }
            } else {
                s[i]
            },
    )
}

/// The table after closing a gap: every row of the scope past position
/// `from` moves down by one.
pub open spec fn compressed(s: Seq<Folder>, t: u64, w: u64, ty: i32, p: u64, from: int) -> Seq<
    Folder,
> {
    Seq::new(
        s.len(),
        |i: int|
            if in_scope(s[i], t, w, ty, p) && s[i].seq > from {
                Folder { seq: (s[i].seq - 1) as i32, ..s[i] }
            } else {
                s[i]
            },
    )
}

/// A scope is empty exactly when it has no member row.
pub proof fn lemma_scope_count_zero(s: Seq<Folder>, t: u64, w: u64, ty: i32, p: u64)
    ensures
        scope_count(s, t, w, ty, p) == 0 <==> forall|i: int|
            0 <= i < s.len() ==> !in_scope(#[trigger] s[i], t, w, ty, p),
    decreases s.len(),
{
    if s.len() > 0 {
        lemma_scope_count_zero(s.drop_last(), t, w, ty, p);
        assert(forall|i: int|
            0 <= i < s.drop_last().len() ==> #[trigger] s.drop_last()[i] == s[i]);
        assert(s.last() == s[s.len() - 1]);
        if scope_count(s, t, w, ty, p) == 0 {
            assert forall|i: int|
                0 <= i < s.len() implies !in_scope(#[trigger] s[i], t, w, ty, p) by {
                if i < s.len() - 1 {
                    assert(s.drop_last()[i] == s[i]);
                }
            }
        }
    }
}

// ------------------------------------------------------------------
// The executable folder table.
// ------------------------------------------------------------------

/// The folder table: the flat relation all tree operations run against.
/// Its abstract value (`@`) is the sequence of rows in table order.
pub struct FolderDao {
    rows: Vec<Folder>,
}

impl View for FolderDao {
    type V = Seq<Folder>;

    closed spec fn view(&self) -> Seq<Folder> {
        self.rows@
    }
}

impl FolderDao {
    /// An empty, well-formed table.
    pub fn new() -> (r: FolderDao)
        ensures
            r@ == Seq::<Folder>::empty(),
            folders_wf(r@),
    {
        let r = FolderDao { rows: Vec::new() };
        proof {
            assert(r@ =~= Seq::<Folder>::empty());
        }
        r
    }

    /// All rows of one tree (tenant, workspace, folder type), in table
    /// order.
    pub fn list(&self, tenant_id: u64, workspace_id: u64, folder_type: i32) -> (r: Vec<Folder>)
        ensures
            r@ == rows_of_type(self@, tenant_id, workspace_id, folder_type),
    {
        let mut out: Vec<Folder> = Vec::new();
        let mut i: usize = 0;
        proof {
            assert(self@.subrange(0, 0) =~= Seq::<Folder>::empty());
            assert(out@ =~= rows_of_type(self@.subrange(0, 0), tenant_id, workspace_id,
            folder_type));
        }
        while i < self.rows.len()
            invariant
                i <= self@.len(),
                self@.len() == self.rows@.len(),
                out@ == rows_of_type(
                    self@.subrange(0, i as int),
                    tenant_id,
                    workspace_id,
                    folder_type,
                ),
            decreases self@.len() - i,
        {
            let f = &self.rows[i];
            proof {
                assert(self@.subrange(0, i + 1).drop_last() =~= self@.subrange(0, i as int));
                assert(self@.subrange(0, i + 1).last() == self@[i as int]);
            }
            if f.tenant_id == tenant_id && f.workspace_id == workspace_id && f.folder_type
                == folder_type {
                out.push(f.clone());
            }
            i = i + 1;
        }
        proof {
            assert(self@.subrange(0, self@.len() as int) =~= self@);
        }
        out
    }

    /// Looks a folder up by id within one tenant and workspace.
    pub fn get_by_id(&self, tenant_id: u64, workspace_id: u64, id: u64) -> (r: Option<Folder>)
        ensures
            r is Some <==> has_row(self@, tenant_id, workspace_id, id),
            r matches Some(f) ==> f == self@[row_index(self@, tenant_id, workspace_id, id)],
    {
        proof {
            lemma_row_index(self@, tenant_id, workspace_id, id);
        }
        let mut i: usize = 0;
        while i < self.rows.len()
            invariant
                i <= self@.len(),
                self@.len() == self.rows@.len(),
                forall|j: int| 0 <= j < i ==> !row_matches(#[trigger] self@[j], tenant_id,
                workspace_id, id),
            decreases self@.len() - i,
        {
            let f = &self.rows[i];
            if f.tenant_id == tenant_id && f.workspace_id == workspace_id && f.id == id {
                proof {
                    lemma_row_index(self@, tenant_id, workspace_id, id);
                    let ri = row_index(self@, tenant_id, workspace_id, id);
                    assert(row_matches(self@[i as int], tenant_id, workspace_id, id));
                    assert(has_row(self@, tenant_id, workspace_id, id));
                    if ri < i {
                        assert(row_matches(self@[ri], tenant_id, workspace_id, id));
                        assert(false);
                    }
                    assert(ri == i);
                }
                return Some(f.clone());
            }
            i = i + 1;
        }
        proof {
            if has_row(self@, tenant_id, workspace_id, id) {
                let j = choose|j: int|
                    0 <= j < self@.len() && row_matches(#[trigger] self@[j], tenant_id,
                    workspace_id, id);
                assert(false);
            }
        }
        None
    }

    /// Number of children (of any folder type) of the given folder.
    pub fn count_children(&self, tenant_id: u64, workspace_id: u64, parent_id: u64) -> (n: usize)
        ensures
            n == child_count(self@, tenant_id, workspace_id, parent_id),
    {
        let mut n: usize = 0;
        let mut i: usize = 0;
        proof {
            assert(self@.subrange(0, 0) =~= Seq::<Folder>::empty());
        }
        while i < self.rows.len()
            invariant
                i <= self@.len(),
                self@.len() == self.rows@.len(),
                n <= i,
                n == child_count(self@.subrange(0, i as int), tenant_id, workspace_id, parent_id),
            decreases self@.len() - i,
        {
            let f = &self.rows[i];
            proof {
                assert(self@.subrange(0, i + 1).drop_last() =~= self@.subrange(0, i as int));
                assert(self@.subrange(0, i + 1).last() == self@[i as int]);
            }
            if f.tenant_id == tenant_id && f.workspace_id == workspace_id && f.parent_id
                == parent_id {
                n = n + 1;
            }
            i = i + 1;
        }
        proof {
            assert(self@.subrange(0, self@.len() as int) =~= self@);
        }
        n
    }

    /// Greatest sibling position used in one scope, or `None` for an empty
    /// scope.
    pub fn get_max_seq(&self, tenant_id: u64, workspace_id: u64, folder_type: i32, parent_id: u64)
        -> (r: Option<i32>)
        ensures
            r is None <==> scope_count(self@, tenant_id, workspace_id, folder_type, parent_id)
                == 0,
            r matches Some(m) ==> scope_has_seq(
                self@,
                tenant_id,
                workspace_id,
                folder_type,
                parent_id,
                m as int,
            ) && forall|i: int|
                0 <= i < self@.len() && in_scope(#[trigger] self@[i], tenant_id, workspace_id,
                folder_type, parent_id) ==> self@[i].seq <= m,
    {
        let mut best: Option<i32> = None;
        let mut i: usize = 0;
        while i < self.rows.len()
            invariant
                i <= self@.len(),
                self@.len() == self.rows@.len(),
                best is None ==> forall|j: int|
                    0 <= j < i ==> !in_scope(#[trigger] self@[j], tenant_id, workspace_id,
                    folder_type, parent_id),
                best matches Some(m) ==> (exists|j: int|
                    0 <= j < i && in_scope(#[trigger] self@[j], tenant_id, workspace_id,
                    folder_type, parent_id) && self@[j].seq == m) && forall|j: int|
                    0 <= j < i && in_scope(#[trigger] self@[j], tenant_id, workspace_id,
                    folder_type, parent_id) ==> self@[j].seq <= m,
            decreases self@.len() - i,
        {
            let f = &self.rows[i];
            if f.tenant_id == tenant_id && f.workspace_id == workspace_id && f.folder_type
                == folder_type && f.parent_id == parent_id {
                let s = f.seq;
                best = match best {
                    None => Some(s),
                    Some(m) => if s > m {
                        Some(s)
                    } else {
                        Some(m)
                    },
                };
            }
            i = i + 1;
        }
        proof {
            lemma_scope_count_zero(self@, tenant_id, workspace_id, folder_type, parent_id);
            if best is None {
                assert(scope_count(self@, tenant_id, workspace_id, folder_type, parent_id) == 0);
            } else {
                if scope_count(self@, tenant_id, workspace_id, folder_type, parent_id) == 0 {
                    let j = choose|j: int|
                        0 <= j < self@.len() && in_scope(#[trigger] self@[j], tenant_id,
                        workspace_id, folder_type, parent_id) && self@[j].seq == best->Some_0;
                    assert(false);
                }
            }
        }
        best
    }

    /// Whether any row anywhere in the table uses this id.
    pub fn id_in_use(&self, id: u64) -> (r: bool)
        ensures
            r == id_used(self@, id),
    {
        let mut i: usize = 0;
        while i < self.rows.len()
            invariant
                i <= self@.len(),
                forall|j: int| 0 <= j < i ==> (#[trigger] self@[j]).id != id,
            decreases self@.len() - i,
        {
            if self.rows[i].id == id {
                return true;
            }
            i = i + 1;
        }
        proof {
            if id_used(self@, id) {
                let j = choose|j: int| 0 <= j < self@.len() && (#[trigger] self@[j]).id == id;
                assert(false);
            }
        }
        false
    }

    /// Number of rows in the table.
    pub fn row_count(&self) -> (n: usize)
        ensures
            n == self@.len(),
    {
        self.rows.len()
    }

    /// Appends one row as given; returns its id.
    pub fn insert(&mut self, folder: Folder) -> (id: u64)
        ensures
            final(self)@ == old(self)@.push(folder),
            id == folder.id,
    {
        let id = folder.id;
        self.rows.push(folder);
        id
    }

    /// Overwrites name and description of the row with the given identity;
    /// a miss leaves the table unchanged.
    pub fn update(&mut self, folder: &Folder) -> (hit: bool)
        ensures
            hit == has_row(old(self)@, folder.tenant_id, folder.workspace_id, folder.id),
            hit ==> final(self)@ == old(self)@.update(
                row_index(old(self)@, folder.tenant_id, folder.workspace_id, folder.id),
                (Folder {
                    name: folder.name,
                    description: folder.description,
                    ..old(self)@[row_index(
                        old(self)@,
                        folder.tenant_id,
                        folder.workspace_id,
                        folder.id,
                    )]
                }),
            ),
            !hit ==> final(self)@ == old(self)@,
    {
        proof {
            lemma_row_index(old(self)@, folder.tenant_id, folder.workspace_id, folder.id);
        }
        let mut i: usize = 0;
        while i < self.rows.len()
            invariant
                i <= self@.len(),
                self@ == old(self)@,
                forall|j: int| 0 <= j < i ==> !row_matches(#[trigger] self@[j], folder.tenant_id,
                folder.workspace_id, folder.id),
            decreases self@.len() - i,
        {
            let hit = {
                let f = &self.rows[i];
                f.tenant_id == folder.tenant_id && f.workspace_id == folder.workspace_id && f.id
                    == folder.id
            };
            if hit {
                proof {
                    lemma_row_index(old(self)@, folder.tenant_id, folder.workspace_id, folder.id);
                    let ri = row_index(old(self)@, folder.tenant_id, folder.workspace_id,
                    folder.id);
                    assert(row_matches(old(self)@[i as int], folder.tenant_id, folder.workspace_id,
                    folder.id));
                    assert(has_row(old(self)@, folder.tenant_id, folder.workspace_id, folder.id));
                    if ri < i {
                        assert(row_matches(old(self)@[ri], folder.tenant_id, folder.workspace_id,
                        folder.id));
                        assert(false);
                    }
                    assert(ri == i);
                }
                let mut nf = self.rows[i].clone();
                nf.name = folder.name.clone();
                nf.description = clone_opt_text(&folder.description);
                self.rows.set(i, nf);
                return true;
            }
            i = i + 1;
        }
        proof {
            if has_row(old(self)@, folder.tenant_id, folder.workspace_id, folder.id) {
                let j = choose|j: int|
                    0 <= j < old(self)@.len() && row_matches(#[trigger] old(self)@[j],
                    folder.tenant_id, folder.workspace_id, folder.id);
                assert(false);
            }
        }
        false
    }

    /// Removes the row with the given identity; a miss leaves the table
    /// unchanged.
    pub fn delete(&mut self, tenant_id: u64, workspace_id: u64, id: u64) -> (hit: bool)
        ensures
            hit == has_row(old(self)@, tenant_id, workspace_id, id),
            hit ==> final(self)@ == old(self)@.remove(
                row_index(old(self)@, tenant_id, workspace_id, id),
            ),
            !hit ==> final(self)@ == old(self)@,
    {
        proof {
            lemma_row_index(old(self)@, tenant_id, workspace_id, id);
        }
        let mut i: usize = 0;
        while i < self.rows.len()
            invariant
                i <= self@.len(),
                self@ == old(self)@,
                forall|j: int| 0 <= j < i ==> !row_matches(#[trigger] self@[j], tenant_id,
                workspace_id, id),
            decreases self@.len() - i,
        {
            let hit = {
                let f = &self.rows[i];
                f.tenant_id == tenant_id && f.workspace_id == workspace_id && f.id == id
            };
            if hit {
                proof {
                    lemma_row_index(old(self)@, tenant_id, workspace_id, id);
                    let ri = row_index(old(self)@, tenant_id, workspace_id, id);
                    assert(row_matches(old(self)@[i as int], tenant_id, workspace_id, id));
                    assert(has_row(old(self)@, tenant_id, workspace_id, id));
                    if ri < i {
                        assert(row_matches(old(self)@[ri], tenant_id, workspace_id, id));
                        assert(false);
                    }
                    assert(ri == i);
                }
                self.rows.remove(i);
                return true;
            }
            i = i + 1;
        }
        proof {
            if has_row(old(self)@, tenant_id, workspace_id, id) {
                let j = choose|j: int|
                    0 <= j < old(self)@.len() && row_matches(#[trigger] old(self)@[j], tenant_id,
                    workspace_id, id);
                assert(false);
            }
        }
        false
    }

    /// Opens a slot: every row of the scope at position `from_seq` or later
    /// moves up by one.
    pub fn shift_seq_on_insert(
        &mut self,
        tenant_id: u64,
        workspace_id: u64,
        folder_type: i32,
        parent_id: u64,
        from_seq: i32,
    )
        requires
            forall|i: int|
                0 <= i < old(self)@.len() && in_scope(#[trigger] old(self)@[i], tenant_id,
                workspace_id, folder_type, parent_id) && old(self)@[i].seq >= from_seq
                    ==> old(self)@[i].seq < i32::MAX,
        ensures
            final(self)@ == shifted(
                old(self)@,
                tenant_id,
                workspace_id,
                folder_type,
                parent_id,
                from_seq as int,
            ),
    {
        let mut i: usize = 0;
        while i < self.rows.len()
            invariant
                i <= self@.len(),
                self@.len() == old(self)@.len(),
                forall|j: int|
                    0 <= j < i ==> #[trigger] self@[j] == shifted(old(self)@, tenant_id,
                    workspace_id, folder_type, parent_id, from_seq as int)[j],
                forall|j: int| i <= j < self@.len() ==> #[trigger] self@[j] == old(self)@[j],
                forall|i: int|
                    0 <= i < old(self)@.len() && in_scope(#[trigger] old(self)@[i], tenant_id,
                    workspace_id, folder_type, parent_id) && old(self)@[i].seq >= from_seq
                        ==> old(self)@[i].seq < i32::MAX,
            decreases self@.len() - i,
        {
            let hit = {
                let f = &self.rows[i];
                f.tenant_id == tenant_id && f.workspace_id == workspace_id && f.folder_type
                    == folder_type && f.parent_id == parent_id && f.seq >= from_seq
            };
            if hit {
                let mut nf = self.rows[i].clone();
                nf.seq = nf.seq + 1;
                self.rows.set(i, nf);
            }
            i = i + 1;
        }
        proof {
            assert(final(self)@ =~= shifted(old(self)@, tenant_id, workspace_id, folder_type,
            parent_id, from_seq as int));
        }
    }

    /// Closes a gap: every row of the scope past position `from_seq` moves
    /// down by one.
    pub fn compress_seq_on_remove(
        &mut self,
        tenant_id: u64,
        workspace_id: u64,
        folder_type: i32,
        parent_id: u64,
        from_seq: i32,
    )
        ensures
            final(self)@ == compressed(
                old(self)@,
                tenant_id,
                workspace_id,
                folder_type,
                parent_id,
                from_seq as int,
            ),
    {
        let mut i: usize = 0;
        while i < self.rows.len()
            invariant
                i <= self@.len(),
                self@.len() == old(self)@.len(),
                forall|j: int|
                    0 <= j < i ==> #[trigger] self@[j] == compressed(old(self)@, tenant_id,
                    workspace_id, folder_type, parent_id, from_seq as int)[j],
                forall|j: int| i <= j < self@.len() ==> #[trigger] self@[j] == old(self)@[j],
            decreases self@.len() - i,
        {
            let hit = {
                let f = &self.rows[i];
                f.tenant_id == tenant_id && f.workspace_id == workspace_id && f.folder_type
                    == folder_type && f.parent_id == parent_id && f.seq > from_seq
            };
            if hit {
                let mut nf = self.rows[i].clone();
                nf.seq = nf.seq - 1;
                self.rows.set(i, nf);
            }
            i = i + 1;
        }
        proof {
            assert(final(self)@ =~= compressed(old(self)@, tenant_id, workspace_id, folder_type,
            parent_id, from_seq as int));
        }
    }

    /// Re-homes one row: overwrites its parent and sibling position.
    pub fn update_parent_and_seq(
        &mut self,
        tenant_id: u64,
        workspace_id: u64,
        id: u64,
        parent_id: u64,
        seq: i32,
    ) -> (hit: bool)
        ensures
            hit == has_row(old(self)@, tenant_id, workspace_id, id),
            hit ==> final(self)@ == old(self)@.update(
                row_index(old(self)@, tenant_id, workspace_id, id),
                (Folder {
                    parent_id,
                    seq,
                    ..old(self)@[row_index(old(self)@, tenant_id, workspace_id, id)]
                }),
            ),
            !hit ==> final(self)@ == old(self)@,
    {
        proof {
            lemma_row_index(old(self)@, tenant_id, workspace_id, id);
        }
        let mut i: usize = 0;
        while i < self.rows.len()
            invariant
                i <= self@.len(),
                self@ == old(self)@,
                forall|j: int| 0 <= j < i ==> !row_matches(#[trigger] self@[j], tenant_id,
                workspace_id, id),
            decreases self@.len() - i,
        {
            let hit = {
                let f = &self.rows[i];
                f.tenant_id == tenant_id && f.workspace_id == workspace_id && f.id == id
            };
            if hit {
                proof {
                    lemma_row_index(old(self)@, tenant_id, workspace_id, id);
                    let ri = row_index(old(self)@, tenant_id, workspace_id, id);
                    assert(row_matches(old(self)@[i as int], tenant_id, workspace_id, id));
                    assert(has_row(old(self)@, tenant_id, workspace_id, id));
                    if ri < i {
                        assert(row_matches(old(self)@[ri], tenant_id, workspace_id, id));
                        assert(false);
                    }
                    assert(ri == i);
                }
                let mut nf = self.rows[i].clone();
                nf.parent_id = parent_id;
                nf.seq = seq;
                self.rows.set(i, nf);
                return true;
            }
            i = i + 1;
        }
        proof {
            if has_row(old(self)@, tenant_id, workspace_id, id) {
                let j = choose|j: int|
                    0 <= j < old(self)@.len() && row_matches(#[trigger] old(self)@[j], tenant_id,
                    workspace_id, id);
                assert(false);
            }
        }
        false
    }
}

} // verus!
