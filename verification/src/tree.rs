//! Assembly of the folder forest from the flat table.
//!
//! `build_folder_tree` groups a flat list of nodes by parent and assembles
//! children lists recursively from the root sentinel `0`, each children
//! list sorted by sibling position with the display name as tie-break.
//! Node identity is tracked through `FolderBase` — a node minus its
//! children — so the contracts can say that assembly invents, duplicates
//! and loses nothing.

use vstd::multiset::Multiset;
use vstd::prelude::*;

use crate::folder::Folder;
use crate::ops::lemma_create_preserves_wf;
use crate::store::{
    folders_wf, id_used, in_scope, lemma_scope_count_zero, rows_of_type, scope_count,
    type_matches, FolderDao, MAX_FOLDER_ROWS,
};

verus! {

broadcast use vstd::seq_lib::group_to_multiset_ensures;

/// One node of the assembled forest.
pub struct FolderResp {
    pub id: u64,
    pub parent_id: u64,
    pub name: String,
    pub description: Option<String>,
    pub seq: i32,
    pub children: Vec<FolderResp>,
}

/// A node's own data, without its children: the currency of the assembly
/// contracts.
pub struct FolderBase {
    pub id: u64,
    pub parent_id: u64,
    pub name: Seq<char>,
    pub description: Option<Seq<char>>,
    pub seq: int,
}

pub open spec fn opt_text_view(o: Option<String>) -> Option<Seq<char>> {
    match o {
        Some(d) => Some(d@),
        None => None,
    }
}

pub open spec fn node_base(n: FolderResp) -> FolderBase {
    FolderBase {
        id: n.id,
        parent_id: n.parent_id,
        name: n.name@,
        description: opt_text_view(n.description),
        seq: n.seq as int,
    }
}

pub open spec fn folder_base(f: Folder) -> FolderBase {
    FolderBase {
        id: f.id,
        parent_id: f.parent_id,
        name: f.name@,
        description: opt_text_view(f.description),
        seq: f.seq as int,
    }
}

impl FolderResp {
    /// A leaf node carrying the data of one table row.
    pub fn of_folder(f: Folder) -> (r: FolderResp)
        ensures
            node_base(r) == folder_base(f),
            r.children@.len() == 0,
    {
        FolderResp {
            id: f.id,
            parent_id: f.parent_id,
            name: f.name,
            description: f.description,
            seq: f.seq,
            children: Vec::new(),
        }
    }
}

// ------------------------------------------------------------------
// The sibling order: position first, display name as tie-break.
// ------------------------------------------------------------------

/// Lexicographic order on character sequences, by code point; a proper
/// prefix comes first.
pub open spec fn lex_le(a: Seq<char>, b: Seq<char>) -> bool
    decreases a.len(),
{
    if a.len() == 0 {
        true
    } else if b.len() == 0 {
        false
    } else if (a[0] as u32) == (b[0] as u32) {
        lex_le(a.drop_first(), b.drop_first())
    } else {
        (a[0] as u32) < (b[0] as u32)
    }
}

pub proof fn lemma_lex_le_total(a: Seq<char>, b: Seq<char>)
    ensures
        lex_le(a, b) || lex_le(b, a),
    decreases a.len(),
{
    if a.len() > 0 && b.len() > 0 && (a[0] as u32) == (b[0] as u32) {
        lemma_lex_le_total(a.drop_first(), b.drop_first());
    }
}

pub proof fn lemma_lex_le_trans(a: Seq<char>, b: Seq<char>, c: Seq<char>)
    requires
        lex_le(a, b),
        lex_le(b, c),
    ensures
        lex_le(a, c),
    decreases a.len(),
{
    if a.len() > 0 && b.len() > 0 && c.len() > 0 && (a[0] as u32) == (b[0] as u32) && (
    b[0] as u32) == (c[0] as u32) {
        lemma_lex_le_trans(a.drop_first(), b.drop_first(), c.drop_first());
    }
}

/// Decides `lex_le` by walking the two strings character by character.
pub fn str_lex_le(a: &str, b: &str) -> (r: bool)
    ensures
        r == lex_le(a@, b@),
{
    let la = a.unicode_len();
    let lb = b.unicode_len();
    let mut i: usize = 0;
    proof {
        assert(a@.skip(0) =~= a@);
        assert(b@.skip(0) =~= b@);
    }
    loop
        invariant
            i <= la,
            i <= lb,
            la == a@.len(),
            lb == b@.len(),
            lex_le(a@, b@) == lex_le(a@.skip(i as int), b@.skip(i as int)),
            lex_le(b@, a@) == lex_le(b@.skip(i as int), a@.skip(i as int)),
        decreases la - i,
    {
        if i >= la {
            assert(a@.skip(i as int).len() == 0);
            return true;
        }
        if i >= lb {
            assert(b@.skip(i as int).len() == 0 && a@.skip(i as int).len() > 0);
            return false;
        }
        let ca = a.get_char(i);
        let cb = b.get_char(i);
        proof {
            assert(a@.skip(i as int)[0] == a@[i as int]);
            assert(b@.skip(i as int)[0] == b@[i as int]);
        }
        let ua = ca as u32;
        let ub = cb as u32;
        if ua != ub {
            return ua < ub;
        }
        proof {
            assert(a@.skip(i as int).drop_first() =~= a@.skip(i + 1));
            assert(b@.skip(i as int).drop_first() =~= b@.skip(i + 1));
        }
        i = i + 1;
    }
}

/// The sibling order of the assembled forest.
pub open spec fn node_le(a: FolderResp, b: FolderResp) -> bool {
    a.seq < b.seq || (a.seq == b.seq && lex_le(a.name@, b.name@))
}

pub proof fn lemma_node_le_total(a: FolderResp, b: FolderResp)
    ensures
        node_le(a, b) || node_le(b, a),
{
    lemma_lex_le_total(a.name@, b.name@);
}

pub proof fn lemma_node_le_trans(a: FolderResp, b: FolderResp, c: FolderResp)
    requires
        node_le(a, b),
        node_le(b, c),
    ensures
        node_le(a, c),
{
    if a.seq == b.seq && b.seq == c.seq {
        lemma_lex_le_trans(a.name@, b.name@, c.name@);
    }
}

/// Decides `node_le`.
pub fn node_le_exec(a: &FolderResp, b: &FolderResp) -> (r: bool)
    ensures
        r == node_le(*a, *b),
{
    if a.seq < b.seq {
        true
    } else if a.seq == b.seq {
        str_lex_le(a.name.as_str(), b.name.as_str())
    } else {
        false
    }
}

/// A children list in display order.
pub open spec fn nodes_sorted(s: Seq<FolderResp>) -> bool {
    forall|i: int, j: int| 0 <= i < j < s.len() ==> node_le(#[trigger] s[i], #[trigger] s[j])
}

// ------------------------------------------------------------------
// Base multisets: what a batch of nodes holds, children aside.
// ------------------------------------------------------------------

/// The bases of a flat batch of nodes.
pub open spec fn bases_ms(s: Seq<FolderResp>) -> Multiset<FolderBase>
    decreases s.len(),
{
    if s.len() == 0 {
        Multiset::empty()
    } else {
        bases_ms(s.drop_last()).insert(node_base(s.last()))
    }
}

/// The bases of a batch of table rows.
pub open spec fn folder_bases_ms(s: Seq<Folder>) -> Multiset<FolderBase>
    decreases s.len(),
{
    if s.len() == 0 {
        Multiset::empty()
    } else {
        folder_bases_ms(s.drop_last()).insert(folder_base(s.last()))
    }
}

pub proof fn lemma_bases_ms_push(s: Seq<FolderResp>, x: FolderResp)
    ensures
        bases_ms(s.push(x)) == bases_ms(s).insert(node_base(x)),
{
    assert(s.push(x).drop_last() =~= s);
    assert(s.push(x).last() == x);
}

/// A batch holds exactly as many bases as nodes.
pub proof fn lemma_bases_ms_len(s: Seq<FolderResp>)
    ensures
        bases_ms(s).len() == s.len(),
    decreases s.len(),
{
    if s.len() > 0 {
        lemma_bases_ms_len(s.drop_last());
    }
}

/// Every node's base is counted in its batch.
pub proof fn lemma_bases_ms_index(s: Seq<FolderResp>, i: int)
    requires
        0 <= i < s.len(),
    ensures
        bases_ms(s).count(node_base(s[i])) > 0,
    decreases s.len(),
{
    if i < s.len() - 1 {
        lemma_bases_ms_index(s.drop_last(), i);
        assert(s.drop_last()[i] == s[i]);
    } else {
        assert(s.last() == s[i]);
    }
}

/// A counted base comes from some node of the batch.
pub proof fn lemma_bases_ms_witness(s: Seq<FolderResp>, b: FolderBase) -> (i: int)
    requires
        bases_ms(s).count(b) > 0,
    ensures
        0 <= i < s.len(),
        node_base(s[i]) == b,
    decreases s.len(),
{
    if node_base(s.last()) == b {
        s.len() - 1
    } else {
        let i = lemma_bases_ms_witness(s.drop_last(), b);
        assert(s.drop_last()[i] == s[i]);
        i
    }
}

/// Taking one node out takes exactly its base out.
pub proof fn lemma_bases_ms_remove(s: Seq<FolderResp>, i: int)
    requires
        0 <= i < s.len(),
    ensures
        bases_ms(s) == bases_ms(s.remove(i)).insert(node_base(s[i])),
    decreases s.len(),
{
    if i == s.len() - 1 {
        assert(s.remove(i) =~= s.drop_last());
    } else {
        assert(s.remove(i).drop_last() =~= s.drop_last().remove(i));
        assert(s.remove(i).last() == s.last());
        lemma_bases_ms_remove(s.drop_last(), i);
        assert(bases_ms(s.drop_last().remove(i)).insert(node_base(s[i])).insert(
            node_base(s.last()),
        ) =~= bases_ms(s.drop_last().remove(i)).insert(node_base(s.last())).insert(
            node_base(s[i]),
        ));
    }
}

/// Permutations of nodes carry the same bases.
pub proof fn lemma_bases_ms_permutation(s1: Seq<FolderResp>, s2: Seq<FolderResp>)
    requires
        s1.to_multiset() == s2.to_multiset(),
    ensures
        bases_ms(s1) == bases_ms(s2),
    decreases s1.len(),
{
    s1.to_multiset_ensures();
    s2.to_multiset_ensures();
    if s1.len() == 0 {
        assert(s2.len() == 0);
        assert(bases_ms(s1) =~= bases_ms(s2));
    } else {
        let x = s1.last();
        assert(s1.drop_last().push(x) =~= s1);
        assert(s1.to_multiset().count(x) > 0);
        assert(s2.to_multiset().count(x) > 0);
        assert(s2.contains(x));
        let j = choose|j: int| 0 <= j < s2.len() && s2[j] == x;
        assert(s1.drop_last().to_multiset() =~= s1.to_multiset().remove(x));
        assert(s2.remove(j).to_multiset() =~= s2.to_multiset().remove(x));
        lemma_bases_ms_permutation(s1.drop_last(), s2.remove(j));
        lemma_bases_ms_remove(s2, j);
        assert(bases_ms(s1) == bases_ms(s1.drop_last()).insert(node_base(x)));
    }
}

/// Batches that agree base by base carry the same bases.
pub proof fn lemma_bases_ms_pointwise(nodes: Seq<FolderResp>, rows: Seq<Folder>)
    requires
        nodes.len() == rows.len(),
        forall|i: int|
            0 <= i < rows.len() ==> node_base(#[trigger] nodes[i]) == folder_base(
                #[trigger] rows[i],
            ),
    ensures
        bases_ms(nodes) == folder_bases_ms(rows),
    decreases rows.len(),
{
    if rows.len() > 0 {
        assert(forall|i: int|
            0 <= i < nodes.drop_last().len() ==> #[trigger] nodes.drop_last()[i] == nodes[i]);
        assert(forall|i: int|
            0 <= i < rows.drop_last().len() ==> #[trigger] rows.drop_last()[i] == rows[i]);
        lemma_bases_ms_pointwise(nodes.drop_last(), rows.drop_last());
        assert(nodes.last() == nodes[rows.len() - 1]);
        assert(rows.last() == rows[rows.len() - 1]);
    }
}

// ------------------------------------------------------------------
// Grouping by parent.
// ------------------------------------------------------------------

/// The nodes of a batch that hang under the given parent, in batch order.
pub open spec fn matching_nodes(s: Seq<FolderResp>, parent_id: u64) -> Seq<FolderResp>
    decreases s.len(),
{
    if s.len() == 0 {
        Seq::empty()
    } else if s.last().parent_id == parent_id {
        matching_nodes(s.drop_last(), parent_id).push(s.last())
    } else {
        matching_nodes(s.drop_last(), parent_id)
    }
}

/// The remaining nodes, in batch order.
pub open spec fn other_nodes(s: Seq<FolderResp>, parent_id: u64) -> Seq<FolderResp>
    decreases s.len(),
{
    if s.len() == 0 {
        Seq::empty()
    } else if s.last().parent_id != parent_id {
        other_nodes(s.drop_last(), parent_id).push(s.last())
    } else {
        other_nodes(s.drop_last(), parent_id)
    }
}

/// Grouping splits the bases of a batch into the two groups.
pub proof fn lemma_grouping_bases(s: Seq<FolderResp>, parent_id: u64)
    ensures
        bases_ms(matching_nodes(s, parent_id)).add(bases_ms(other_nodes(s, parent_id)))
            == bases_ms(s),
        forall|i: int|
            0 <= i < matching_nodes(s, parent_id).len() ==> (#[trigger] matching_nodes(
                s,
                parent_id,
            )[i]).parent_id == parent_id,
        forall|i: int|
            0 <= i < other_nodes(s, parent_id).len() ==> (#[trigger] other_nodes(
                s,
                parent_id,
            )[i]).parent_id != parent_id,
    decreases s.len(),
{
    if s.len() == 0 {
        assert(bases_ms(matching_nodes(s, parent_id)).add(
            bases_ms(other_nodes(s, parent_id)),
        ) =~= bases_ms(s));
    } else {
        lemma_grouping_bases(s.drop_last(), parent_id);
        let m = matching_nodes(s, parent_id);
        let o = other_nodes(s, parent_id);
        if s.last().parent_id == parent_id {
            lemma_bases_ms_push(matching_nodes(s.drop_last(), parent_id), s.last());
        } else {
            lemma_bases_ms_push(other_nodes(s.drop_last(), parent_id), s.last());
        }
        assert(bases_ms(m).add(bases_ms(o)) =~= bases_ms(s));
    }
}

/// Splits off all nodes of one parent, preserving relative order in both
/// halves.
pub fn extract_children(pool: &mut Vec<FolderResp>, parent_id: u64) -> (mine: Vec<FolderResp>)
    ensures
        mine@ == matching_nodes(old(pool)@, parent_id),
        final(pool)@ == other_nodes(old(pool)@, parent_id),
{
    let mut mine: Vec<FolderResp> = Vec::new();
    let mut rest: Vec<FolderResp> = Vec::new();
    let ghost p0 = pool@;
    let p0_len = pool.len();
    proof {
        assert(p0.len() == p0_len);
        assert(p0.subrange(0, 0) =~= Seq::<FolderResp>::empty());
        assert(mine@ =~= matching_nodes(p0.subrange(0, 0), parent_id));
        assert(rest@ =~= other_nodes(p0.subrange(0, 0), parent_id));
    }
    let mut k: usize = 0;
    while pool.len() > 0
        invariant
            k <= p0.len(),
            p0.len() <= usize::MAX,
            pool@ =~= p0.subrange(k as int, p0.len() as int),
            mine@ == matching_nodes(p0.subrange(0, k as int), parent_id),
            rest@ == other_nodes(p0.subrange(0, k as int), parent_id),
        decreases pool@.len(),
    {
        let n = pool.remove(0);
        proof {
            assert(n == p0[k as int]);
            assert(pool@ =~= p0.subrange(k + 1, p0.len() as int));
            assert(p0.subrange(0, k + 1).drop_last() =~= p0.subrange(0, k as int));
            assert(p0.subrange(0, k + 1).last() == p0[k as int]);
        }
        if n.parent_id == parent_id {
            mine.push(n);
        } else {
            rest.push(n);
        }
        proof {
            assert(k < p0.len());
        }
        k = k + 1;
    }
    proof {
        assert(k == p0.len());
        assert(p0.subrange(0, p0.len() as int) =~= p0);
    }
    *pool = rest;
    mine
}

// ------------------------------------------------------------------
// Sorting one sibling group.
// ------------------------------------------------------------------

/// Sorts a batch of nodes by sibling position, name as tie-break;
/// insertion sort, since sibling groups are small.
pub fn sort_nodes(v: Vec<FolderResp>) -> (out: Vec<FolderResp>)
    ensures
        out@.to_multiset() == v@.to_multiset(),
        nodes_sorted(out@),
{
    let mut out: Vec<FolderResp> = Vec::new();
    let mut rem = v;
    let ghost v0 = rem@;
    proof {
        v0.to_multiset_ensures();
        assert(out@.to_multiset().add(rem@.to_multiset()) =~= v0.to_multiset());
    }
    while rem.len() > 0
        invariant
            out@.to_multiset().add(rem@.to_multiset()) == v0.to_multiset(),
            nodes_sorted(out@),
        decreases rem@.len(),
    {
        let ghost rem0 = rem@;
        let x = match rem.pop() {
            Some(x) => x,
            None => {
                proof {
                    assert(false);
                }
                unreached()
            },
        };
        proof {
            rem0.to_multiset_ensures();
            assert(rem0.drop_last().push(x) =~= rem0);
            assert(rem@.to_multiset().insert(x) =~= rem0.to_multiset());
        }

        // Find the insertion slot from the right.
        let mut j: usize = out.len();
        while j > 0 && !node_le_exec(&out[j - 1], &x)
            invariant
                j <= out@.len(),
                forall|k: int| j <= k < out@.len() ==> node_le(x, #[trigger] out@[k]),
            decreases j,
        {
            proof {
                lemma_node_le_total(out@[j - 1], x);
            }
            j = j - 1;
        }
        proof {
            if j > 0 {
                assert(node_le(out@[j - 1], x));
                assert forall|k: int| 0 <= k < j implies node_le(#[trigger] out@[k], x) by {
                    if k < j - 1 {
                        assert(node_le(out@[k], out@[j - 1]));
                        lemma_node_le_trans(out@[k], out@[j - 1], x);
                    }
                }
            }
        }
        let ghost out0 = out@;
        out.insert(j, x);
        proof {
            let o = out@;
            assert(o == out0.insert(j as int, x));
            assert(forall|k: int| 0 <= k < j ==> #[trigger] o[k] == out0[k]);
            assert(o[j as int] == x);
            assert(forall|k: int| j < k < o.len() ==> #[trigger] o[k] == out0[k - 1]);
            assert forall|i: int, k: int| 0 <= i < k < o.len() implies node_le(
                #[trigger] o[i],
                #[trigger] o[k],
            ) by {
                if i < j && k < j {
                } else if i < j && k == j {
                } else if i < j && k > j {
                    assert(node_le(out0[i], out0[k - 1]));
                } else if i == j {
                    assert(node_le(x, out0[k - 1]));
                } else {
                    assert(node_le(out0[i - 1], out0[k - 1]));
                }
            }
            // One node went from the remainder into the sorted prefix.
            o.to_multiset_ensures();
            out0.to_multiset_ensures();
            assert(o.remove(j as int) =~= out0);
            assert(o.remove(j as int).to_multiset() =~= o.to_multiset().remove(o[j as int]));
            assert(o.to_multiset().contains(x));
            assert(o.to_multiset() =~= out0.to_multiset().insert(x));
        }
    }
    out
}


// ------------------------------------------------------------------
// The assembled forest.
// ------------------------------------------------------------------

/// All bases of a forest, children included, each counted once.
pub open spec fn forest_bases(ns: Seq<FolderResp>) -> Multiset<FolderBase>
    decreases ns,
{
    if ns.len() == 0 {
        Multiset::empty()
    } else {
        Multiset::singleton(node_base(ns[0])).add(forest_bases(ns[0].children@)).add(
            forest_bases(ns.drop_first()),
        )
    }
}

/// Structural soundness of a forest under a given parent: every node hangs
/// under its stated parent and every children list is sorted, recursively.
pub open spec fn forest_linked(ns: Seq<FolderResp>, parent_id: u64) -> bool
    decreases ns,
{
    if ns.len() == 0 {
        true
    } else {
        &&& ns[0].parent_id == parent_id
        &&& nodes_sorted(ns[0].children@)
        &&& forest_linked(ns[0].children@, ns[0].id)
        &&& forest_linked(ns.drop_first(), parent_id)
    }
}

/// Whether any node of the forest, at any depth, carries the given id.
pub open spec fn forest_has_id(ns: Seq<FolderResp>, id: u64) -> bool
    decreases ns,
{
    if ns.len() == 0 {
        false
    } else {
        ns[0].id == id || forest_has_id(ns[0].children@, id) || forest_has_id(
            ns.drop_first(),
            id,
        )
    }
}

proof fn lemma_forest_has_id_push(ns: Seq<FolderResp>, x: FolderResp, id: u64)
    ensures
        forest_has_id(ns.push(x), id) <==> (forest_has_id(ns, id) || x.id == id
            || forest_has_id(x.children@, id)),
    decreases ns.len(),
{
    if ns.len() == 0 {
        assert(ns.push(x)[0] == x);
        assert(ns.push(x).drop_first() =~= ns);
    } else {
        assert(ns.push(x)[0] == ns[0]);
        assert(ns.push(x).drop_first() =~= ns.drop_first().push(x));
        lemma_forest_has_id_push(ns.drop_first(), x, id);
    }
}

proof fn lemma_forest_bases_push(ns: Seq<FolderResp>, x: FolderResp)
    ensures
        forest_bases(ns.push(x)) == forest_bases(ns).insert(node_base(x)).add(
            forest_bases(x.children@),
        ),
    decreases ns.len(),
{
    if ns.len() == 0 {
        assert(ns.push(x)[0] == x);
        assert(ns.push(x).drop_first() =~= ns);
        assert(forest_bases(ns.push(x)) =~= forest_bases(ns).insert(node_base(x)).add(
            forest_bases(x.children@),
        ));
    } else {
        assert(ns.push(x)[0] == ns[0]);
        assert(ns.push(x).drop_first() =~= ns.drop_first().push(x));
        lemma_forest_bases_push(ns.drop_first(), x);
        assert(forest_bases(ns.push(x)) =~= forest_bases(ns).insert(node_base(x)).add(
            forest_bases(x.children@),
        ));
    }
}

proof fn lemma_forest_linked_push(ns: Seq<FolderResp>, x: FolderResp, parent_id: u64)
    ensures
        forest_linked(ns.push(x), parent_id) <==> (forest_linked(ns, parent_id) && x.parent_id
            == parent_id && nodes_sorted(x.children@) && forest_linked(x.children@, x.id)),
    decreases ns.len(),
{
    if ns.len() == 0 {
        assert(ns.push(x)[0] == x);
        assert(ns.push(x).drop_first() =~= ns);
    } else {
        assert(ns.push(x)[0] == ns[0]);
        assert(ns.push(x).drop_first() =~= ns.drop_first().push(x));
        lemma_forest_linked_push(ns.drop_first(), x, parent_id);
    }
}

/// Assembles the forest under one parent, consuming matching nodes from
/// the pool; children lists are attached recursively and sorted.
///
/// The contract pins the result down three ways: the top level holds
/// exactly the pool's nodes under this parent, in display order; the whole
/// forest is correctly linked; and, counting bases, the forest plus the
/// leftover pool is exactly the old pool — assembly invents, duplicates
/// and loses nothing.
pub fn build_recursive(parent_id: u64, pool: &mut Vec<FolderResp>) -> (out: Vec<FolderResp>)
    ensures
        nodes_sorted(out@),
        forest_linked(out@, parent_id),
        bases_ms(out@) == bases_ms(matching_nodes(old(pool)@, parent_id)),
        forest_bases(out@).add(bases_ms(final(pool)@)) == bases_ms(old(pool)@),
        // Completeness: nothing left in the pool belongs under this
        // parent or under any node of the forest.
        forall|i: int|
            0 <= i < final(pool)@.len() ==> (#[trigger] final(pool)@[i]).parent_id != parent_id
                && !forest_has_id(out@, final(pool)@[i].parent_id),
    decreases pool@.len(),
{
    let ghost p0 = pool@;
    let p0_len = pool.len();
    let mine_raw = extract_children(pool, parent_id);
    let mut mine = sort_nodes(mine_raw);
    let ghost m0 = mine@;
    proof {
        lemma_grouping_bases(p0, parent_id);
        lemma_bases_ms_permutation(m0, matching_nodes(p0, parent_id));
        lemma_bases_ms_len(m0);
        lemma_bases_ms_len(pool@);
        lemma_bases_ms_len(p0);
        lemma_bases_ms_len(matching_nodes(p0, parent_id));
        // The two groups split the pool's length.
        assert(bases_ms(m0).add(bases_ms(pool@)) =~= bases_ms(p0));
        assert(m0.len() + pool@.len() == p0.len());
        // Every node of the sorted group hangs under this parent.
        m0.to_multiset_ensures();
        matching_nodes(p0, parent_id).to_multiset_ensures();
        assert forall|j: int|
            0 <= j < m0.len() implies (#[trigger] m0[j]).parent_id == parent_id by {
            assert(m0.to_multiset().contains(m0[j]));
            assert(matching_nodes(p0, parent_id).to_multiset().contains(m0[j]));
            assert(matching_nodes(p0, parent_id).contains(m0[j]));
        }
    }
    let mut out: Vec<FolderResp> = Vec::new();
    proof {
        assert(forest_bases(out@) =~= Multiset::<FolderBase>::empty());
        assert(bases_ms(out@) =~= Multiset::<FolderBase>::empty());
        assert(forest_bases(out@).add(bases_ms(mine@)).add(bases_ms(pool@)) =~= bases_ms(p0));
        assert(bases_ms(out@).add(bases_ms(mine@)) =~= bases_ms(m0));
        assert(forall|i: int|
            0 <= i < pool@.len() ==> !forest_has_id(out@, (#[trigger] pool@[i]).parent_id));
    }
    while mine.len() > 0
        invariant
            nodes_sorted(mine@),
            nodes_sorted(out@),
            forall|i: int, j: int|
                0 <= i < out@.len() && 0 <= j < mine@.len() ==> node_le(
                    #[trigger] out@[i],
                    #[trigger] mine@[j],
                ),
            forall|j: int| 0 <= j < mine@.len() ==> (#[trigger] mine@[j]).parent_id == parent_id,
            forest_linked(out@, parent_id),
            forall|i: int|
                0 <= i < pool@.len() ==> (#[trigger] pool@[i]).parent_id != parent_id
                    && !forest_has_id(out@, pool@[i].parent_id),
            bases_ms(out@).add(bases_ms(mine@)) == bases_ms(m0),
            bases_ms(m0) == bases_ms(matching_nodes(p0, parent_id)),
            forest_bases(out@).add(bases_ms(mine@)).add(bases_ms(pool@)) == bases_ms(p0),
            pool@.len() + mine@.len() + out@.len() <= p0.len(),
            p0.len() == p0_len,
            old(pool)@ == p0,
        decreases mine@.len(),
    {
        let ghost mine_pre = mine@;
        let ghost out_pre = out@;
        let ghost pool_pre = pool@;
        let x = mine.remove(0);
        proof {
            assert(x == mine_pre[0]);
            assert(mine@ =~= mine_pre.drop_first());
            lemma_bases_ms_remove(mine_pre, 0);
            assert(mine_pre.remove(0) =~= mine@);
        }
        proof {
            assert(mine_pre.len() >= 1);
            assert(pool@.len() < p0.len());
        }
        let kids = build_recursive(x.id, pool);
        let mut node = x;
        node.children = kids;
        let ghost pool_mid = pool@;
        out.push(node);
        proof {
            assert(node_base(node) == node_base(mine_pre[0]));
            lemma_forest_bases_push(out_pre, node);
            lemma_forest_linked_push(out_pre, node, parent_id);
            lemma_bases_ms_push(out_pre, node);
            lemma_bases_ms_len(pool@);
            lemma_bases_ms_len(pool_pre);
            // Completeness carries over: a row still in the pool has its
            // base in the pre-call pool, so the old facts apply to it,
            // and the recursion promises it hangs neither under the taken
            // node nor inside its subtree.
            assert forall|i: int|
                0 <= i < pool@.len() implies (#[trigger] pool@[i]).parent_id != parent_id
                && !forest_has_id(out@, pool@[i].parent_id) by {
                lemma_bases_ms_index(pool_mid, i);
                assert(bases_ms(pool_pre).count(node_base(pool_mid[i])) > 0);
                let j = lemma_bases_ms_witness(pool_pre, node_base(pool_mid[i]));
                assert(pool_pre[j].parent_id == pool_mid[i].parent_id);
                assert(pool_pre[j].parent_id != parent_id);
                assert(!forest_has_id(out_pre, pool_pre[j].parent_id));
                lemma_forest_has_id_push(out_pre, node, pool_mid[i].parent_id);
                assert(pool_mid[i].parent_id != node.id);
                assert(!forest_has_id(node.children@, pool_mid[i].parent_id));
            }
            // Order: the taken node follows the sorted prefix and precedes
            // the remaining group.
            assert forall|i: int, j: int|
                0 <= i < out@.len() && 0 <= j < mine@.len() implies node_le(
                #[trigger] out@[i],
                #[trigger] mine@[j],
            ) by {
                assert(mine@[j] == mine_pre[j + 1]);
                if i < out_pre.len() {
                    assert(node_le(out_pre[i], mine_pre[0]));
                    assert(node_le(mine_pre[0], mine_pre[j + 1]));
                    lemma_node_le_trans(out_pre[i], mine_pre[0], mine_pre[j + 1]);
                } else {
                    assert(node_le(mine_pre[0], mine_pre[j + 1]));
                }
            }
            assert forall|i: int, j: int|
                0 <= i < j < out@.len() implies node_le(#[trigger] out@[i], #[trigger] out@[j]) by {
                if j < out_pre.len() {
                } else {
                    assert(node_le(out_pre[i], mine_pre[0]));
                }
            }
            // Bookkeeping of the base multisets.
            assert(bases_ms(out@).add(bases_ms(mine@)) =~= bases_ms(m0));
            assert(forest_bases(out@).add(bases_ms(mine@)).add(bases_ms(pool@)) =~= bases_ms(p0));
        }
    }
    proof {
        assert(mine@.len() == 0);
        assert(bases_ms(mine@) =~= Multiset::<FolderBase>::empty());
        assert(bases_ms(out@) =~= bases_ms(matching_nodes(p0, parent_id)));
        assert(forest_bases(out@).add(bases_ms(pool@)) =~= bases_ms(p0));
    }
    out
}

/// Assembles the whole forest from a flat list of nodes, starting at the
/// root sentinel `0`.  Nodes whose parent chain never reaches the root
/// (which a well-formed table never produces) are silently dropped.
pub fn build_folder_tree(folders: Vec<FolderResp>) -> (r: Vec<FolderResp>)
    ensures
        nodes_sorted(r@),
        forest_linked(r@, 0),
        bases_ms(r@) == bases_ms(matching_nodes(folders@, 0)),
        forest_bases(r@).subset_of(bases_ms(folders@)),
        // What assembly leaves out is exactly a remainder no node of the
        // forest is parent of: children of assembled nodes are never
        // dropped.
        exists|rest: Seq<FolderResp>|
            {
                &&& #[trigger] forest_bases(r@).add(bases_ms(rest)) == bases_ms(folders@)
                &&& forall|i: int|
                    0 <= i < rest.len() ==> (#[trigger] rest[i]).parent_id != 0
                        && !forest_has_id(r@, rest[i].parent_id)
            },
{
    let ghost f0 = folders@;
    let mut pool = folders;
    let r = build_recursive(0, &mut pool);
    proof {
        assert(forest_bases(r@).add(bases_ms(pool@)) == bases_ms(f0));
        assert forall|b: FolderBase|
            forest_bases(r@).count(b) <= bases_ms(f0).count(b) by {
            assert(bases_ms(f0).count(b) == forest_bases(r@).count(b) + bases_ms(pool@).count(b));
        }
        let rest = pool@;
        assert(forest_bases(r@).add(bases_ms(rest)) == bases_ms(f0));
    }
    r
}


// ------------------------------------------------------------------
// The tree query against the table.
// ------------------------------------------------------------------

/// The rows of a batch that hang under the given parent, in batch order.
pub open spec fn rows_of_parent(s: Seq<Folder>, parent_id: u64) -> Seq<Folder>
    decreases s.len(),
{
    if s.len() == 0 {
        Seq::empty()
    } else if s.last().parent_id == parent_id {
        rows_of_parent(s.drop_last(), parent_id).push(s.last())
    } else {
        rows_of_parent(s.drop_last(), parent_id)
    }
}

/// An empty tree listing means the table holds no row of that tree.
proof fn lemma_rows_of_type_empty(s: Seq<Folder>, t: u64, w: u64, ty: i32)
    requires
        rows_of_type(s, t, w, ty).len() == 0,
    ensures
        forall|i: int| 0 <= i < s.len() ==> !type_matches(#[trigger] s[i], t, w, ty),
    decreases s.len(),
{
    if s.len() > 0 {
        assert(!type_matches(s.last(), t, w, ty));
        lemma_rows_of_type_empty(s.drop_last(), t, w, ty);
        assert forall|i: int| 0 <= i < s.len() implies !type_matches(
            #[trigger] s[i],
            t,
            w,
            ty,
        ) by {
            if i < s.len() - 1 {
                assert(s.drop_last()[i] == s[i]);
                assert(!type_matches(s.drop_last()[i], t, w, ty));
            } else {
                assert(s[i] == s.last());
            }
        }
    }
}

/// Nodes that mirror rows base by base group under a parent exactly as the
/// rows do.
proof fn lemma_matching_vs_rows(nodes: Seq<FolderResp>, rows: Seq<Folder>, parent_id: u64)
    requires
        nodes.len() == rows.len(),
        forall|i: int|
            0 <= i < rows.len() ==> node_base(#[trigger] nodes[i]) == folder_base(
                #[trigger] rows[i],
            ),
    ensures
        bases_ms(matching_nodes(nodes, parent_id)) == folder_bases_ms(
            rows_of_parent(rows, parent_id),
        ),
    decreases rows.len(),
{
    if rows.len() > 0 {
        assert(forall|i: int|
            0 <= i < nodes.drop_last().len() ==> #[trigger] nodes.drop_last()[i] == nodes[i]);
        assert(forall|i: int|
            0 <= i < rows.drop_last().len() ==> #[trigger] rows.drop_last()[i] == rows[i]);
        lemma_matching_vs_rows(nodes.drop_last(), rows.drop_last(), parent_id);
        assert(nodes.last() == nodes[rows.len() - 1]);
        assert(rows.last() == rows[rows.len() - 1]);
        assert(node_base(nodes.last()) == folder_base(rows.last()));
        assert(nodes.last().parent_id == rows.last().parent_id);
        if rows.last().parent_id == parent_id {
            lemma_bases_ms_push(matching_nodes(nodes.drop_last(), parent_id), nodes.last());
            assert(folder_bases_ms(rows_of_parent(rows, parent_id)) == folder_bases_ms(
                rows_of_parent(rows.drop_last(), parent_id),
            ).insert(folder_base(rows.last()))) by {
                assert(rows_of_parent(rows, parent_id).drop_last() =~= rows_of_parent(
                    rows.drop_last(),
                    parent_id,
                ));
                assert(rows_of_parent(rows, parent_id).last() == rows.last());
            }
        }
    }
}

/// Fetches the folder tree of one (tenant, workspace, type): the rows of
/// that tree grouped by parent from the root sentinel `0`, every children
/// list sorted by position with the name as tie-break.
///
/// The first request against an empty tree creates the default root folder
/// (at position 1) before assembling; `default_id` is its identity,
/// supplied by the identity generator, which never repeats ids and never
/// issues the root sentinel.
pub fn get_folder_tree(
    dao: &mut FolderDao,
    tenant_id: u64,
    workspace_id: u64,
    folder_type: i32,
    default_id: u64,
) -> (r: Vec<FolderResp>)
    requires
        folders_wf(old(dao)@),
        old(dao)@.len() < MAX_FOLDER_ROWS,
        default_id != 0,
        !id_used(old(dao)@, default_id),
    ensures
        folders_wf(final(dao)@),
        // The table changes only on the first visit of an empty tree, and
        // then by exactly the default root folder.
        rows_of_type(old(dao)@, tenant_id, workspace_id, folder_type).len() > 0 ==> final(dao)@
            == old(dao)@,
        rows_of_type(old(dao)@, tenant_id, workspace_id, folder_type).len() == 0 ==> ({
            let s2 = final(dao)@;
            &&& s2.len() == old(dao)@.len() + 1
            &&& forall|i: int| 0 <= i < old(dao)@.len() ==> s2[i] == old(dao)@[i]
            &&& s2.last().id == default_id
            &&& s2.last().tenant_id == tenant_id
            &&& s2.last().workspace_id == workspace_id
            &&& s2.last().folder_type == folder_type
            &&& s2.last().parent_id == 0
            &&& s2.last().seq == 1
            &&& s2.last().name@ == "默认目录"@
        }),
        // The forest: sorted and correctly linked; its top level holds
        // exactly the tree's root rows; and all of it comes from the
        // tree's rows, nothing invented or duplicated.
        nodes_sorted(r@),
        forest_linked(r@, 0),
        bases_ms(r@) == folder_bases_ms(
            rows_of_parent(rows_of_type(final(dao)@, tenant_id, workspace_id, folder_type), 0),
        ),
        forest_bases(r@).subset_of(
            folder_bases_ms(rows_of_type(final(dao)@, tenant_id, workspace_id, folder_type)),
        ),
        exists|rest: Seq<FolderResp>|
            {
                &&& #[trigger] forest_bases(r@).add(bases_ms(rest)) == folder_bases_ms(
                    rows_of_type(final(dao)@, tenant_id, workspace_id, folder_type),
                )
                &&& forall|i: int|
                    0 <= i < rest.len() ==> (#[trigger] rest[i]).parent_id != 0
                        && !forest_has_id(r@, rest[i].parent_id)
            },
{
    let mut rows = dao.list(tenant_id, workspace_id, folder_type);
    if rows.len() == 0 {
        let ghost s = dao@;
        proof {
            lemma_rows_of_type_empty(s, tenant_id, workspace_id, folder_type);
            lemma_scope_count_zero(s, tenant_id, workspace_id, folder_type, 0);
            assert forall|i: int|
                0 <= i < s.len() implies !in_scope(#[trigger] s[i], tenant_id, workspace_id,
            folder_type, 0) by {
                assert(!type_matches(s[i], tenant_id, workspace_id, folder_type));
            }
            assert(scope_count(s, tenant_id, workspace_id, folder_type, 0) == 0);
        }
        let mut default_folder = Folder::new(tenant_id, workspace_id, folder_type);
        default_folder.id = default_id;
        default_folder.seq = 1;
        let ghost row_g = default_folder;
        dao.insert(default_folder);
        proof {
            lemma_create_preserves_wf(s, tenant_id, workspace_id, folder_type, 0, row_g);
            assert(rows_of_type(dao@, tenant_id, workspace_id, folder_type) =~= rows_of_type(
                s,
                tenant_id,
                workspace_id,
                folder_type,
            ).push(row_g)) by {
                assert(dao@.drop_last() =~= s);
                assert(dao@.last() == row_g);
            }
        }
        rows = dao.list(tenant_id, workspace_id, folder_type);
    }

    // Shape the rows into leaf nodes, preserving order and bases.
    let ghost rows0 = rows@;
    let mut resps: Vec<FolderResp> = Vec::new();
    while rows.len() > 0
        invariant
            resps@.len() + rows@.len() == rows0.len(),
            forall|i: int|
                0 <= i < resps@.len() ==> node_base(#[trigger] resps@[i]) == folder_base(
                    rows0[i],
                ),
            forall|i: int| 0 <= i < rows@.len() ==> #[trigger] rows@[i] == rows0[resps@.len() + i],
        decreases rows@.len(),
    {
        let f = rows.remove(0);
        resps.push(FolderResp::of_folder(f));
    }

    let ghost pool0 = resps@;
    let tree = build_folder_tree(resps);
    proof {
        let listed = rows_of_type(dao@, tenant_id, workspace_id, folder_type);
        assert(rows0 == listed);
        lemma_matching_vs_rows(pool0, rows0, 0);
        lemma_bases_ms_pointwise(pool0, rows0);
        let rest = choose|rest: Seq<FolderResp>|
            {
                &&& #[trigger] forest_bases(tree@).add(bases_ms(rest)) == bases_ms(pool0)
                &&& forall|i: int|
                    0 <= i < rest.len() ==> (#[trigger] rest[i]).parent_id != 0
                        && !forest_has_id(tree@, rest[i].parent_id)
            };
        assert(forest_bases(tree@).add(bases_ms(rest)) == folder_bases_ms(listed));
    }
    tree
}

} // verus!
