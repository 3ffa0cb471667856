//! Tags: flat per-(tenant, workspace, type) labels.

use vstd::prelude::*;



verus! {

/// One tag row.
pub struct Tag {
    pub id: u64,
    pub tenant_id: u64,
    pub workspace_id: u64,
    pub tag_type: i32,
    pub name: String,
}

impl Clone for Tag {
    fn clone(&self) -> (r: Tag)
        ensures
            r == *self,
    {
        Tag {
            id: self.id,
            tenant_id: self.tenant_id,
            workspace_id: self.workspace_id,
            tag_type: self.tag_type,
            name: self.name.clone(),
        }
    }
}

impl Tag {
    pub fn new(id: u64, tenant_id: u64, workspace_id: u64, tag_type: i32, name: String) -> (r:
        Tag)
        ensures
            r == (Tag { id, tenant_id, workspace_id, tag_type, name }),
    {
        Tag { id, tenant_id, workspace_id, tag_type, name }
    }
}

/// Tag row selection by identity: the delete / update key.
pub open spec fn tag_key_matches(g: Tag, t: u64, w: u64, ty: i32, id: u64) -> bool {
    g.tenant_id == t && g.workspace_id == w && g.tag_type == ty && g.id == id
}

/// The tag table.
pub struct TagDao {
    rows: Vec<Tag>,
}

impl View for TagDao {
    type V = Seq<Tag>;

    closed spec fn view(&self) -> Seq<Tag> {
        self.rows@
    }
}

impl TagDao {
    pub fn new() -> (r: TagDao)
        ensures
            r@ == Seq::<Tag>::empty(),
    {
        let r = TagDao { rows: Vec::new() };
        proof {
            assert(r@ =~= Seq::<Tag>::empty());
        }
        r
    }

    /// Appends one row as given.
    pub fn insert(&mut self, tag: Tag)
        ensures
            final(self)@ == old(self)@.push(tag),
    {
        self.rows.push(tag);
    }

    /// Renames every row with the given identity (at most one, when ids
    /// are kept unique).
    pub fn update(&mut self, tag: Tag)
        ensures
            final(self)@.len() == old(self)@.len(),
            forall|i: int|
                0 <= i < old(self)@.len() ==> #[trigger] final(self)@[i] == (if tag_key_matches(
                    old(self)@[i],
                    tag.tenant_id,
                    tag.workspace_id,
                    tag.tag_type,
                    tag.id,
                ) {
                    Tag { name: tag.name, ..old(self)@[i] }
                } else {
                    old(self)@[i]
                }),
    {
        let mut i: usize = 0;
        while i < self.rows.len()
            invariant
                i <= self@.len(),
                self@.len() == old(self)@.len(),
                forall|j: int|
                    0 <= j < i ==> #[trigger] self@[j] == (if tag_key_matches(old(self)@[j],
                    tag.tenant_id, tag.workspace_id, tag.tag_type, tag.id) {
                        Tag { name: tag.name, ..old(self)@[j] }
                    } else {
                        old(self)@[j]
                    }),
                forall|j: int| i <= j < self@.len() ==> #[trigger] self@[j] == old(self)@[j],
            decreases self@.len() - i,
        {
            let hit = {
                let g = &self.rows[i];
                g.tenant_id == tag.tenant_id && g.workspace_id == tag.workspace_id && g.tag_type
                    == tag.tag_type && g.id == tag.id
            };
            if hit {
                let mut ng = self.rows[i].clone();
                ng.name = tag.name.clone();
                self.rows.set(i, ng);
            }
            i = i + 1;
        }
    }

    /// Removes every row with the given identity.
    pub fn delete(&mut self, tenant_id: u64, workspace_id: u64, tag_type: i32, id: u64)
        ensures
            final(self)@ == old(self)@.filter(
                |g: Tag| !tag_key_matches(g, tenant_id, workspace_id, tag_type, id),
            ),
    {
        let mut kept: Vec<Tag> = Vec::new();
        let ghost pred = |g: Tag| !tag_key_matches(g, tenant_id, workspace_id, tag_type, id);
        proof {
            reveal(Seq::filter);
            assert(old(self)@.subrange(0, 0) =~= Seq::<Tag>::empty());
            assert(kept@ =~= old(self)@.subrange(0, 0).filter(pred));
        }
        let mut i: usize = 0;
        while i < self.rows.len()
            invariant
                i <= self@.len(),
                self@ == old(self)@,
                kept@ == old(self)@.subrange(0, i as int).filter(pred),
                pred == (|g: Tag| !tag_key_matches(g, tenant_id, workspace_id, tag_type, id)),
            decreases self@.len() - i,
        {
            let keep = {
                let g = &self.rows[i];
                !(g.tenant_id == tenant_id && g.workspace_id == workspace_id && g.tag_type
                    == tag_type && g.id == id)
            };
            proof {
                reveal(Seq::filter);
                assert(self@.subrange(0, i + 1).drop_last() =~= self@.subrange(0, i as int));
                assert(self@.subrange(0, i + 1).last() == self@[i as int]);
            }
            if keep {
                kept.push(self.rows[i].clone());
            }
            i = i + 1;
        }
        proof {
            assert(old(self)@.subrange(0, old(self)@.len() as int) =~= old(self)@);
        }
        self.rows = kept;
    }

    /// All rows of one (tenant, workspace, type), in table order.
    pub fn list(&self, tenant_id: u64, workspace_id: u64, tag_type: i32) -> (r: Vec<Tag>)
        ensures
            r@ == self@.filter(
                |g: Tag|
                    g.tenant_id == tenant_id && g.workspace_id == workspace_id && g.tag_type
                        == tag_type,
            ),
    {
        let mut out: Vec<Tag> = Vec::new();
        let ghost pred = |g: Tag|
            g.tenant_id == tenant_id && g.workspace_id == workspace_id && g.tag_type == tag_type;
        proof {
            reveal(Seq::filter);
            assert(self@.subrange(0, 0) =~= Seq::<Tag>::empty());
            assert(out@ =~= self@.subrange(0, 0).filter(pred));
        }
        let mut i: usize = 0;
        while i < self.rows.len()
            invariant
                i <= self@.len(),
                out@ == self@.subrange(0, i as int).filter(pred),
                pred == (|g: Tag|
                    g.tenant_id == tenant_id && g.workspace_id == workspace_id && g.tag_type
                        == tag_type),
            decreases self@.len() - i,
        {
            let hit = {
                let g = &self.rows[i];
                g.tenant_id == tenant_id && g.workspace_id == workspace_id && g.tag_type
                    == tag_type
            };
            proof {
                reveal(Seq::filter);
                assert(self@.subrange(0, i + 1).drop_last() =~= self@.subrange(0, i as int));
                assert(self@.subrange(0, i + 1).last() == self@[i as int]);
            }
            if hit {
                out.push(self.rows[i].clone());
            }
            i = i + 1;
        }
        proof {
            assert(self@.subrange(0, self@.len() as int) =~= self@);
        }
        out
    }
}


/// Lists one tag partition, seeding the default tag on the first visit of
/// an empty partition.  `default_id` comes from the identity generator.
pub fn list_tags_with_default(
    dao: &mut TagDao,
    tenant_id: u64,
    workspace_id: u64,
    tag_type: i32,
    default_id: u64,
) -> (r: Vec<Tag>)
    ensures
        ({
            let existing = old(dao)@.filter(
                |g: Tag|
                    g.tenant_id == tenant_id && g.workspace_id == workspace_id && g.tag_type
                        == tag_type,
            );
            if existing.len() == 0 {
                &&& final(dao)@.len() == old(dao)@.len() + 1
                &&& forall|i: int| 0 <= i < old(dao)@.len() ==> final(dao)@[i] == old(dao)@[i]
                &&& final(dao)@.last().id == default_id
                &&& final(dao)@.last().tenant_id == tenant_id
                &&& final(dao)@.last().workspace_id == workspace_id
                &&& final(dao)@.last().tag_type == tag_type
                &&& final(dao)@.last().name@ == "默认标签"@
            } else {
                final(dao)@ == old(dao)@
            }
        }),
        r@ == final(dao)@.filter(
            |g: Tag|
                g.tenant_id == tenant_id && g.workspace_id == workspace_id && g.tag_type
                    == tag_type,
        ),
{
    let tags = dao.list(tenant_id, workspace_id, tag_type);
    if tags.len() > 0 {
        return tags;
    }
    dao.insert(Tag::new(default_id, tenant_id, workspace_id, tag_type, "默认标签".to_owned()));
    proof {
        assert(forall|i: int|
            0 <= i < old(dao)@.len() ==> #[trigger] final(dao)@[i] == old(dao)@[i]);
    }
    dao.list(tenant_id, workspace_id, tag_type)
}

} // verus!
