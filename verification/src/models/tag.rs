//! Tag request and response shapes.

use vstd::prelude::*;

use crate::tag::Tag;

verus! {

/// Body of a tag creation or rename.
pub struct TagReq {
    pub name: String,
}

/// One tag as reported to clients.
pub struct TagResp {
    pub id: u64,
    pub name: String,
}

impl TagResp {
    pub fn of_tag(tag: Tag) -> (r: TagResp)
        ensures
            r.id == tag.id,
            r.name == tag.name,
    {
        TagResp { id: tag.id, name: tag.name }
    }
}

} // verus!
