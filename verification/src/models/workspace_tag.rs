//! Workspace tag request shapes (the response shape is
//! `crate::models::tag::TagResp`).

use vstd::prelude::*;

verus! {

/// Selects one tag partition.
pub struct TagReq {
    pub tag_type: i32,
}

/// Body of a tag creation within a partition.
pub struct TagCreateReq {
    pub tag_type: i32,
    pub name: String,
}

/// Body of a tag rename.
pub struct TagUpdateReq {
    pub name: String,
}

} // verus!
