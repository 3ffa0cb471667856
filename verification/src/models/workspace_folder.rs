//! Folder request shapes.  The tree response type is
//! `crate::tree::FolderResp`.

use vstd::prelude::*;

verus! {

/// Body of a folder creation: parent (0 for the root), display name,
/// optional description.
pub struct CreateFolderReq {
    pub parent_id: u64,
    pub name: String,
    pub description: Option<String>,
}

/// Body of a rename.
pub struct UpdateFolderReq {
    pub name: String,
    pub description: Option<String>,
}

/// Body of a move: new parent (0 for the root) and sibling position.
pub struct MoveFolderReq {
    pub parent_id: u64,
    pub seq: i32,
}

} // verus!
