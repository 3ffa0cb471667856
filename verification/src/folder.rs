//! The folder entity: one node of a per-(tenant, workspace, type) hierarchy.

use vstd::prelude::*;

verus! {

/// One row of the folder table.
///
/// `parent_id` refers to another folder's `id` in the same tenant and
/// workspace, or is the root sentinel `0`.  `seq` is the 1-based position
/// among the siblings that share the same (tenant, workspace, type, parent)
/// scope.
pub struct Folder {
    pub id: u64,
    pub tenant_id: u64,
    pub workspace_id: u64,
    pub parent_id: u64,
    pub folder_type: i32,
    pub name: String,
    pub seq: i32,
    pub description: Option<String>,
}

/// Duplicates an optional text value.
pub fn clone_opt_text(o: &Option<String>) -> (r: Option<String>)
    ensures
        r == *o,
{
    match o {
        Option::Some(s) => Option::Some(s.clone()),
        Option::None => Option::None,
    }
}

impl Clone for Folder {
    fn clone(&self) -> (r: Folder)
        ensures
            r == *self,
    {
        Folder {
            id: self.id,
            tenant_id: self.tenant_id,
            workspace_id: self.workspace_id,
            parent_id: self.parent_id,
            folder_type: self.folder_type,
            name: self.name.clone(),
            seq: self.seq,
            description: clone_opt_text(&self.description),
        }
    }
}

impl Folder {
    /// A fresh default folder for the given scope: attached to the root,
    /// without a position yet, carrying the default display name.
    pub fn new(tenant_id: u64, workspace_id: u64, folder_type: i32) -> (r: Folder)
        ensures
            r.id == 0,
            r.tenant_id == tenant_id,
            r.workspace_id == workspace_id,
            r.parent_id == 0,
            r.folder_type == folder_type,
            r.name@ == "默认目录"@,
            r.seq == 0,
            r.description matches Some(d) && d@ == "系统自动创建的默认目录"@,
    {
        Folder {
            id: 0,
            tenant_id,
            workspace_id,
            parent_id: 0,
            folder_type,
            name: "默认目录".to_owned(),
            seq: 0,
            description: Some("系统自动创建的默认目录".to_owned()),
        }
    }

    pub fn parent_id(&mut self, parent_id: u64) -> (r: &mut Folder)
        ensures
            *r == (Folder { parent_id, ..*old(self) }),
            *final(self) == *final(r),
    {
        self.parent_id = parent_id;
        self
    }

    pub fn name(&mut self, name: String) -> (r: &mut Folder)
        ensures
            *r == (Folder { name, ..*old(self) }),
            *final(self) == *final(r),
    {
        self.name = name;
        self
    }

    pub fn seq(&mut self, seq: i32) -> (r: &mut Folder)
        ensures
            *r == (Folder { seq, ..*old(self) }),
            *final(self) == *final(r),
    {
        self.seq = seq;
        self
    }

    pub fn description(&mut self, description: Option<String>) -> (r: &mut Folder)
        ensures
            *r == (Folder { description, ..*old(self) }),
            *final(self) == *final(r),
    {
        self.description = description;
        self
    }
}

} // verus!
