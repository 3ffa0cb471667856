//! The authenticated request context.

use vstd::prelude::*;

verus! {

/// What the auth boundary resolves for every request: tenant, user and
/// the user's selected workspace.
#[derive(Clone, Copy, Debug)]
pub struct Context {
    pub tenant_id: u64,
    pub user_id: u64,
    pub workspace_id: u64,
}

} // verus!
