//! Workspace creation subscriptions.
//!
//! When a workspace is created, every registered subscription runs once
//! to seed the workspace.  The composition root owns the registry (an
//! explicit ordered list, invoked in registration order) and performs the
//! calls; implementations live with their business modules.

use vstd::prelude::*;

use crate::code::BizError;

verus! {

/// One seeding step to run for a freshly created workspace.
pub trait WorkspaceSubscription {
    /// The topic this subscription listens on.
    fn topic(&self) -> String;

    /// Seeds the given workspace.
    fn consume(&self, tenant_id: u64, workspace_id: u64) -> Result<(), BizError>;
}

/// Marker for the dispatch side: the composition root drives the
/// registered subscriptions in order when a workspace is created.
pub struct WorkspaceConsumer;

} // verus!
