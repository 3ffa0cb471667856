//! Request and response shapes of the HTTP surface, as plain data.  The
//! boundary layer converts between wire encodings and these types.

pub mod app;
pub mod context;
pub mod tag;
pub mod user;
pub mod workspace;
pub mod workspace_folder;
pub mod workspace_tag;
