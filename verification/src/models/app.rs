//! Application request and response shapes.

use vstd::prelude::*;

use crate::app::App;
use crate::ts_str::{parse_id_list, parse_id_list_spec};

verus! {

/// Body of an app creation.
pub struct AppCreateReq {
    pub folder_id: u64,
    pub app_type: i32,
    pub name: String,
    pub description: Option<String>,
}

/// Body of an app rename.
pub struct AppUpdateReq {
    pub name: String,
    pub description: Option<String>,
}

/// Body of a draft update.
pub struct AppDraftUpdateReq {
    pub spec_text: String,
}

/// Body of a tag re-assignment.
pub struct AppTagUpdateReq {
    pub tag_ids: Vec<u64>,
}

/// Body of a clone.
pub struct AppCloneReq {
    pub name: String,
    pub description: Option<String>,
}

/// Body of a release.
pub struct AppVersionReq {
    pub version: String,
    pub description: Option<String>,
}

/// Listing filter: all fields optional.
pub struct AppReq {
    pub folder_id: Option<u64>,
    pub app_type: Option<i32>,
    pub name: Option<String>,
    pub tag_ids: Option<Vec<u64>>,
}

/// One app as reported to clients, its tag list decoded.
pub struct AppResp {
    pub id: u64,
    pub folder_id: u64,
    pub app_type: i32,
    pub name: String,
    pub description: Option<String>,
    pub tag_ids: Vec<u64>,
}

impl AppResp {
    /// Shapes one row for the client, decoding the comma-separated tag
    /// list it was loaded with.
    pub fn of_app(app: App) -> (r: AppResp)
        ensures
            r.id == app.id,
            r.folder_id == app.folder_id,
            r.app_type == app.app_type,
            r.name == app.name,
            r.description == app.description,
            r.tag_ids@ == (match app.tag_ids_str {
                Some(s) => parse_id_list_spec(s@),
                None => Seq::<u64>::empty(),
            }),
    {
        let tag_ids = match &app.tag_ids_str {
            Some(s) => parse_id_list(s.as_str()),
            None => {
                let v: Vec<u64> = Vec::new();
                proof {
                    assert(v@ =~= Seq::<u64>::empty());
                }
                v
            },
        };
        AppResp {
            id: app.id,
            folder_id: app.folder_id,
            app_type: app.app_type,
            name: app.name,
            description: app.description,
            tag_ids,
        }
    }
}

} // verus!
