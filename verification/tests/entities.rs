use uvwa::app::{clone_app, filter_apps, release_app, App, AppDao, AppDraft};
use uvwa::code::Code;
use uvwa::id::Id;
use uvwa::models::workspace::{mark_selected, WorkspaceResp};
use uvwa::ops::FolderError;
use uvwa::tag::{Tag, TagDao};
use uvwa::user::{User, UserDao};
use uvwa::workspace::{Workspace, WorkspaceDao};

#[test]
fn test_code() {
    assert_eq!(Code::Success.as_i32(), 200);
    assert_eq!(Code::Success.code_str(), "200");
    assert_eq!(Code::InternalServerError.code_str(), "500");
}

#[test]
fn folder_errors_map_to_codes() {
    assert_eq!(FolderError::Validation.code().as_i32(), 902);
    assert_eq!(FolderError::NotFound.code().as_i32(), 3102);
    assert_eq!(FolderError::ParentNotFound.code().as_i32(), 3101);
    assert_eq!(FolderError::NotEmpty.code().as_i32(), 3103);
    assert_eq!(FolderError::SelfMove.code().as_i32(), 3104);
}

#[test]
fn tag_crud() {
    let mut dao = TagDao::new();
    dao.insert(Tag::new(1, 5, 6, 0, "alpha".to_string()));
    dao.insert(Tag::new(2, 5, 6, 0, "beta".to_string()));
    dao.insert(Tag::new(3, 5, 6, 1, "other-type".to_string()));
    let listed = dao.list(5, 6, 0);
    assert_eq!(listed.len(), 2);
    assert_eq!(listed[0].name, "alpha");

    dao.update(Tag::new(2, 5, 6, 0, "renamed".to_string()));
    let listed = dao.list(5, 6, 0);
    assert_eq!(listed[1].name, "renamed");

    dao.delete(5, 6, 0, 1);
    let listed = dao.list(5, 6, 0);
    assert_eq!(listed.len(), 1);
    assert_eq!(listed[0].id, 2);
    assert_eq!(dao.list(5, 6, 1).len(), 1);
}

#[test]
fn user_lookup() {
    let mut dao = UserDao::new();
    let mut u = User::new(1, 3, "a@example.com".to_string(), true);
    u.password = Some("secret".to_string());
    dao.insert(u);
    dao.insert(User::new(2, 3, "b@example.com".to_string(), false));

    assert_eq!(dao.list(3).len(), 2);
    assert_eq!(dao.list(4).len(), 0);
    let hit = dao.get(&"a@example.com".to_string(), &"secret".to_string());
    assert_eq!(hit.unwrap().id, 1);
    // No stored password means no credential match.
    let miss = dao.get(&"b@example.com".to_string(), &"anything".to_string());
    assert!(miss.is_none());
    let wrong = dao.get(&"a@example.com".to_string(), &"wrong".to_string());
    assert!(wrong.is_none());
}

#[test]
fn workspace_crud_and_default() {
    let mut dao = WorkspaceDao::new();
    // No workspace yet: the default one is created with the fresh id.
    assert_eq!(dao.default_workspace_id(1, 100), 100);
    let made = dao.get(1, 100).unwrap();
    assert_eq!(made.name, "默认工作空间");
    // Now the first existing workspace wins.
    assert_eq!(dao.default_workspace_id(1, 200), 100);
    assert!(dao.get(1, 200).is_none());

    let mut ws = Workspace::new(101, 1);
    ws.name = "second".to_string();
    dao.insert(&ws);
    dao.update(Workspace {
        tenant_id: 1,
        id: 101,
        name: "renamed".to_string(),
        description: None,
    });
    assert_eq!(dao.get(1, 101).unwrap().name, "renamed");
    dao.delete(1, 101);
    assert!(dao.get(1, 101).is_none());
}

#[test]
fn marking_the_selected_workspace() {
    let resp = |id: u64, name: &str| WorkspaceResp {
        id,
        name: name.to_string(),
        description: None,
        selected: false,
    };
    // Cached id present in the listing: it is marked, nothing cached anew.
    let mut v = vec![resp(1, "a"), resp(2, "b")];
    assert_eq!(mark_selected(&mut v, Some(2)), None);
    assert!(!v[0].selected && v[1].selected);

    // Nothing cached: the first workspace is marked and reported back for
    // caching.
    let mut v = vec![resp(1, "a"), resp(2, "b")];
    assert_eq!(mark_selected(&mut v, None), Some(1));
    assert!(v[0].selected && !v[1].selected);

    // A stale cached id marks nothing.
    let mut v = vec![resp(1, "a")];
    assert_eq!(mark_selected(&mut v, Some(9)), None);
    assert!(!v[0].selected);

    let mut v: Vec<WorkspaceResp> = Vec::new();
    assert_eq!(mark_selected(&mut v, None), None);
}

fn plain_app(id: u64, name: &str, tags: Option<&str>) -> App {
    App {
        id,
        tenant_id: 1,
        workspace_id: 2,
        folder_id: 10,
        app_type: 0,
        name: name.to_string(),
        description: None,
        tag_ids_str: tags.map(|s| s.to_string()),
    }
}

#[test]
fn app_tag_filtering() {
    let apps = vec![
        plain_app(1, "a", Some("1,2")),
        plain_app(2, "b", Some("3")),
        plain_app(3, "c", None),
    ];
    let all = filter_apps(apps, &None);
    assert_eq!(all.len(), 3);

    let filtered = filter_apps(all, &Some(vec![2, 9]));
    assert_eq!(filtered.len(), 1);
    assert_eq!(filtered[0].id, 1);

    let empty_filter = filter_apps(
        vec![plain_app(1, "a", Some("1,2")), plain_app(3, "c", None)],
        &Some(vec![]),
    );
    assert_eq!(empty_filter.len(), 2);
}

#[test]
fn releasing_an_app() {
    let mut dao = AppDao::new();
    assert_eq!(
        release_app(&mut dao, 1, 2, 5, "1.0.0".to_string(), None, 50, 51),
        Err(Code::AppNotExist)
    );
    dao.insert(plain_app(5, "app", None));
    assert_eq!(
        release_app(&mut dao, 1, 2, 5, "1.0.0".to_string(), None, 50, 51),
        Err(Code::AppDraftNotExist)
    );
    dao.insert_or_update_draft(AppDraft {
        id: 40,
        tenant_id: 1,
        workspace_id: 2,
        app_id: 5,
        spec_text: "content-a".to_string(),
    });
    release_app(&mut dao, 1, 2, 5, "1.2.3-rc".to_string(), None, 50, 51).unwrap();
    // A second release demotes the first one.
    release_app(&mut dao, 1, 2, 5, "2.0".to_string(), None, 60, 61).unwrap();
    // Nothing observable beyond the contract here without a listing
    // method; cloning below exercises the tables further.
}

#[test]
fn cloning_an_app() {
    let mut dao = AppDao::new();
    assert_eq!(
        clone_app(&mut dao, 1, 2, 5, "copy".to_string(), None, 6, 41),
        Err(Code::AppNotExist)
    );
    dao.insert(plain_app(5, "app", None));
    dao.insert_or_update_draft(AppDraft {
        id: 40,
        tenant_id: 1,
        workspace_id: 2,
        app_id: 5,
        spec_text: "content".to_string(),
    });
    clone_app(&mut dao, 1, 2, 5, "copy".to_string(), None, 6, 41).unwrap();
    let copy = dao.get_by_id(1, 2, 6).unwrap();
    assert_eq!(copy.name, "copy");
    assert_eq!(copy.folder_id, 10);
    let draft = dao.get_draft(1, 2, 6).unwrap();
    assert_eq!(draft.spec_text, "content");
}

#[test]
fn id_generator_runs() {
    // The generator depends on the machine; when it can be built, two
    // draws are distinct nonzero numbers.
    if let Some(generator) = Id::new() {
        let a = generator.next_id();
        let b = generator.next_id();
        if let (Some(a), Some(b)) = (a, b) {
            assert_ne!(a, b);
        }
    }
}

#[test]
fn folder_builder_chain() {
    let mut f = uvwa::folder::Folder::new(1, 2, 3);
    assert_eq!(f.name, "默认目录");
    f.parent_id(7).name("renamed".to_string()).seq(4).description(None);
    assert_eq!(f.parent_id, 7);
    assert_eq!(f.name, "renamed");
    assert_eq!(f.seq, 4);
    assert_eq!(f.description, None);

    let mut a = uvwa::app::App {
        id: 1,
        tenant_id: 0,
        workspace_id: 0,
        folder_id: 0,
        app_type: 0,
        name: "a".to_string(),
        description: None,
        tag_ids_str: None,
    };
    a.tenant_id(5).workspace_id(6);
    assert_eq!(a.tenant_id, 5);
    assert_eq!(a.workspace_id, 6);
}

#[test]
fn app_lifecycle_through_cores() {
    let mut folders = uvwa::store::FolderDao::new();
    uvwa::ops::create_folder(&mut folders, 1, 2, 0, 0, "docs".to_string(), None, 10).unwrap();

    let mut dao = AppDao::new();
    assert_eq!(
        uvwa::app::create_app(&mut dao, &folders, 1, 2, 99, 0, "a".to_string(), None, 5),
        Err(Code::AppParentFolderNotExist)
    );
    uvwa::app::create_app(&mut dao, &folders, 1, 2, 10, 0, "a".to_string(), None, 5).unwrap();

    uvwa::app::update_app(&mut dao, 1, 2, 5, "renamed".to_string(), None).unwrap();
    assert_eq!(dao.get_by_id(1, 2, 5).unwrap().name, "renamed");
    assert_eq!(
        uvwa::app::update_app(&mut dao, 1, 2, 6, "x".to_string(), None),
        Err(Code::AppNotExist)
    );

    uvwa::app::update_app_draft(&mut dao, 1, 2, 5, "body".to_string(), 40).unwrap();
    assert_eq!(dao.get_draft(1, 2, 5).unwrap().spec_text, "body");
    uvwa::app::update_app_draft(&mut dao, 1, 2, 5, "body-2".to_string(), 41).unwrap();
    assert_eq!(dao.get_draft(1, 2, 5).unwrap().spec_text, "body-2");

    uvwa::app::update_app_tags(&mut dao, 1, 2, 5, &vec![3, 4]).unwrap();
    assert_eq!(dao.list_app_tags_by_app_ids(1, 2, &vec![5]).len(), 2);
    uvwa::app::update_app_tags(&mut dao, 1, 2, 5, &vec![9]).unwrap();
    let tags = dao.list_app_tags_by_app_ids(1, 2, &vec![5]);
    assert_eq!(tags.len(), 1);
    assert_eq!(tags[0].tag_id, 9);

    release_app(&mut dao, 1, 2, 5, "1.0".to_string(), None, 50, 51).unwrap();
    uvwa::app::delete_app(&mut dao, 1, 2, 5).unwrap();
    assert!(dao.get_by_id(1, 2, 5).is_none());
    assert!(dao.get_draft(1, 2, 5).is_none());
    assert_eq!(dao.list_app_tags_by_app_ids(1, 2, &vec![5]).len(), 0);
}

#[test]
fn default_tag_is_seeded_once() {
    let mut dao = TagDao::new();
    let first = uvwa::tag::list_tags_with_default(&mut dao, 1, 2, 0, 77);
    assert_eq!(first.len(), 1);
    assert_eq!(first[0].id, 77);
    assert_eq!(first[0].name, "默认标签");
    let second = uvwa::tag::list_tags_with_default(&mut dao, 1, 2, 0, 88);
    assert_eq!(second.len(), 1);
    assert_eq!(second[0].id, 77);
}
