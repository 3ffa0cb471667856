//! Applications: drafts, releases and tag assignments per workspace.

use vstd::prelude::*;

use crate::code::Code;
use crate::folder::clone_opt_text;
use crate::store::{has_row, FolderDao};
use crate::tree::opt_text_view;
use crate::ts_str::{parse_id_list, parse_id_list_spec};
use crate::version::{parse_version, ver_major, ver_minor, ver_patch, ver_pre};

verus! {

/// Index of the first element satisfying a predicate; the length when
/// there is none.
pub open spec fn first_where<A>(s: Seq<A>, pred: spec_fn(A) -> bool) -> int
    decreases s.len(),
{
    if s.len() == 0 {
        0
    } else if pred(s[0]) {
        0
    } else {
        1 + first_where(s.drop_first(), pred)
    }
}

/// What `first_where` returns.
pub proof fn lemma_first_where<A>(s: Seq<A>, pred: spec_fn(A) -> bool)
    ensures
        0 <= first_where(s, pred) <= s.len(),
        first_where(s, pred) < s.len() ==> pred(s[first_where(s, pred)]),
        forall|j: int| 0 <= j < first_where(s, pred) ==> !pred(#[trigger] s[j]),
    decreases s.len(),
{
    if s.len() > 0 && !pred(s[0]) {
        lemma_first_where(s.drop_first(), pred);
        assert(forall|i: int|
            0 <= i < s.drop_first().len() ==> #[trigger] s.drop_first()[i] == s[i + 1]);
        let r = first_where(s, pred);
        assert forall|j: int| 0 <= j < r implies !pred(#[trigger] s[j]) by {
            if j > 0 {
                assert(s.drop_first()[j - 1] == s[j]);
            }
        }
    }
}

/// One application row.
pub struct App {
    pub id: u64,
    pub tenant_id: u64,
    pub workspace_id: u64,
    pub folder_id: u64,
    pub app_type: i32,
    pub name: String,
    pub description: Option<String>,
    /// Assigned tag ids as a comma-separated list, when loaded.
    pub tag_ids_str: Option<String>,
}

impl Clone for App {
    fn clone(&self) -> (r: App)
        ensures
            r == *self,
    {
        App {
            id: self.id,
            tenant_id: self.tenant_id,
            workspace_id: self.workspace_id,
            folder_id: self.folder_id,
            app_type: self.app_type,
            name: self.name.clone(),
            description: clone_opt_text(&self.description),
            tag_ids_str: clone_opt_text(&self.tag_ids_str),
        }
    }
}

impl App {
    pub fn tenant_id(&mut self, tenant_id: u64) -> (r: &mut App)
        ensures
            *r == (App { tenant_id, ..*old(self) }),
            *final(self) == *final(r),
    {
        self.tenant_id = tenant_id;
        self
    }

    pub fn workspace_id(&mut self, workspace_id: u64) -> (r: &mut App)
        ensures
            *r == (App { workspace_id, ..*old(self) }),
            *final(self) == *final(r),
    {
        self.workspace_id = workspace_id;
        self
    }
}

/// One tag assignment.
#[derive(Clone, Copy)]
pub struct AppTag {
    pub id: u64,
    pub tenant_id: u64,
    pub workspace_id: u64,
    pub app_id: u64,
    pub tag_id: u64,
}

/// An application's editable draft.
pub struct AppDraft {
    pub id: u64,
    pub tenant_id: u64,
    pub workspace_id: u64,
    pub app_id: u64,
    pub spec_text: String,
}

impl Clone for AppDraft {
    fn clone(&self) -> (r: AppDraft)
        ensures
            r == *self,
    {
        AppDraft {
            id: self.id,
            tenant_id: self.tenant_id,
            workspace_id: self.workspace_id,
            app_id: self.app_id,
            spec_text: self.spec_text.clone(),
        }
    }
}

/// One released version of an application.
pub struct AppVersion {
    pub id: u64,
    pub tenant_id: u64,
    pub workspace_id: u64,
    pub app_id: u64,
    pub version: String,
    pub major: Option<i32>,
    pub minor: Option<i32>,
    pub patch: Option<i32>,
    pub pre_release: Option<String>,
    pub description: Option<String>,
    pub is_latest: bool,
}

impl Clone for AppVersion {
    fn clone(&self) -> (r: AppVersion)
        ensures
            r == *self,
    {
        AppVersion {
            id: self.id,
            tenant_id: self.tenant_id,
            workspace_id: self.workspace_id,
            app_id: self.app_id,
            version: self.version.clone(),
            major: self.major,
            minor: self.minor,
            patch: self.patch,
            pre_release: clone_opt_text(&self.pre_release),
            description: clone_opt_text(&self.description),
            is_latest: self.is_latest,
        }
    }
}

/// The frozen content of one released version.
pub struct AppVersionSpec {
    pub id: u64,
    pub tenant_id: u64,
    pub workspace_id: u64,
    pub app_id: u64,
    pub app_version_id: u64,
    pub spec_text: String,
}

pub open spec fn app_key_matches(a: App, t: u64, w: u64, id: u64) -> bool {
    a.tenant_id == t && a.workspace_id == w && a.id == id
}

pub open spec fn draft_key_matches(d: AppDraft, t: u64, w: u64, app_id: u64) -> bool {
    d.tenant_id == t && d.workspace_id == w && d.app_id == app_id
}

/// The application tables: apps, tag assignments, drafts, released
/// versions and their contents.
pub struct AppDao {
    apps: Vec<App>,
    app_tags: Vec<AppTag>,
    drafts: Vec<AppDraft>,
    versions: Vec<AppVersion>,
    version_specs: Vec<AppVersionSpec>,
}

impl AppDao {
    pub closed spec fn apps(&self) -> Seq<App> {
        self.apps@
    }

    pub closed spec fn app_tags(&self) -> Seq<AppTag> {
        self.app_tags@
    }

    pub closed spec fn drafts(&self) -> Seq<AppDraft> {
        self.drafts@
    }

    pub closed spec fn versions(&self) -> Seq<AppVersion> {
        self.versions@
    }

    pub closed spec fn version_specs(&self) -> Seq<AppVersionSpec> {
        self.version_specs@
    }

    pub fn new() -> (r: AppDao)
        ensures
            r.apps() == Seq::<App>::empty(),
            r.app_tags() == Seq::<AppTag>::empty(),
            r.drafts() == Seq::<AppDraft>::empty(),
            r.versions() == Seq::<AppVersion>::empty(),
            r.version_specs() == Seq::<AppVersionSpec>::empty(),
    {
        let r = AppDao {
            apps: Vec::new(),
            app_tags: Vec::new(),
            drafts: Vec::new(),
            versions: Vec::new(),
            version_specs: Vec::new(),
        };
        proof {
            assert(r.apps() =~= Seq::<App>::empty());
            assert(r.app_tags() =~= Seq::<AppTag>::empty());
            assert(r.drafts() =~= Seq::<AppDraft>::empty());
            assert(r.versions() =~= Seq::<AppVersion>::empty());
            assert(r.version_specs() =~= Seq::<AppVersionSpec>::empty());
        }
        r
    }

    /// All apps of one workspace, in table order.
    pub fn list(&self, tenant_id: u64, workspace_id: u64) -> (r: Vec<App>)
        ensures
            r@ == self.apps().filter(
                |a: App| a.tenant_id == tenant_id && a.workspace_id == workspace_id,
            ),
    {
        let mut out: Vec<App> = Vec::new();
        let ghost pred = |a: App| a.tenant_id == tenant_id && a.workspace_id == workspace_id;
        proof {
            reveal(Seq::filter);
            assert(out@ =~= self.apps().subrange(0, 0).filter(pred));
        }
        let mut i: usize = 0;
        while i < self.apps.len()
            invariant
                i <= self.apps().len(),
                out@ == self.apps().subrange(0, i as int).filter(pred),
                pred == (|a: App| a.tenant_id == tenant_id && a.workspace_id == workspace_id),
            decreases self.apps().len() - i,
        {
            proof {
                reveal(Seq::filter);
                assert(self.apps().subrange(0, i + 1).drop_last() =~= self.apps().subrange(
                    0,
                    i as int,
                ));
                assert(self.apps().subrange(0, i + 1).last() == self.apps()[i as int]);
            }
            let hit = {
                let a = &self.apps[i];
                a.tenant_id == tenant_id && a.workspace_id == workspace_id
            };
            if hit {
                out.push(self.apps[i].clone());
            }
            i = i + 1;
        }
        proof {
            assert(self.apps().subrange(0, self.apps().len() as int) =~= self.apps());
        }
        out
    }

    /// Lookup by identity: the first matching app.
    pub fn get_by_id(&self, tenant_id: u64, workspace_id: u64, id: u64) -> (r: Option<App>)
        ensures
            ({
                let fi = first_where(
                    self.apps(),
                    |a: App| app_key_matches(a, tenant_id, workspace_id, id),
                );
                &&& r is Some <==> fi < self.apps().len()
                &&& r matches Some(a) ==> a == self.apps()[fi]
            }),
    {
        let ghost pred = |a: App| app_key_matches(a, tenant_id, workspace_id, id);
        proof {
            lemma_first_where(self.apps(), pred);
        }
        let mut i: usize = 0;
        while i < self.apps.len()
            invariant
                i <= self.apps().len(),
                pred == (|a: App| app_key_matches(a, tenant_id, workspace_id, id)),
                forall|j: int|
                    0 <= j < i ==> !app_key_matches(#[trigger] self.apps()[j], tenant_id,
                    workspace_id, id),
            decreases self.apps().len() - i,
        {
            let hit = {
                let a = &self.apps[i];
                a.tenant_id == tenant_id && a.workspace_id == workspace_id && a.id == id
            };
            if hit {
                proof {
                    lemma_first_where(self.apps(), pred);
                    let fi = first_where(self.apps(), pred);
                    if fi < i {
                        assert(pred(self.apps()[fi]));
                        assert(false);
                    }
                    assert(fi == i);
                }
                return Some(self.apps[i].clone());
            }
            i = i + 1;
        }
        proof {
            lemma_first_where(self.apps(), pred);
            let fi = first_where(self.apps(), pred);
            if fi < self.apps().len() {
                assert(pred(self.apps()[fi]));
                assert(false);
            }
        }
        None
    }

    /// Appends one app row as given.
    pub fn insert(&mut self, app: App) -> (id: u64)
        ensures
            final(self).apps() == old(self).apps().push(app),
            final(self).app_tags() == old(self).app_tags(),
            final(self).drafts() == old(self).drafts(),
            final(self).versions() == old(self).versions(),
            final(self).version_specs() == old(self).version_specs(),
            id == app.id,
    {
        let id = app.id;
        self.apps.push(app);
        id
    }

    /// Overwrites name and description of every app with the given
    /// identity.
    pub fn update(&mut self, app: &App)
        ensures
            final(self).apps().len() == old(self).apps().len(),
            forall|i: int|
                0 <= i < old(self).apps().len() ==> #[trigger] final(self).apps()[i] == (
                if app_key_matches(old(self).apps()[i], app.tenant_id, app.workspace_id, app.id) {
                    App { name: app.name, description: app.description, ..old(self).apps()[i] }
                } else {
                    old(self).apps()[i]
                }),
            final(self).app_tags() == old(self).app_tags(),
            final(self).drafts() == old(self).drafts(),
            final(self).versions() == old(self).versions(),
            final(self).version_specs() == old(self).version_specs(),
    {
        let mut i: usize = 0;
        while i < self.apps.len()
            invariant
                i <= self.apps().len(),
                self.apps().len() == old(self).apps().len(),
                forall|j: int|
                    0 <= j < i ==> #[trigger] self.apps()[j] == (if app_key_matches(
                        old(self).apps()[j],
                        app.tenant_id,
                        app.workspace_id,
                        app.id,
                    ) {
                        App {
                            name: app.name,
                            description: app.description,
                            ..old(self).apps()[j]
                        }
                    } else {
                        old(self).apps()[j]
                    }),
                forall|j: int|
                    i <= j < self.apps().len() ==> #[trigger] self.apps()[j] == old(self).apps()[
                        j],
                self.app_tags() == old(self).app_tags(),
                self.drafts() == old(self).drafts(),
                self.versions() == old(self).versions(),
                self.version_specs() == old(self).version_specs(),
            decreases self.apps().len() - i,
        {
            let hit = {
                let a = &self.apps[i];
                a.tenant_id == app.tenant_id && a.workspace_id == app.workspace_id && a.id
                    == app.id
            };
            if hit {
                let mut na = self.apps[i].clone();
                na.name = app.name.clone();
                na.description = clone_opt_text(&app.description);
                self.apps.set(i, na);
            }
            i = i + 1;
        }
    }

    /// Removes every app with the given identity.
    pub fn delete(&mut self, tenant_id: u64, workspace_id: u64, id: u64)
        ensures
            final(self).apps() == old(self).apps().filter(
                |a: App| !app_key_matches(a, tenant_id, workspace_id, id),
            ),
            final(self).app_tags() == old(self).app_tags(),
            final(self).drafts() == old(self).drafts(),
            final(self).versions() == old(self).versions(),
            final(self).version_specs() == old(self).version_specs(),
    {
        let mut kept: Vec<App> = Vec::new();
        let ghost pred = |a: App| !app_key_matches(a, tenant_id, workspace_id, id);
        proof {
            reveal(Seq::filter);
            assert(kept@ =~= old(self).apps().subrange(0, 0).filter(pred));
        }
        let mut i: usize = 0;
        while i < self.apps.len()
            invariant
                i <= self.apps().len(),
                self.apps() == old(self).apps(),
                kept@ == old(self).apps().subrange(0, i as int).filter(pred),
                pred == (|a: App| !app_key_matches(a, tenant_id, workspace_id, id)),
                self.app_tags() == old(self).app_tags(),
                self.drafts() == old(self).drafts(),
                self.versions() == old(self).versions(),
                self.version_specs() == old(self).version_specs(),
            decreases self.apps().len() - i,
        {
            proof {
                reveal(Seq::filter);
                assert(self.apps().subrange(0, i + 1).drop_last() =~= self.apps().subrange(
                    0,
                    i as int,
                ));
                assert(self.apps().subrange(0, i + 1).last() == self.apps()[i as int]);
            }
            let keep = {
                let a = &self.apps[i];
                !(a.tenant_id == tenant_id && a.workspace_id == workspace_id && a.id == id)
            };
            if keep {
                kept.push(self.apps[i].clone());
            }
            i = i + 1;
        }
        proof {
            assert(old(self).apps().subrange(0, old(self).apps().len() as int) =~= old(
                self,
            ).apps());
        }
        self.apps = kept;
    }

    /// Removes every app that lived in the given folder.
    pub fn delete_by_folder_id(&mut self, tenant_id: u64, workspace_id: u64, folder_id: u64)
        ensures
            final(self).apps() == old(self).apps().filter(
                |a: App|
                    !(a.tenant_id == tenant_id && a.workspace_id == workspace_id && a.folder_id
                        == folder_id),
            ),
            final(self).app_tags() == old(self).app_tags(),
            final(self).drafts() == old(self).drafts(),
            final(self).versions() == old(self).versions(),
            final(self).version_specs() == old(self).version_specs(),
    {
        let mut kept: Vec<App> = Vec::new();
        let ghost pred = |a: App|
            !(a.tenant_id == tenant_id && a.workspace_id == workspace_id && a.folder_id
                == folder_id);
        proof {
            reveal(Seq::filter);
            assert(kept@ =~= old(self).apps().subrange(0, 0).filter(pred));
        }
        let mut i: usize = 0;
        while i < self.apps.len()
            invariant
                i <= self.apps().len(),
                self.apps() == old(self).apps(),
                kept@ == old(self).apps().subrange(0, i as int).filter(pred),
                pred == (|a: App|
                    !(a.tenant_id == tenant_id && a.workspace_id == workspace_id && a.folder_id
                        == folder_id)),
                self.app_tags() == old(self).app_tags(),
                self.drafts() == old(self).drafts(),
                self.versions() == old(self).versions(),
                self.version_specs() == old(self).version_specs(),
            decreases self.apps().len() - i,
        {
            proof {
                reveal(Seq::filter);
                assert(self.apps().subrange(0, i + 1).drop_last() =~= self.apps().subrange(
                    0,
                    i as int,
                ));
                assert(self.apps().subrange(0, i + 1).last() == self.apps()[i as int]);
            }
            let keep = {
                let a = &self.apps[i];
                !(a.tenant_id == tenant_id && a.workspace_id == workspace_id && a.folder_id
                    == folder_id)
            };
            if keep {
                kept.push(self.apps[i].clone());
            }
            i = i + 1;
        }
        proof {
            assert(old(self).apps().subrange(0, old(self).apps().len() as int) =~= old(
                self,
            ).apps());
        }
        self.apps = kept;
    }

    /// Records one tag assignment per listed tag (assignment rows carry no
    /// identity of their own here).
    pub fn batch_insert_app_tags(
        &mut self,
        tenant_id: u64,
        workspace_id: u64,
        app_id: u64,
        tag_ids: &Vec<u64>,
    )
        ensures
            final(self).app_tags() == old(self).app_tags() + Seq::new(
                tag_ids@.len(),
                |i: int|
                    AppTag {
                        id: 0,
                        tenant_id,
                        workspace_id,
                        app_id,
                        tag_id: tag_ids@[i],
                    },
            ),
            final(self).apps() == old(self).apps(),
            final(self).drafts() == old(self).drafts(),
            final(self).versions() == old(self).versions(),
            final(self).version_specs() == old(self).version_specs(),
    {
        let mut i: usize = 0;
        proof {
            assert(self.app_tags() =~= old(self).app_tags() + Seq::new(
                0,
                |k: int| AppTag { id: 0, tenant_id, workspace_id, app_id, tag_id: tag_ids@[k] },
            ));
        }
        while i < tag_ids.len()
            invariant
                i <= tag_ids@.len(),
                self.app_tags() =~= old(self).app_tags() + Seq::new(
                    i as nat,
                    |k: int| AppTag { id: 0, tenant_id, workspace_id, app_id, tag_id: tag_ids@[
                        k] },
                ),
                self.apps() == old(self).apps(),
                self.drafts() == old(self).drafts(),
                self.versions() == old(self).versions(),
                self.version_specs() == old(self).version_specs(),
            decreases tag_ids@.len() - i,
        {
            let row = AppTag {
                id: 0,
                tenant_id,
                workspace_id,
                app_id,
                tag_id: tag_ids[i],
            };
            self.app_tags.push(row);
            i = i + 1;
        }
    }

    /// Removes every tag assignment of one app.
    pub fn delete_app_tag(&mut self, tenant_id: u64, workspace_id: u64, app_id: u64)
        ensures
            final(self).app_tags() == old(self).app_tags().filter(
                |g: AppTag|
                    !(g.tenant_id == tenant_id && g.workspace_id == workspace_id && g.app_id
                        == app_id),
            ),
            final(self).apps() == old(self).apps(),
            final(self).drafts() == old(self).drafts(),
            final(self).versions() == old(self).versions(),
            final(self).version_specs() == old(self).version_specs(),
    {
        let mut kept: Vec<AppTag> = Vec::new();
        let ghost pred = |g: AppTag|
            !(g.tenant_id == tenant_id && g.workspace_id == workspace_id && g.app_id == app_id);
        proof {
            reveal(Seq::filter);
            assert(kept@ =~= old(self).app_tags().subrange(0, 0).filter(pred));
        }
        let mut i: usize = 0;
        while i < self.app_tags.len()
            invariant
                i <= self.app_tags().len(),
                self.app_tags() == old(self).app_tags(),
                kept@ == old(self).app_tags().subrange(0, i as int).filter(pred),
                pred == (|g: AppTag|
                    !(g.tenant_id == tenant_id && g.workspace_id == workspace_id && g.app_id
                        == app_id)),
                self.apps() == old(self).apps(),
                self.drafts() == old(self).drafts(),
                self.versions() == old(self).versions(),
                self.version_specs() == old(self).version_specs(),
            decreases self.app_tags().len() - i,
        {
            proof {
                reveal(Seq::filter);
                assert(self.app_tags().subrange(0, i + 1).drop_last() =~= self.app_tags()
                    .subrange(0, i as int));
                assert(self.app_tags().subrange(0, i + 1).last() == self.app_tags()[i as int]);
            }
            let g = self.app_tags[i];
            if !(g.tenant_id == tenant_id && g.workspace_id == workspace_id && g.app_id == app_id)
                {
                kept.push(g);
            }
            i = i + 1;
        }
        proof {
            assert(old(self).app_tags().subrange(0, old(self).app_tags().len() as int) =~= old(
                self,
            ).app_tags());
        }
        self.app_tags = kept;
    }

    /// Removes every assignment of one tag.
    pub fn delete_app_tag_by_tag_id(&mut self, tenant_id: u64, workspace_id: u64, tag_id: u64)
        ensures
            final(self).app_tags() == old(self).app_tags().filter(
                |g: AppTag|
                    !(g.tenant_id == tenant_id && g.workspace_id == workspace_id && g.tag_id
                        == tag_id),
            ),
            final(self).apps() == old(self).apps(),
            final(self).drafts() == old(self).drafts(),
            final(self).versions() == old(self).versions(),
            final(self).version_specs() == old(self).version_specs(),
    {
        let mut kept: Vec<AppTag> = Vec::new();
        let ghost pred = |g: AppTag|
            !(g.tenant_id == tenant_id && g.workspace_id == workspace_id && g.tag_id == tag_id);
        proof {
            reveal(Seq::filter);
            assert(kept@ =~= old(self).app_tags().subrange(0, 0).filter(pred));
        }
        let mut i: usize = 0;
        while i < self.app_tags.len()
            invariant
                i <= self.app_tags().len(),
                self.app_tags() == old(self).app_tags(),
                kept@ == old(self).app_tags().subrange(0, i as int).filter(pred),
                pred == (|g: AppTag|
                    !(g.tenant_id == tenant_id && g.workspace_id == workspace_id && g.tag_id
                        == tag_id)),
                self.apps() == old(self).apps(),
                self.drafts() == old(self).drafts(),
                self.versions() == old(self).versions(),
                self.version_specs() == old(self).version_specs(),
            decreases self.app_tags().len() - i,
        {
            proof {
                reveal(Seq::filter);
                assert(self.app_tags().subrange(0, i + 1).drop_last() =~= self.app_tags()
                    .subrange(0, i as int));
                assert(self.app_tags().subrange(0, i + 1).last() == self.app_tags()[i as int]);
            }
            let g = self.app_tags[i];
            if !(g.tenant_id == tenant_id && g.workspace_id == workspace_id && g.tag_id == tag_id)
                {
                kept.push(g);
            }
            i = i + 1;
        }
        proof {
            assert(old(self).app_tags().subrange(0, old(self).app_tags().len() as int) =~= old(
                self,
            ).app_tags());
        }
        self.app_tags = kept;
    }

    /// All tag assignments of the listed apps, in table order.
    pub fn list_app_tags_by_app_ids(
        &self,
        tenant_id: u64,
        workspace_id: u64,
        app_ids: &Vec<u64>,
    ) -> (r: Vec<AppTag>)
        ensures
            r@ == self.app_tags().filter(
                |g: AppTag|
                    g.tenant_id == tenant_id && g.workspace_id == workspace_id
                        && app_ids@.contains(g.app_id),
            ),
    {
        let mut out: Vec<AppTag> = Vec::new();
        let ghost pred = |g: AppTag|
            g.tenant_id == tenant_id && g.workspace_id == workspace_id && app_ids@.contains(
                g.app_id,
            );
        proof {
            reveal(Seq::filter);
            assert(out@ =~= self.app_tags().subrange(0, 0).filter(pred));
        }
        let mut i: usize = 0;
        while i < self.app_tags.len()
            invariant
                i <= self.app_tags().len(),
                out@ == self.app_tags().subrange(0, i as int).filter(pred),
                pred == (|g: AppTag|
                    g.tenant_id == tenant_id && g.workspace_id == workspace_id
                        && app_ids@.contains(g.app_id)),
            decreases self.app_tags().len() - i,
        {
            proof {
                reveal(Seq::filter);
                assert(self.app_tags().subrange(0, i + 1).drop_last() =~= self.app_tags()
                    .subrange(0, i as int));
                assert(self.app_tags().subrange(0, i + 1).last() == self.app_tags()[i as int]);
            }
            let g = self.app_tags[i];
            if g.tenant_id == tenant_id && g.workspace_id == workspace_id && vec_contains_u64(
                app_ids,
                g.app_id,
            ) {
                out.push(g);
            }
            i = i + 1;
        }
        proof {
            assert(self.app_tags().subrange(0, self.app_tags().len() as int) =~= self.app_tags());
        }
        out
    }

    /// The first draft of one app, if any.
    pub fn get_draft(&self, tenant_id: u64, workspace_id: u64, app_id: u64) -> (r: Option<
        AppDraft,
    >)
        ensures
            ({
                let fi = first_where(
                    self.drafts(),
                    |d: AppDraft| draft_key_matches(d, tenant_id, workspace_id, app_id),
                );
                &&& r is Some <==> fi < self.drafts().len()
                &&& r matches Some(d) ==> d == self.drafts()[fi]
            }),
    {
        let ghost pred = |d: AppDraft| draft_key_matches(d, tenant_id, workspace_id, app_id);
        proof {
            lemma_first_where(self.drafts(), pred);
        }
        let mut i: usize = 0;
        while i < self.drafts.len()
            invariant
                i <= self.drafts().len(),
                pred == (|d: AppDraft| draft_key_matches(d, tenant_id, workspace_id, app_id)),
                forall|j: int|
                    0 <= j < i ==> !draft_key_matches(#[trigger] self.drafts()[j], tenant_id,
                    workspace_id, app_id),
            decreases self.drafts().len() - i,
        {
            let hit = {
                let d = &self.drafts[i];
                d.tenant_id == tenant_id && d.workspace_id == workspace_id && d.app_id == app_id
            };
            if hit {
                proof {
                    lemma_first_where(self.drafts(), pred);
                    let fi = first_where(self.drafts(), pred);
                    if fi < i {
                        assert(pred(self.drafts()[fi]));
                        assert(false);
                    }
                    assert(fi == i);
                }
                return Some(self.drafts[i].clone());
            }
            i = i + 1;
        }
        proof {
            lemma_first_where(self.drafts(), pred);
            let fi = first_where(self.drafts(), pred);
            if fi < self.drafts().len() {
                assert(pred(self.drafts()[fi]));
                assert(false);
            }
        }
        None
    }

    /// Replaces the draft of the row's app, or appends it as the first
    /// draft.
    pub fn insert_or_update_draft(&mut self, draft: AppDraft)
        ensures
            final(self).drafts() == draft_upsert(old(self).drafts(), draft),
            final(self).apps() == old(self).apps(),
            final(self).app_tags() == old(self).app_tags(),
            final(self).versions() == old(self).versions(),
            final(self).version_specs() == old(self).version_specs(),
    {
        let ghost pred = |d: AppDraft|
            draft_key_matches(d, draft.tenant_id, draft.workspace_id, draft.app_id);
        proof {
            lemma_first_where(old(self).drafts(), pred);
        }
        let mut i: usize = 0;
        while i < self.drafts.len()
            invariant
                i <= self.drafts().len(),
                self.drafts() == old(self).drafts(),
                pred == (|d: AppDraft| draft_key_matches(d, draft.tenant_id, draft.workspace_id,
                draft.app_id)),
                forall|j: int|
                    0 <= j < i ==> !draft_key_matches(#[trigger] self.drafts()[j],
                    draft.tenant_id, draft.workspace_id, draft.app_id),
                self.apps() == old(self).apps(),
                self.app_tags() == old(self).app_tags(),
                self.versions() == old(self).versions(),
                self.version_specs() == old(self).version_specs(),
            decreases self.drafts().len() - i,
        {
            let hit = {
                let d = &self.drafts[i];
                d.tenant_id == draft.tenant_id && d.workspace_id == draft.workspace_id && d.app_id
                    == draft.app_id
            };
            if hit {
                proof {
                    lemma_first_where(old(self).drafts(), pred);
                    let fi = first_where(old(self).drafts(), pred);
                    if fi < i {
                        assert(pred(old(self).drafts()[fi]));
                        assert(false);
                    }
                    assert(fi == i);
                }
                let mut nd = self.drafts[i].clone();
                nd.spec_text = draft.spec_text;
                self.drafts.set(i, nd);
                return;
            }
            i = i + 1;
        }
        proof {
            lemma_first_where(old(self).drafts(), pred);
            let fi = first_where(old(self).drafts(), pred);
            if fi < old(self).drafts().len() {
                assert(pred(old(self).drafts()[fi]));
                assert(false);
            }
        }
        self.drafts.push(draft);
    }

    /// Removes every draft of one app.
    pub fn delete_draft(&mut self, tenant_id: u64, workspace_id: u64, app_id: u64)
        ensures
            final(self).drafts() == old(self).drafts().filter(
                |d: AppDraft| !draft_key_matches(d, tenant_id, workspace_id, app_id),
            ),
            final(self).apps() == old(self).apps(),
            final(self).app_tags() == old(self).app_tags(),
            final(self).versions() == old(self).versions(),
            final(self).version_specs() == old(self).version_specs(),
    {
        let mut kept: Vec<AppDraft> = Vec::new();
        let ghost pred = |d: AppDraft| !draft_key_matches(d, tenant_id, workspace_id, app_id);
        proof {
            reveal(Seq::filter);
            assert(kept@ =~= old(self).drafts().subrange(0, 0).filter(pred));
        }
        let mut i: usize = 0;
        while i < self.drafts.len()
            invariant
                i <= self.drafts().len(),
                self.drafts() == old(self).drafts(),
                kept@ == old(self).drafts().subrange(0, i as int).filter(pred),
                pred == (|d: AppDraft| !draft_key_matches(d, tenant_id, workspace_id, app_id)),
                self.apps() == old(self).apps(),
                self.app_tags() == old(self).app_tags(),
                self.versions() == old(self).versions(),
                self.version_specs() == old(self).version_specs(),
            decreases self.drafts().len() - i,
        {
            proof {
                reveal(Seq::filter);
                assert(self.drafts().subrange(0, i + 1).drop_last() =~= self.drafts().subrange(
                    0,
                    i as int,
                ));
                assert(self.drafts().subrange(0, i + 1).last() == self.drafts()[i as int]);
            }
            let keep = {
                let d = &self.drafts[i];
                !(d.tenant_id == tenant_id && d.workspace_id == workspace_id && d.app_id
                    == app_id)
            };
            if keep {
                kept.push(self.drafts[i].clone());
            }
            i = i + 1;
        }
        proof {
            assert(old(self).drafts().subrange(0, old(self).drafts().len() as int) =~= old(
                self,
            ).drafts());
        }
        self.drafts = kept;
    }

    /// Clears the latest flag on every version of one app.
    pub fn cancel_latest(&mut self, tenant_id: u64, workspace_id: u64, app_id: u64)
        ensures
            final(self).versions() == versions_cancelled(
                old(self).versions(),
                tenant_id,
                workspace_id,
                app_id,
            ),
            final(self).apps() == old(self).apps(),
            final(self).app_tags() == old(self).app_tags(),
            final(self).drafts() == old(self).drafts(),
            final(self).version_specs() == old(self).version_specs(),
    {
        let mut i: usize = 0;
        while i < self.versions.len()
            invariant
                i <= self.versions().len(),
                self.versions().len() == old(self).versions().len(),
                forall|j: int|
                    0 <= j < i ==> #[trigger] self.versions()[j] == versions_cancelled(
                        old(self).versions(),
                        tenant_id,
                        workspace_id,
                        app_id,
                    )[j],
                forall|j: int|
                    i <= j < self.versions().len() ==> #[trigger] self.versions()[j] == old(
                        self,
                    ).versions()[j],
                self.apps() == old(self).apps(),
                self.app_tags() == old(self).app_tags(),
                self.drafts() == old(self).drafts(),
                self.version_specs() == old(self).version_specs(),
            decreases self.versions().len() - i,
        {
            let hit = {
                let v = &self.versions[i];
                v.tenant_id == tenant_id && v.workspace_id == workspace_id && v.app_id == app_id
            };
            if hit {
                let mut nv = self.versions[i].clone();
                nv.is_latest = false;
                self.versions.set(i, nv);
            }
            i = i + 1;
        }
        proof {
            assert(final(self).versions() =~= versions_cancelled(old(self).versions(), tenant_id,
            workspace_id, app_id));
        }
    }

    /// Appends one released version as given.
    pub fn insert_version(&mut self, version: AppVersion) -> (id: u64)
        ensures
            final(self).versions() == old(self).versions().push(version),
            final(self).apps() == old(self).apps(),
            final(self).app_tags() == old(self).app_tags(),
            final(self).drafts() == old(self).drafts(),
            final(self).version_specs() == old(self).version_specs(),
            id == version.id,
    {
        let id = version.id;
        self.versions.push(version);
        id
    }

    /// Appends one version content row as given.
    pub fn insert_version_spec(&mut self, content: AppVersionSpec) -> (id: u64)
        ensures
            final(self).version_specs() == old(self).version_specs().push(content),
            final(self).apps() == old(self).apps(),
            final(self).app_tags() == old(self).app_tags(),
            final(self).drafts() == old(self).drafts(),
            final(self).versions() == old(self).versions(),
            id == content.id,
    {
        let id = content.id;
        self.version_specs.push(content);
        id
    }

    /// Removes every released version of one app.
    pub fn delete_versions(&mut self, tenant_id: u64, workspace_id: u64, app_id: u64)
        ensures
            final(self).versions() == old(self).versions().filter(
                |v: AppVersion|
                    !(v.tenant_id == tenant_id && v.workspace_id == workspace_id && v.app_id
                        == app_id),
            ),
            final(self).apps() == old(self).apps(),
            final(self).app_tags() == old(self).app_tags(),
            final(self).drafts() == old(self).drafts(),
            final(self).version_specs() == old(self).version_specs(),
    {
        let mut kept: Vec<AppVersion> = Vec::new();
        let ghost pred = |v: AppVersion|
            !(v.tenant_id == tenant_id && v.workspace_id == workspace_id && v.app_id == app_id);
        proof {
            reveal(Seq::filter);
            assert(kept@ =~= old(self).versions().subrange(0, 0).filter(pred));
        }
        let mut i: usize = 0;
        while i < self.versions.len()
            invariant
                i <= self.versions().len(),
                self.versions() == old(self).versions(),
                kept@ == old(self).versions().subrange(0, i as int).filter(pred),
                pred == (|v: AppVersion|
                    !(v.tenant_id == tenant_id && v.workspace_id == workspace_id && v.app_id
                        == app_id)),
                self.apps() == old(self).apps(),
                self.app_tags() == old(self).app_tags(),
                self.drafts() == old(self).drafts(),
                self.version_specs() == old(self).version_specs(),
            decreases self.versions().len() - i,
        {
            proof {
                reveal(Seq::filter);
                assert(self.versions().subrange(0, i + 1).drop_last() =~= self.versions()
                    .subrange(0, i as int));
                assert(self.versions().subrange(0, i + 1).last() == self.versions()[i as int]);
            }
            let keep = {
                let v = &self.versions[i];
                !(v.tenant_id == tenant_id && v.workspace_id == workspace_id && v.app_id
                    == app_id)
            };
            if keep {
                kept.push(self.versions[i].clone());
            }
            i = i + 1;
        }
        proof {
            assert(old(self).versions().subrange(0, old(self).versions().len() as int) =~= old(
                self,
            ).versions());
        }
        self.versions = kept;
    }

    /// Removes the content rows of every released version of one app.
    pub fn delete_version_spec(&mut self, tenant_id: u64, workspace_id: u64, app_id: u64)
        ensures
            final(self).version_specs() == old(self).version_specs().filter(
                |c: AppVersionSpec|
                    !(c.tenant_id == tenant_id && c.workspace_id == workspace_id && c.app_id
                        == app_id),
            ),
            final(self).apps() == old(self).apps(),
            final(self).app_tags() == old(self).app_tags(),
            final(self).drafts() == old(self).drafts(),
            final(self).versions() == old(self).versions(),
    {
        let mut kept: Vec<AppVersionSpec> = Vec::new();
        let ghost pred = |c: AppVersionSpec|
            !(c.tenant_id == tenant_id && c.workspace_id == workspace_id && c.app_id == app_id);
        proof {
            reveal(Seq::filter);
            assert(kept@ =~= old(self).version_specs().subrange(0, 0).filter(pred));
        }
        let mut i: usize = 0;
        while i < self.version_specs.len()
            invariant
                i <= self.version_specs().len(),
                self.version_specs() == old(self).version_specs(),
                kept@ == old(self).version_specs().subrange(0, i as int).filter(pred),
                pred == (|c: AppVersionSpec|
                    !(c.tenant_id == tenant_id && c.workspace_id == workspace_id && c.app_id
                        == app_id)),
                self.apps() == old(self).apps(),
                self.app_tags() == old(self).app_tags(),
                self.drafts() == old(self).drafts(),
                self.versions() == old(self).versions(),
            decreases self.version_specs().len() - i,
        {
            proof {
                reveal(Seq::filter);
                assert(self.version_specs().subrange(0, i + 1).drop_last() =~= self.version_specs(
                ).subrange(0, i as int));
                assert(self.version_specs().subrange(0, i + 1).last() == self.version_specs()[
                    i as int]);
            }
            let keep = {
                let c = &self.version_specs[i];
                !(c.tenant_id == tenant_id && c.workspace_id == workspace_id && c.app_id
                    == app_id)
            };
            if keep {
                let c = &self.version_specs[i];
                kept.push(
                    AppVersionSpec {
                        id: c.id,
                        tenant_id: c.tenant_id,
                        workspace_id: c.workspace_id,
                        app_id: c.app_id,
                        app_version_id: c.app_version_id,
                        spec_text: c.spec_text.clone(),
                    },
                );
            }
            i = i + 1;
        }
        proof {
            assert(old(self).version_specs().subrange(0, old(self).version_specs().len() as int)
                =~= old(self).version_specs());
        }
        self.version_specs = kept;
    }
}

/// The drafts table after an upsert: the first draft of the same app gets
/// the new content, or the row is appended when the app had none.
pub open spec fn draft_upsert(s: Seq<AppDraft>, draft: AppDraft) -> Seq<AppDraft> {
    let fi = first_where(
        s,
        |d: AppDraft| draft_key_matches(d, draft.tenant_id, draft.workspace_id, draft.app_id),
    );
    if fi < s.len() {
        s.update(fi, AppDraft { spec_text: draft.spec_text, ..s[fi] })
    } else {
        s.push(draft)
    }
}

/// The versions table with the latest flag cleared on one app's versions.
pub open spec fn versions_cancelled(
    s: Seq<AppVersion>,
    t: u64,
    w: u64,
    app_id: u64,
) -> Seq<AppVersion> {
    Seq::new(
        s.len(),
        |i: int|
            if s[i].tenant_id == t && s[i].workspace_id == w && s[i].app_id == app_id {
                AppVersion { is_latest: false, ..s[i] }
            } else {
                s[i]
            },
    )
}

/// Decides membership in a plain id list.
pub fn vec_contains_u64(v: &Vec<u64>, x: u64) -> (r: bool)
    ensures
        r == v@.contains(x),
{
    let mut i: usize = 0;
    while i < v.len()
        invariant
            i <= v@.len(),
            forall|j: int| 0 <= j < i ==> v@[j] != x,
        decreases v@.len() - i,
    {
        if v[i] == x {
            return true;
        }
        i = i + 1;
    }
    proof {
        if v@.contains(x) {
            let j = choose|j: int| 0 <= j < v@.len() && v@[j] == x;
            assert(false);
        }
    }
    false
}


// ------------------------------------------------------------------
// Application logic over the tables.
// ------------------------------------------------------------------

/// An app passes the tag filter when the filter is empty or some of the
/// app's assigned tags is in the filter.
pub open spec fn app_tag_match(a: App, filter: Seq<u64>) -> bool {
    filter.len() == 0 || match a.tag_ids_str {
        Some(s) => exists|i: int|
            0 <= i < parse_id_list_spec(s@).len() && filter.contains(
                #[trigger] parse_id_list_spec(s@)[i],
            ),
        None => false,
    }
}

/// Decides `app_tag_match`.
pub fn app_matches_tags(a: &App, filter: &Vec<u64>) -> (r: bool)
    ensures
        r == app_tag_match(*a, filter@),
{
    if filter.len() == 0 {
        return true;
    }
    match &a.tag_ids_str {
        None => false,
        Some(s) => {
            let ids = parse_id_list(s.as_str());
            let mut i: usize = 0;
            while i < ids.len()
                invariant
                    i <= ids@.len(),
                    ids@ == parse_id_list_spec(a.tag_ids_str->Some_0@),
                    a.tag_ids_str is Some,
                    forall|j: int| 0 <= j < i ==> !filter@.contains(#[trigger] ids@[j]),
                decreases ids@.len() - i,
            {
                if vec_contains_u64(filter, ids[i]) {
                    return true;
                }
                i = i + 1;
            }
            proof {
                let ghost sv = a.tag_ids_str->Some_0@;
                if exists|k: int|
                    0 <= k < parse_id_list_spec(sv).len() && filter@.contains(
                        #[trigger] parse_id_list_spec(sv)[k],
                    ) {
                    let k = choose|k: int|
                        0 <= k < parse_id_list_spec(sv).len() && filter@.contains(
                            #[trigger] parse_id_list_spec(sv)[k],
                        );
                    assert(false);
                }
            }
            false
        },
    }
}

/// Applies the tag filter of an app listing: with no filter everything
/// passes; with a filter, exactly the apps with an assigned tag in it.
pub fn filter_apps(apps: Vec<App>, tag_filter: &Option<Vec<u64>>) -> (r: Vec<App>)
    ensures
        match tag_filter {
            None => r@ == apps@,
            Some(f) => r@ == apps@.filter(|a: App| app_tag_match(a, f@)),
        },
{
    match tag_filter {
        None => apps,
        Some(f) => {
            let mut out: Vec<App> = Vec::new();
            let ghost pred = |a: App| app_tag_match(a, f@);
            proof {
                reveal(Seq::filter);
                assert(out@ =~= apps@.subrange(0, 0).filter(pred));
            }
            let mut i: usize = 0;
            while i < apps.len()
                invariant
                    i <= apps@.len(),
                    out@ == apps@.subrange(0, i as int).filter(pred),
                    pred == (|a: App| app_tag_match(a, f@)),
                decreases apps@.len() - i,
            {
                proof {
                    reveal(Seq::filter);
                    assert(apps@.subrange(0, i + 1).drop_last() =~= apps@.subrange(0, i as int));
                    assert(apps@.subrange(0, i + 1).last() == apps@[i as int]);
                }
                if app_matches_tags(&apps[i], f) {
                    out.push(apps[i].clone());
                }
                i = i + 1;
            }
            proof {
                assert(apps@.subrange(0, apps@.len() as int) =~= apps@);
            }
            out
        },
    }
}

/// Releases an app: freezes the current draft as a new latest version.
///
/// Fails with `AppNotExist` when the app is missing, with
/// `AppDraftNotExist` when it has no draft; otherwise every earlier
/// version of the app loses its latest flag and one new version row
/// (numbers parsed from `version`) plus its content row are appended.
/// `version_id` and `spec_id` come from the identity generator.
pub fn release_app(
    dao: &mut AppDao,
    tenant_id: u64,
    workspace_id: u64,
    app_id: u64,
    version: String,
    description: Option<String>,
    version_id: u64,
    spec_id: u64,
) -> (r: Result<(), Code>)
    ensures
        ({
            let had_app = first_where(
                old(dao).apps(),
                |a: App| app_key_matches(a, tenant_id, workspace_id, app_id),
            ) < old(dao).apps().len();
            let di = first_where(
                old(dao).drafts(),
                |d: AppDraft| draft_key_matches(d, tenant_id, workspace_id, app_id),
            );
            let had_draft = di < old(dao).drafts().len();
            match r {
                Ok(()) => {
                    let vs = final(dao).versions();
                    let release = vs.last();
                    &&& had_app
                    &&& had_draft
                    &&& vs.len() == old(dao).versions().len() + 1
                    &&& vs.drop_last() == versions_cancelled(
                        old(dao).versions(),
                        tenant_id,
                        workspace_id,
                        app_id,
                    )
                    &&& release.id == version_id
                    &&& release.tenant_id == tenant_id
                    &&& release.workspace_id == workspace_id
                    &&& release.app_id == app_id
                    &&& release.version == version
                    &&& release.major == ver_major(version@)
                    &&& release.minor == ver_minor(version@)
                    &&& release.patch == ver_patch(version@)
                    &&& opt_text_view(release.pre_release) == ver_pre(version@)
                    &&& release.description == description
                    &&& release.is_latest
                    &&& final(dao).version_specs() == old(dao).version_specs().push(
                        AppVersionSpec {
                            id: spec_id,
                            tenant_id,
                            workspace_id,
                            app_id,
                            app_version_id: version_id,
                            spec_text: old(dao).drafts()[di].spec_text,
                        },
                    )
                    &&& final(dao).apps() == old(dao).apps()
                    &&& final(dao).app_tags() == old(dao).app_tags()
                    &&& final(dao).drafts() == old(dao).drafts()
                },
                Err(e) => {
                    &&& (e == Code::AppNotExist <==> !had_app)
                    &&& (e == Code::AppDraftNotExist <==> had_app && !had_draft)
                    &&& (e == Code::AppNotExist || e == Code::AppDraftNotExist)
                    &&& final(dao).apps() == old(dao).apps()
                    &&& final(dao).app_tags() == old(dao).app_tags()
                    &&& final(dao).drafts() == old(dao).drafts()
                    &&& final(dao).versions() == old(dao).versions()
                    &&& final(dao).version_specs() == old(dao).version_specs()
                },
            }
        }),
{
    let existing = dao.get_by_id(tenant_id, workspace_id, app_id);
    if existing.is_none() {
        return Err(Code::AppNotExist);
    }
    let draft = match dao.get_draft(tenant_id, workspace_id, app_id) {
        None => {
            return Err(Code::AppDraftNotExist);
        },
        Some(d) => d,
    };

    dao.cancel_latest(tenant_id, workspace_id, app_id);

    let (major, minor, patch, pre_release) = parse_version(version.as_str());
    let release = AppVersion {
        id: version_id,
        tenant_id,
        workspace_id,
        app_id,
        version,
        major,
        minor,
        patch,
        pre_release,
        description,
        is_latest: true,
    };
    dao.insert_version(release);

    let content = AppVersionSpec {
        id: spec_id,
        tenant_id,
        workspace_id,
        app_id,
        app_version_id: version_id,
        spec_text: draft.spec_text,
    };
    dao.insert_version_spec(content);
    Ok(())
}

/// Clones an app: a fresh app row with the original's folder and type but
/// a new name and description, plus a copy of the original's draft when
/// it has one.  `new_app_id` and `new_draft_id` come from the identity
/// generator.
pub fn clone_app(
    dao: &mut AppDao,
    tenant_id: u64,
    workspace_id: u64,
    id: u64,
    name: String,
    description: Option<String>,
    new_app_id: u64,
    new_draft_id: u64,
) -> (r: Result<(), Code>)
    ensures
        ({
            let fi = first_where(
                old(dao).apps(),
                |a: App| app_key_matches(a, tenant_id, workspace_id, id),
            );
            let had_app = fi < old(dao).apps().len();
            let di = first_where(
                old(dao).drafts(),
                |d: AppDraft| draft_key_matches(d, tenant_id, workspace_id, id),
            );
            let had_draft = di < old(dao).drafts().len();
            match r {
                Ok(()) => {
                    &&& had_app
                    &&& final(dao).apps() == old(dao).apps().push(
                        App {
                            id: new_app_id,
                            tenant_id,
                            workspace_id,
                            folder_id: old(dao).apps()[fi].folder_id,
                            app_type: old(dao).apps()[fi].app_type,
                            name,
                            description,
                            tag_ids_str: None,
                        },
                    )
                    &&& had_draft ==> final(dao).drafts() == draft_upsert(
                        old(dao).drafts(),
                        AppDraft {
                            id: new_draft_id,
                            tenant_id,
                            workspace_id,
                            app_id: new_app_id,
                            spec_text: old(dao).drafts()[di].spec_text,
                        },
                    )
                    &&& !had_draft ==> final(dao).drafts() == old(dao).drafts()
                    &&& final(dao).app_tags() == old(dao).app_tags()
                    &&& final(dao).versions() == old(dao).versions()
                    &&& final(dao).version_specs() == old(dao).version_specs()
                },
                Err(e) => {
                    &&& e == Code::AppNotExist
                    &&& !had_app
                    &&& final(dao).apps() == old(dao).apps()
                    &&& final(dao).app_tags() == old(dao).app_tags()
                    &&& final(dao).drafts() == old(dao).drafts()
                    &&& final(dao).versions() == old(dao).versions()
                    &&& final(dao).version_specs() == old(dao).version_specs()
                },
            }
        }),
{
    let original = match dao.get_by_id(tenant_id, workspace_id, id) {
        None => {
            return Err(Code::AppNotExist);
        },
        Some(a) => a,
    };
    let draft = dao.get_draft(tenant_id, workspace_id, id);

    let copy = App {
        id: new_app_id,
        tenant_id,
        workspace_id,
        folder_id: original.folder_id,
        app_type: original.app_type,
        name,
        description,
        tag_ids_str: None,
    };
    dao.insert(copy);

    match draft {
        Some(d) => {
            let nd = AppDraft {
                id: new_draft_id,
                tenant_id,
                workspace_id,
                app_id: new_app_id,
                spec_text: d.spec_text,
            };
            dao.insert_or_update_draft(nd);
        },
        None => {},
    }
    Ok(())
}


/// Creates an app inside an existing folder.
///
/// Fails with `AppParentFolderNotExist` when the folder is missing;
/// otherwise appends the row.  `id` comes from the identity generator.
pub fn create_app(
    dao: &mut AppDao,
    folders: &FolderDao,
    tenant_id: u64,
    workspace_id: u64,
    folder_id: u64,
    app_type: i32,
    name: String,
    description: Option<String>,
    id: u64,
) -> (r: Result<(), Code>)
    ensures
        final(dao).app_tags() == old(dao).app_tags(),
        final(dao).drafts() == old(dao).drafts(),
        final(dao).versions() == old(dao).versions(),
        final(dao).version_specs() == old(dao).version_specs(),
        match r {
            Ok(()) => has_row(folders@, tenant_id, workspace_id, folder_id) && final(dao).apps()
                == old(dao).apps().push(
                App {
                    id,
                    tenant_id,
                    workspace_id,
                    folder_id,
                    app_type,
                    name,
                    description,
                    tag_ids_str: None,
                },
            ),
            Err(e) => e == Code::AppParentFolderNotExist && !has_row(
                folders@,
                tenant_id,
                workspace_id,
                folder_id,
            ) && final(dao).apps() == old(dao).apps(),
        },
{
    if folders.get_by_id(tenant_id, workspace_id, folder_id).is_none() {
        return Err(Code::AppParentFolderNotExist);
    }
    dao.insert(
        App {
            id,
            tenant_id,
            workspace_id,
            folder_id,
            app_type,
            name,
            description,
            tag_ids_str: None,
        },
    );
    Ok(())
}

/// Renames an existing app (name and description only).
pub fn update_app(
    dao: &mut AppDao,
    tenant_id: u64,
    workspace_id: u64,
    id: u64,
    name: String,
    description: Option<String>,
) -> (r: Result<(), Code>)
    ensures
        final(dao).app_tags() == old(dao).app_tags(),
        final(dao).drafts() == old(dao).drafts(),
        final(dao).versions() == old(dao).versions(),
        final(dao).version_specs() == old(dao).version_specs(),
        ({
            let had = first_where(
                old(dao).apps(),
                |a: App| app_key_matches(a, tenant_id, workspace_id, id),
            ) < old(dao).apps().len();
            match r {
                Ok(()) => {
                    &&& had
                    &&& final(dao).apps().len() == old(dao).apps().len()
                    &&& forall|i: int|
                        0 <= i < old(dao).apps().len() ==> #[trigger] final(dao).apps()[i] == (
                        if app_key_matches(old(dao).apps()[i], tenant_id, workspace_id, id) {
                            App { name, description, ..old(dao).apps()[i] }
                        } else {
                            old(dao).apps()[i]
                        })
                },
                Err(e) => e == Code::AppNotExist && !had && final(dao).apps() == old(dao).apps(),
            }
        }),
{
    if dao.get_by_id(tenant_id, workspace_id, id).is_none() {
        return Err(Code::AppNotExist);
    }
    let probe = App {
        id,
        tenant_id,
        workspace_id,
        folder_id: 0,
        app_type: 0,
        name,
        description,
        tag_ids_str: None,
    };
    dao.update(&probe);
    Ok(())
}

/// Deletes an app with everything that hangs off it: its tag
/// assignments, its draft, its released versions and their contents.
pub fn delete_app(dao: &mut AppDao, tenant_id: u64, workspace_id: u64, id: u64) -> (r: Result<
    (),
    Code,
>)
    ensures
        ({
            let had = first_where(
                old(dao).apps(),
                |a: App| app_key_matches(a, tenant_id, workspace_id, id),
            ) < old(dao).apps().len();
            match r {
                Ok(()) => {
                    &&& had
                    &&& final(dao).apps() == old(dao).apps().filter(
                        |a: App| !app_key_matches(a, tenant_id, workspace_id, id),
                    )
                    &&& final(dao).drafts() == old(dao).drafts().filter(
                        |d: AppDraft| !draft_key_matches(d, tenant_id, workspace_id, id),
                    )
                    &&& final(dao).versions() == old(dao).versions().filter(
                        |v: AppVersion|
                            !(v.tenant_id == tenant_id && v.workspace_id == workspace_id
                                && v.app_id == id),
                    )
                    &&& final(dao).version_specs() == old(dao).version_specs().filter(
                        |c: AppVersionSpec|
                            !(c.tenant_id == tenant_id && c.workspace_id == workspace_id
                                && c.app_id == id),
                    )
                    &&& final(dao).app_tags() == old(dao).app_tags().filter(
                        |g: AppTag|
                            !(g.tenant_id == tenant_id && g.workspace_id == workspace_id
                                && g.app_id == id),
                    )
                },
                Err(e) => {
                    &&& e == Code::AppNotExist
                    &&& !had
                    &&& final(dao).apps() == old(dao).apps()
                    &&& final(dao).app_tags() == old(dao).app_tags()
                    &&& final(dao).drafts() == old(dao).drafts()
                    &&& final(dao).versions() == old(dao).versions()
                    &&& final(dao).version_specs() == old(dao).version_specs()
                },
            }
        }),
{
    if dao.get_by_id(tenant_id, workspace_id, id).is_none() {
        return Err(Code::AppNotExist);
    }
    dao.delete(tenant_id, workspace_id, id);
    dao.delete_draft(tenant_id, workspace_id, id);
    dao.delete_versions(tenant_id, workspace_id, id);
    dao.delete_version_spec(tenant_id, workspace_id, id);
    dao.delete_app_tag(tenant_id, workspace_id, id);
    Ok(())
}

/// Replaces an existing app's draft.  `draft_id` comes from the identity
/// generator and is used only when the app had no draft yet.
pub fn update_app_draft(
    dao: &mut AppDao,
    tenant_id: u64,
    workspace_id: u64,
    id: u64,
    spec_text: String,
    draft_id: u64,
) -> (r: Result<(), Code>)
    ensures
        final(dao).apps() == old(dao).apps(),
        final(dao).app_tags() == old(dao).app_tags(),
        final(dao).versions() == old(dao).versions(),
        final(dao).version_specs() == old(dao).version_specs(),
        ({
            let had = first_where(
                old(dao).apps(),
                |a: App| app_key_matches(a, tenant_id, workspace_id, id),
            ) < old(dao).apps().len();
            match r {
                Ok(()) => had && final(dao).drafts() == draft_upsert(
                    old(dao).drafts(),
                    AppDraft {
                        id: draft_id,
                        tenant_id,
                        workspace_id,
                        app_id: id,
                        spec_text,
                    },
                ),
                Err(e) => e == Code::AppNotExist && !had && final(dao).drafts() == old(
                    dao,
                ).drafts(),
            }
        }),
{
    if dao.get_by_id(tenant_id, workspace_id, id).is_none() {
        return Err(Code::AppNotExist);
    }
    dao.insert_or_update_draft(
        AppDraft { id: draft_id, tenant_id, workspace_id, app_id: id, spec_text },
    );
    Ok(())
}

/// Replaces an existing app's tag assignments with the given list.
pub fn update_app_tags(
    dao: &mut AppDao,
    tenant_id: u64,
    workspace_id: u64,
    id: u64,
    tag_ids: &Vec<u64>,
) -> (r: Result<(), Code>)
    ensures
        final(dao).apps() == old(dao).apps(),
        final(dao).drafts() == old(dao).drafts(),
        final(dao).versions() == old(dao).versions(),
        final(dao).version_specs() == old(dao).version_specs(),
        ({
            let had = first_where(
                old(dao).apps(),
                |a: App| app_key_matches(a, tenant_id, workspace_id, id),
            ) < old(dao).apps().len();
            let cleared = old(dao).app_tags().filter(
                |g: AppTag|
                    !(g.tenant_id == tenant_id && g.workspace_id == workspace_id && g.app_id
                        == id),
            );
            match r {
                Ok(()) => had && final(dao).app_tags() == cleared + Seq::new(
                    tag_ids@.len(),
                    |i: int|
                        AppTag {
                            id: 0,
                            tenant_id,
                            workspace_id,
                            app_id: id,
                            tag_id: tag_ids@[i],
                        },
                ),
                Err(e) => e == Code::AppNotExist && !had && final(dao).app_tags() == old(
                    dao,
                ).app_tags(),
            }
        }),
{
    if dao.get_by_id(tenant_id, workspace_id, id).is_none() {
        return Err(Code::AppNotExist);
    }
    dao.delete_app_tag(tenant_id, workspace_id, id);
    dao.batch_insert_app_tags(tenant_id, workspace_id, id, tag_ids);
    Ok(())
}

} // verus!
