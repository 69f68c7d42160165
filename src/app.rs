use vstd::prelude::*;

use crate::config::{loaded, record_of, Config, StoreRecord};
use crate::package::{
    applied, created, edited, has_id, in_page, lemma_edit_then_reload, lemma_edits_both_kept, position_of, views, Edit, Package, PackageId, PackageView, Source};
use crate::page::{Command, Message as PageMessage, PageState, PageView};

verus! {

/// Where the project lives.
pub open spec fn repository() -> Seq<char> {
    "https://github.com/edfloreshz/blueprint"@
}

/// The fixed categories that partition the package universe.
#[derive(Debug, Clone, Copy, PartialEq, Eq, Structural)]
pub enum Page {
    Shells,
    Languages,
    Editors,
    Libraries,
    Tools,
}

impl Page {
    /// The display label of a category.
    pub open spec fn label(self) -> Seq<char> {
        match self {
            Page::Shells => "Shells"@,
            Page::Languages => "Languages"@,
            Page::Editors => "Editors"@,
            Page::Libraries => "Libraries"@,
            Page::Tools => "Tools"@,
        }
    }

    /// The display label of this category.
    pub fn to_string(&self) -> (r: String)
        ensures
            r@ == self.label(),
    {
        match self {
            Page::Shells => String::from_str("Shells"),
            Page::Languages => String::from_str("Languages"),
            Page::Editors => String::from_str("Editors"),
            Page::Libraries => String::from_str("Libraries"),
            Page::Tools => String::from_str("Tools"),
        }
    }
}

impl Default for Page {
    fn default() -> (r: Page)
        ensures
            r == Page::Shells,
    {
        Page::Shells
    }
}

/// The page shown in the context drawer.
#[derive(Debug, Clone, Copy, PartialEq, Eq, Structural)]
pub enum ContextPage {
    About,
    NewPackage,
    EditPackage,
}

impl Default for ContextPage {
    fn default() -> (r: ContextPage)
        ensures
            r == ContextPage::About,
    {
        ContextPage::About
    }
}

impl ContextPage {
    /// The title of a context page.
    pub open spec fn title_spec(self) -> Seq<char> {
        match self {
            ContextPage::About => "About"@,
            ContextPage::NewPackage => "New package"@,
            ContextPage::EditPackage => "Edit package"@,
        }
    }

    /// The title shown above the context drawer for this page.
    pub fn title(&self) -> (r: String)
        ensures
            r@ == self.title_spec(),
    {
        match self {
            ContextPage::About => String::from_str("About"),
            ContextPage::NewPackage => String::from_str("New package"),
            ContextPage::EditPackage => String::from_str("Edit package"),
        }
    }
}

/// The entries of the application menu.
#[derive(Debug, Clone, Copy, PartialEq, Eq, Structural)]
pub enum MenuAction {
    NewPackage,
    About,
}

impl MenuAction {
    /// The event that choosing this entry emits.
    pub fn message(&self) -> (r: Message)
        ensures
            *self == MenuAction::About ==> r == Message::ToggleContextPage(ContextPage::About),
            *self == MenuAction::NewPackage ==> r == Message::ToggleContextPage(ContextPage::NewPackage),
    {
        match self {
            MenuAction::About => Message::ToggleContextPage(ContextPage::About),
            MenuAction::NewPackage => Message::ToggleContextPage(ContextPage::NewPackage),
        }
    }
}

/// Why an edit was not committed.
#[derive(Debug, Clone, Copy, PartialEq, Eq, Structural)]
pub enum EditError {
    /// No package is open for editing.
    NoSelection,
    /// The open identity is held by no package of the store.
    LookupMiss,
}

/// The edit session: the identity of the package open for editing, if any.
#[derive(Debug, Clone, Copy, PartialEq, Eq, Structural)]
pub struct EditSession {
    pub package: Option<PackageId>,
}

impl EditSession {
    /// A closed session.
    pub fn new() -> (r: EditSession)
        ensures
            r.package is None,
    {
        EditSession { package: None }
    }

    /// Opens the package of identity `id` for editing.
    pub fn open(&mut self, id: PackageId)
        ensures
            final(self).package == Some(id),
    {
        self.package = Some(id);
    }

    /// Closes the session.
    pub fn close(&mut self)
        ensures
            final(self).package is None,
    {
        self.package = None;
    }

    /// The identity open for editing.
    pub fn selected(&self) -> (r: Option<PackageId>)
        ensures
            r == self.package,
    {
        self.package
    }

    /// The store's collection with the edit `e` applied to the open package,
    /// looked up by identity in the current store.
    pub fn edited_packages(&self, config: &Config, e: Edit) -> (r: Result<Vec<Package>, EditError>)
        requires
            config.wf(),
        ensures
            match self.package {
                None => r == Err::<Vec<Package>, EditError>(EditError::NoSelection),
                Some(id) => if has_id(config@, id) {
                    r is Ok && views(r->Ok_0@) == edited(config@, id, e)
                } else {
                    r == Err::<Vec<Package>, EditError>(EditError::LookupMiss)
                },
            },
    {
        match self.package {
            None => Err(EditError::NoSelection),
            Some(id) => match config.edited_packages(id, e) {
                None => Err(EditError::LookupMiss),
                Some(v) => Ok(v),
            },
        }
    }

    /// Applies the edit `e` to the open package and commits the collection to
    /// the store; on an error the store is left as it was.
    pub fn commit(&self, config: &mut Config, e: Edit) -> (r: Result<(), EditError>)
        requires
            old(config).wf(),
        ensures
            final(config).wf(),
            match self.package {
                None => r == Err::<(), EditError>(EditError::NoSelection),
                Some(id) => if has_id(old(config)@, id) {
                    r is Ok && final(config)@ == edited(old(config)@, id, e)
                } else {
                    r == Err::<(), EditError>(EditError::LookupMiss)
                },
            },
            r is Err ==> final(config)@ == old(config)@,
    {
        match self.edited_packages(config, e) {
            Err(err) => Err(err),
            Ok(v) => {
                let outcome = config.set_packages(v);
                proof {
                    assert(outcome is Ok);
                }
                Ok(())
            },
        }
    }
}

/// Events handled by the application.
#[derive(Debug)]
pub enum Message {
    OpenRepositoryUrl,
    ToggleContextPage(ContextPage),
    ContextDrawerClosed,
    /// The persisted store was changed from outside: replace the store with it.
    UpdateConfig(StoreRecord),
    /// The record of the last `Save` was written: install the collection it holds.
    Saved,
    /// The record of the last `Save` could not be written: drop the collection it holds.
    SaveFailed,
    NewPackage(String, Source, Page),
    EditPackage(PackageId),
    SelectPage(Page),
    Page(Page, PageMessage),
    PackageTitle(String),
    PackageDescription(String),
    TogglePackage(bool),
}

/// Work that the application hands outward.
#[derive(Debug)]
pub enum Action {
    OpenUrl(String),
    /// Persist this record, then report `Saved` or `SaveFailed`.
    Save(StoreRecord),
    SetContextTitle(String),
    SetWindowTitle(String),
}

/// The application state: the store, one view per category, the context
/// drawer and the edit session.
#[derive(Debug)]
pub struct AppModel {
    pub config: Config,
    pub session: EditSession,
    pub context_page: ContextPage,
    pub show_context: bool,
    pub active: Page,
    /// The committed collection waiting for its write to be confirmed.
    pub pending: Option<Config>,
    pub shells: PageView,
    pub languages: PageView,
    pub editors: PageView,
    pub libraries: PageView,
    pub tools: PageView,
}

/// The window title shown while category `p` is active.
pub open spec fn window_title(p: Page) -> Seq<char> {
    "Blueprint — "@ + p.label()
}

impl AppModel {
    /// The store's packages.
    pub open spec fn store(&self) -> Seq<PackageView> {
        self.config@
    }

    /// The collection waiting for its write to be confirmed, if any.
    pub open spec fn pending_store(&self) -> Option<Seq<PackageView>> {
        match self.pending {
            Some(c) => Some(c@),
            None => None,
        }
    }

    /// The store and a waiting collection hold no two packages with the same
    /// identity, and each view shows its own category of the store.
    pub open spec fn wf(&self) -> bool {
        &&& self.config.wf()
        &&& self.pending matches Some(c) ==> c.wf()
        &&& self.views_fresh()
        &&& self.shells.state().page == Page::Shells && self.shells.state().title == Page::Shells.label()
        &&& self.languages.state().page == Page::Languages && self.languages.state().title == Page::Languages.label()
        &&& self.editors.state().page == Page::Editors && self.editors.state().title == Page::Editors.label()
        &&& self.libraries.state().page == Page::Libraries && self.libraries.state().title == Page::Libraries.label()
        &&& self.tools.state().page == Page::Tools && self.tools.state().title == Page::Tools.label()
    }

    /// The view of category `p`.
    pub open spec fn view_of(&self, p: Page) -> PageState {
        match p {
            Page::Shells => self.shells.state(),
            Page::Languages => self.languages.state(),
            Page::Editors => self.editors.state(),
            Page::Libraries => self.libraries.state(),
            Page::Tools => self.tools.state(),
        }
    }

    /// Every view shows its category of the store.
    pub open spec fn views_fresh(&self) -> bool {
        forall|p: Page| #[trigger] self.view_of(p) == (PageState {
            page: p,
            title: p.label(),
            packages: in_page(self.store(), p),
        })
    }

    /// The same store, waiting collection, views, session and drawer.
    pub open spec fn same_state(&self, other: &AppModel) -> bool {
        &&& self.same_but_pending(other)
        &&& self.pending_store() == other.pending_store()
    }

    /// The same store, views, session and drawer.
    pub open spec fn same_but_pending(&self, other: &AppModel) -> bool {
        &&& self.store() == other.store()
        &&& self.session == other.session
        &&& self.context_page == other.context_page
        &&& self.show_context == other.show_context
        &&& self.active == other.active
        &&& forall|p: Page| #[trigger] self.view_of(p) == other.view_of(p)
    }

    /// The application over the store that `record` describes, with the first
    /// category active and the drawer closed.
    pub fn new(record: &StoreRecord) -> (r: AppModel)
        ensures
            r.wf(),
            r.store() == loaded(record@),
            r.views_fresh(),
            r.session.package is None,
            r.context_page == ContextPage::About,
            !r.show_context,
            r.active == Page::Shells,
            r.pending is None,
    {
        let config = Config::from_record(record);
        let r = AppModel {
            shells: PageView::new(Page::Shells, &config),
            languages: PageView::new(Page::Languages, &config),
            editors: PageView::new(Page::Editors, &config),
            libraries: PageView::new(Page::Libraries, &config),
            tools: PageView::new(Page::Tools, &config),
            config: config,
            session: EditSession::new(),
            context_page: ContextPage::About,
            show_context: false,
            active: Page::Shells,
            pending: None,
        };
        assert forall|p: Page| #[trigger] r.view_of(p) == (PageState {
            page: p,
            title: p.label(),
            packages: in_page(r.store(), p),
        }) by {
            match p {
                Page::Shells => {},
                Page::Languages => {},
                Page::Editors => {},
                Page::Libraries => {},
                Page::Tools => {},
            }
        }
        r
    }

    /// The same store, waiting collection, session, drawer and active category.
    pub open spec fn same_but_views(&self, other: &AppModel) -> bool {
        &&& self.store() == other.store()
        &&& self.pending_store() == other.pending_store()
        &&& self.session == other.session
        &&& self.context_page == other.context_page
        &&& self.show_context == other.show_context
        &&& self.active == other.active
    }

    /// Every view but that of category `p` is the same.
    pub open spec fn views_same_except(&self, other: &AppModel, p: Page) -> bool {
        forall|q: Page| q != p ==> #[trigger] self.view_of(q) == other.view_of(q)
    }

    /// `self` became `next` by opening the package `id` for editing, with `r` handed outward.
    pub open spec fn opened_edit(&self, next: &AppModel, id: PackageId, r: Seq<Action>) -> bool {
        &&& next.session.package == Some(id)
        &&& next.context_page == ContextPage::EditPackage
        &&& next.show_context
        &&& next.store() == self.store()
        &&& next.pending_store() == self.pending_store()
        &&& next.active == self.active
        &&& forall|q: Page| #[trigger] next.view_of(q) == self.view_of(q)
        &&& r.len() == 1
        &&& r[0] is SetContextTitle
        &&& r[0]->SetContextTitle_0@ == ContextPage::EditPackage.title_spec()
    }

    /// `self` became `next` by an edit `e` of the open package, with `r` handed
    /// outward: the edited collection waits, and its persisted form is handed
    /// out; nothing changes when no package of the store is open.
    pub open spec fn edit_saved(&self, next: &AppModel, e: Edit, r: Seq<Action>) -> bool {
        &&& next.same_but_pending(self)
        &&& match self.session.package {
            Some(id) => if has_id(self.store(), id) {
                &&& next.pending_store() == Some(edited(self.store(), id, e))
                &&& r.len() == 1
                &&& r[0] is Save
                &&& r[0]->Save_0@ == record_of(edited(self.store(), id, e))
            } else {
                r.len() == 0 && next.pending_store() == self.pending_store()
            },
            None => r.len() == 0 && next.pending_store() == self.pending_store(),
        }
    }

    /// Well-formedness carries over to a state with the same store and views.
    proof fn lemma_wf_kept(a: &AppModel, b: &AppModel)
        requires
            a.wf(),
            b.config.wf(),
            b.pending matches Some(c) ==> c.wf(),
            b.store() == a.store(),
            forall|q: Page| #[trigger] b.view_of(q) == a.view_of(q),
        ensures
            b.wf(),
    {
        assert(b.view_of(Page::Shells) == a.view_of(Page::Shells));
        assert(b.view_of(Page::Languages) == a.view_of(Page::Languages));
        assert(b.view_of(Page::Editors) == a.view_of(Page::Editors));
        assert(b.view_of(Page::Libraries) == a.view_of(Page::Libraries));
        assert(b.view_of(Page::Tools) == a.view_of(Page::Tools));
        assert forall|p: Page| #[trigger] b.view_of(p) == (PageState {
            page: p,
            title: p.label(),
            packages: in_page(b.store(), p),
        }) by {
            assert(a.view_of(p) == b.view_of(p));
        }
    }

    fn reload_page(&mut self, p: Page)
        ensures
            final(self).same_but_views(old(self)),
            final(self).views_same_except(old(self), p),
            final(self).view_of(p) == old(self).view_of(p).reloaded(old(self).store()),
            old(self).wf() ==> final(self).wf(),
    {
        match p {
            Page::Shells => self.shells.reload(&self.config),
            Page::Languages => self.languages.reload(&self.config),
            Page::Editors => self.editors.reload(&self.config),
            Page::Libraries => self.libraries.reload(&self.config),
            Page::Tools => self.tools.reload(&self.config),
        }
        proof {
            if old(self).wf() {
                assert(old(self).view_of(p) == old(self).view_of(p).reloaded(old(self).store()));
                assert forall|q: Page| #[trigger] self.view_of(q) == old(self).view_of(q) by {
                    if q != p {
                        assert(self.views_same_except(old(self), p));
                    }
                }
                Self::lemma_wf_kept(old(self), self);
            }
        }
    }

    fn open_edit(&mut self, id: PackageId) -> (r: Vec<Action>)
        ensures
            old(self).opened_edit(final(self), id, r@),
            old(self).wf() ==> final(self).wf(),
    {
        self.session.open(id);
        self.context_page = ContextPage::EditPackage;
        self.show_context = true;
        let mut r: Vec<Action> = Vec::new();
        r.push(Action::SetContextTitle(ContextPage::EditPackage.title()));
        proof {
            if old(self).wf() {
                Self::lemma_wf_kept(old(self), self);
            }
        }
        r
    }

    fn save_edit(&mut self, e: Edit) -> (r: Vec<Action>)
        requires
            old(self).wf(),
        ensures
            final(self).wf(),
            old(self).edit_saved(final(self), e, r@),
    {
        let mut next = self.config.clone();
        let mut r: Vec<Action> = Vec::new();
        if self.session.commit(&mut next, e).is_ok() {
            r.push(Action::Save(next.to_record()));
            self.pending = Some(next);
        }
        proof {
            Self::lemma_wf_kept(old(self), self);
        }
        r
    }

    /// Makes every view show its category of the store.
    fn reload_all(&mut self)
        ensures
            final(self).views_fresh(),
            final(self).store() == old(self).store(),
            final(self).pending_store() == old(self).pending_store(),
            final(self).session == old(self).session,
            final(self).context_page == old(self).context_page,
            final(self).show_context == old(self).show_context,
            final(self).active == old(self).active,
            old(self).config.wf() && (old(self).pending matches Some(c) ==> c.wf()) ==> final(self).wf(),
    {
        self.shells = PageView::new(Page::Shells, &self.config);
        self.languages = PageView::new(Page::Languages, &self.config);
        self.editors = PageView::new(Page::Editors, &self.config);
        self.libraries = PageView::new(Page::Libraries, &self.config);
        self.tools = PageView::new(Page::Tools, &self.config);
        assert forall|p: Page| #[trigger] self.view_of(p) == (PageState {
            page: p,
            title: p.label(),
            packages: in_page(self.store(), p),
        }) by {
            match p {
                Page::Shells => {},
                Page::Languages => {},
                Page::Editors => {},
                Page::Libraries => {},
                Page::Tools => {},
            }
        }
    }

    /// Handles one event. A change to the package collection is not applied at
    /// once: the committed collection waits while its record is handed outward
    /// to persist, and is installed on `Saved`, so that a failed write changes
    /// nothing.
    pub fn update(&mut self, message: Message) -> (r: Vec<Action>)
        requires
            old(self).wf(),
        ensures
            final(self).wf(),
            match message {
                Message::OpenRepositoryUrl => {
                    &&& final(self).same_state(old(self))
                    &&& r@.len() == 1
                    &&& r@[0] is OpenUrl
                    &&& r@[0]->OpenUrl_0@ == repository()
                },
                Message::ToggleContextPage(cp) => {
                    &&& final(self).store() == old(self).store()
                    &&& final(self).active == old(self).active
                    &&& forall|q: Page| #[trigger] final(self).view_of(q) == old(self).view_of(q)
                    &&& final(self).context_page == cp
                    &&& if old(self).context_page == cp {
                        final(self).show_context == !old(self).show_context && final(self).session.package is None
                    } else {
                        final(self).show_context && final(self).session == old(self).session
                    }
                    &&& r@.len() == 1
                    &&& r@[0] is SetContextTitle
                    &&& r@[0]->SetContextTitle_0@ == cp.title_spec()
                },
                Message::ContextDrawerClosed => {
                    &&& !final(self).show_context
                    &&& final(self).session.package is None
                    &&& final(self).store() == old(self).store()
                    &&& final(self).context_page == old(self).context_page
                    &&& final(self).active == old(self).active
                    &&& forall|q: Page| #[trigger] final(self).view_of(q) == old(self).view_of(q)
                    &&& r@.len() == 0
                },
                Message::UpdateConfig(record) => {
                    &&& final(self).store() == loaded(record@)
                    &&& final(self).views_fresh()
                    &&& final(self).session == old(self).session
                    &&& final(self).context_page == old(self).context_page
                    &&& final(self).show_context == old(self).show_context
                    &&& final(self).active == old(self).active
                    &&& final(self).pending_store() == old(self).pending_store()
                    &&& r@.len() == 0
                },
                Message::Saved => {
                    &&& final(self).store() == (match old(self).pending_store() {
                        Some(s) => s,
                        None => old(self).store(),
                    })
                    &&& final(self).pending is None
                    &&& final(self).views_fresh()
                    &&& final(self).session == old(self).session
                    &&& final(self).context_page == old(self).context_page
                    &&& final(self).show_context == old(self).show_context
                    &&& final(self).active == old(self).active
                    &&& r@.len() == 0
                },
                Message::SaveFailed => {
                    &&& final(self).same_but_pending(old(self))
                    &&& final(self).pending is None
                    &&& r@.len() == 0
                },
                Message::NewPackage(name, source, page) => {
                    &&& final(self).same_but_pending(old(self))
                    &&& r@.len() == 1
                    &&& r@[0] is Save
                    &&& exists|id: PackageId| {
                        &&& !has_id(old(self).store(), id)
                        &&& final(self).pending_store() == Some(old(self).store().push(created(id, name@, source, page)))
                        &&& r@[0]->Save_0@ == record_of(old(self).store().push(created(id, name@, source, page)))
                    }
                },
                Message::EditPackage(id) => old(self).opened_edit(final(self), id, r@),
                Message::SelectPage(p) => {
                    &&& final(self).active == p
                    &&& final(self).store() == old(self).store()
                    &&& final(self).pending_store() == old(self).pending_store()
                    &&& final(self).session == old(self).session
                    &&& final(self).context_page == old(self).context_page
                    &&& final(self).show_context == old(self).show_context
                    &&& final(self).views_same_except(old(self), p)
                    &&& final(self).view_of(p) == old(self).view_of(p).reloaded(old(self).store())
                    &&& r@.len() == 1
                    &&& r@[0] is SetWindowTitle
                    &&& r@[0]->SetWindowTitle_0@ == window_title(p)
                },
                Message::Page(p, PageMessage::ReloadPackages) => {
                    &&& final(self).same_but_views(old(self))
                    &&& final(self).views_same_except(old(self), p)
                    &&& final(self).view_of(p) == old(self).view_of(p).reloaded(old(self).store())
                    &&& r@.len() == 0
                },
                Message::Page(p, PageMessage::EditPackage(id)) => old(self).opened_edit(final(self), id, r@),
                Message::PackageTitle(name) => old(self).edit_saved(final(self), Edit::Name(name), r@),
                Message::PackageDescription(description) => old(self).edit_saved(
                    final(self),
                    Edit::Description(description),
                    r@,
                ),
                Message::TogglePackage(enabled) => old(self).edit_saved(final(self), Edit::Enabled(enabled), r@),
            },
    {
        match message {
            Message::OpenRepositoryUrl => {
                let mut r: Vec<Action> = Vec::new();
                r.push(Action::OpenUrl(String::from_str("https://github.com/edfloreshz/blueprint")));
                r
            },
            Message::ToggleContextPage(cp) => {
                if self.context_page == cp {
                    self.show_context = !self.show_context;
                    self.session.close();
                } else {
                    self.context_page = cp;
                    self.show_context = true;
                }
                let mut r: Vec<Action> = Vec::new();
                r.push(Action::SetContextTitle(cp.title()));
                proof {
                    Self::lemma_wf_kept(old(self), self);
                }
                r
            },
            Message::ContextDrawerClosed => {
                self.show_context = false;
                self.session.close();
                proof {
                    Self::lemma_wf_kept(old(self), self);
                }
                Vec::new()
            },
            Message::UpdateConfig(record) => {
                self.config = Config::from_record(&record);
                self.reload_all();
                Vec::new()
            },
            Message::Saved => {
                if let Some(next) = self.pending.take() {
                    self.config = next;
                }
                self.reload_all();
                Vec::new()
            },
            Message::SaveFailed => {
                self.pending = None;
                proof {
                    Self::lemma_wf_kept(old(self), self);
                }
                Vec::new()
            },
            Message::NewPackage(name, source, page) => {
                let mut next = self.config.clone();
                next.create(name.as_str(), source, page);
                let mut r: Vec<Action> = Vec::new();
                r.push(Action::Save(next.to_record()));
                self.pending = Some(next);
                proof {
                    Self::lemma_wf_kept(old(self), self);
                }
                r
            },
            Message::EditPackage(id) => self.open_edit(id),
            Message::SelectPage(p) => {
                self.reload_page(p);
                let ghost reloaded = *self;
                self.active = p;
                proof {
                    Self::lemma_wf_kept(&reloaded, self);
                }
                let mut r: Vec<Action> = Vec::new();
                r.push(Action::SetWindowTitle(self.update_title()));
                r
            },
            Message::Page(p, m) => {
                let commands = match p {
                    Page::Shells => self.shells.update(m, &self.config),
                    Page::Languages => self.languages.update(m, &self.config),
                    Page::Editors => self.editors.update(m, &self.config),
                    Page::Libraries => self.libraries.update(m, &self.config),
                    Page::Tools => self.tools.update(m, &self.config),
                };
                proof {
                    assert(old(self).view_of(p) == old(self).view_of(p).reloaded(old(self).store()));
                    assert forall|q: Page| #[trigger] self.view_of(q) == old(self).view_of(q) by {
                        match q {
                            Page::Shells => {},
                            Page::Languages => {},
                            Page::Editors => {},
                            Page::Libraries => {},
                            Page::Tools => {},
                        }
                    }
                    Self::lemma_wf_kept(old(self), self);
                }
                if commands.len() > 0 {
                    match commands[0] {
                        Command::EditPackage(id) => self.open_edit(id),
                    }
                } else {
                    Vec::new()
                }
            },
            Message::PackageTitle(name) => self.save_edit(Edit::Name(name)),
            Message::PackageDescription(description) => self.save_edit(Edit::Description(description)),
            Message::TogglePackage(enabled) => self.save_edit(Edit::Enabled(enabled)),
        }
    }

    /// Once an edit of the package at position `k` is installed, the view of
    /// that package's category shows it edited, and the view of every other
    /// category is what it was.
    pub proof fn lemma_commit_then_views(a: &AppModel, b: &AppModel, k: int, e: Edit, c: Page)
        requires
            a.wf(),
            b.wf(),
            0 <= k < a.store().len(),
            b.store() == edited(a.store(), a.store()[k].id, e),
        ensures
            b.view_of(a.store()[k].page).packages.contains(applied(a.store()[k], e)),
            c != a.store()[k].page ==> b.view_of(c) == a.view_of(c),
    {
        lemma_edit_then_reload(a.store(), k, e, c);
        assert(b.view_of(c) == (PageState { page: c, title: c.label(), packages: in_page(b.store(), c) }));
        assert(a.view_of(c) == (PageState { page: c, title: c.label(), packages: in_page(a.store(), c) }));
        let pk = a.store()[k].page;
        assert(b.view_of(pk) == (PageState { page: pk, title: pk.label(), packages: in_page(b.store(), pk) }));
    }

    /// Two edits of different packages, installed one after the other, are
    /// both in the store, each at its package's position, and nothing else changed.
    pub proof fn lemma_two_commits(a: &AppModel, b: &AppModel, c: &AppModel, id1: PackageId, e1: Edit, id2: PackageId, e2: Edit)
        requires
            id1 != id2,
            b.store() == edited(a.store(), id1, e1),
            c.store() == edited(b.store(), id2, e2),
        ensures
            c.store().len() == a.store().len(),
            forall|k: int| 0 <= k < a.store().len() && a.store()[k].id == id1 ==> #[trigger] c.store()[k] == applied(a.store()[k], e1),
            forall|k: int| 0 <= k < a.store().len() && a.store()[k].id == id2 ==> #[trigger] c.store()[k] == applied(a.store()[k], e2),
            forall|k: int| 0 <= k < a.store().len() && a.store()[k].id != id1 && a.store()[k].id != id2 ==> #[trigger] c.store()[k] == a.store()[k],
    {
        lemma_edits_both_kept(a.store(), id1, e1, id2, e2);
    }

    /// The title of the window while the active category is shown.
    pub fn update_title(&self) -> (r: String)
        ensures
            r@ == window_title(self.active),
    {
        let mut title = String::from_str("Blueprint — ");
        let label = self.active.to_string();
        title.append(label.as_str());
        title
    }

    /// The context page the drawer shows, if it is open.
    pub fn context_drawer(&self) -> (r: Option<ContextPage>)
        ensures
            r == (if self.show_context { Some(self.context_page) } else { None::<ContextPage> }),
    {
        if self.show_context {
            Some(self.context_page)
        } else {
            None
        }
    }

    /// The view of the active category.
    pub fn view(&self) -> (r: &PageView)
        ensures
            r.state() == self.view_of(self.active),
    {
        match self.active {
            Page::Shells => &self.shells,
            Page::Languages => &self.languages,
            Page::Editors => &self.editors,
            Page::Libraries => &self.libraries,
            Page::Tools => &self.tools,
        }
    }

    /// The package open for editing: the first of the store with the open
    /// identity, looked up afresh.
    pub fn package_view(&self) -> (r: Result<Package, EditError>)
        ensures
            match self.session.package {
                None => r == Err::<Package, EditError>(EditError::NoSelection),
                Some(id) => if has_id(self.store(), id) {
                    &&& r is Ok
                    &&& r->Ok_0@.id == id
                    &&& exists|i: int| #![trigger self.store()[i]] {
                        &&& 0 <= i < self.store().len()
                        &&& self.store()[i] == r->Ok_0@
                        &&& forall|j: int| 0 <= j < i ==> self.store()[j].id != id
                    }
                } else {
                    r == Err::<Package, EditError>(EditError::LookupMiss)
                },
            },
    {
        match self.session.package {
            None => Err(EditError::NoSelection),
            Some(id) => match position_of(self.config.packages(), id) {
                None => Err(EditError::LookupMiss),
                Some(i) => {
                    let p = self.config.packages()[i].clone();
                    proof {
                        assert(self.store()[i as int] == p@);
                    }
                    Ok(p)
                },
            },
        }
    }

    /// Read access to the store.
    pub fn config(&self) -> (r: &Config)
        ensures
            r@ == self.store(),
            self.wf() ==> r.wf(),
    {
        &self.config
    }
}

} // verus!
