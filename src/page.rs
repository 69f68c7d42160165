use vstd::prelude::*;

use crate::app::Page;
use crate::config::Config;
use crate::package::{in_page, packages_in, views, Package, PackageId, PackageView};

verus! {

/// The per-category view: a reloadable snapshot of the store's packages of one category.
#[derive(Debug)]
pub struct PageView {
    page: Page,
    title: String,
    packages: Vec<Package>,
}

/// The value of a category view.
pub struct PageState {
    pub page: Page,
    pub title: Seq<char>,
    pub packages: Seq<PackageView>,
}

impl PageState {
    /// This view after a reload from a store holding `s`.
    pub open spec fn reloaded(self, s: Seq<PackageView>) -> PageState {
        PageState { packages: in_page(s, self.page), ..self }
    }
}

/// Events handled by a category view.
#[derive(Debug, Clone, Copy, PartialEq, Eq, Structural)]
pub enum Message {
    ReloadPackages,
    EditPackage(PackageId),
}

/// Requests that a category view hands outward.
#[derive(Debug, Clone, Copy, PartialEq, Eq, Structural)]
pub enum Command {
    EditPackage(PackageId),
}


/// Reloading a view twice in a row from the same store gives what one reload gives.
pub proof fn lemma_reload_idempotent(v: PageState, s: Seq<PackageView>)
    ensures
        v.reloaded(s).reloaded(s) == v.reloaded(s),
{
}

impl PageView {
    /// The value of this view.
    pub closed spec fn state(&self) -> PageState {
        PageState { page: self.page, title: self.title@, packages: views(self.packages@) }
    }

    /// The view of category `page` over the store `config`.
    pub fn new(page: Page, config: &Config) -> (r: PageView)
        ensures
            r.state() == (PageState { page: page, title: page.label(), packages: in_page(config@, page) }),
    {
        let title = page.to_string();
        let packages = packages_in(config.packages(), page);
        PageView { page, title, packages }
    }

    /// The category of this view.
    pub fn page(&self) -> (r: Page)
        ensures
            r == self.state().page,
    {
        self.page
    }

    /// The title of this view.
    pub fn title(&self) -> (r: &String)
        ensures
            r@ == self.state().title,
    {
        &self.title
    }

    /// The cached packages, in store order.
    pub fn view(&self) -> (r: &Vec<Package>)
        ensures
            views(r@) == self.state().packages,
    {
        &self.packages
    }

    /// What a row shows of a package: its name, and its description as a
    /// caption when that is not empty.
    pub fn package_row(package: &Package) -> (r: (String, Option<String>))
        ensures
            r.0@ == package.name@,
            package.description@.len() == 0 ==> r.1 is None,
            package.description@.len() != 0 ==> r.1 is Some && r.1->Some_0@ == package.description@,
    {
        let empty = String::new();
        proof {
            if package.description@.len() == 0 {
                assert(package.description@ =~= empty@);
            }
        }
        let caption = if package.description == empty {
            None
        } else {
            Some(package.description.clone())
        };
        (package.name.clone(), caption)
    }

    /// Re-reads the store and replaces the cache with its packages of this view's category.
    pub fn reload(&mut self, config: &Config)
        ensures
            final(self).state() == old(self).state().reloaded(config@),
    {
        self.packages = packages_in(config.packages(), self.page);
    }

    /// Handles an event: a reload from `config`, or a request to edit a
    /// package, handed outward unchanged.
    pub fn update(&mut self, message: Message, config: &Config) -> (r: Vec<Command>)
        ensures
            message == Message::ReloadPackages ==> final(self).state() == old(self).state().reloaded(config@) && r@ == Seq::<Command>::empty(),
            message matches Message::EditPackage(id) ==> final(self).state() == old(self).state() && r@ == seq![Command::EditPackage(id)],
    {
        let mut commands: Vec<Command> = Vec::new();
        match message {
            Message::ReloadPackages => self.reload(config),
            Message::EditPackage(id) => commands.push(Command::EditPackage(id)),
        }
        proof {
            if let Message::EditPackage(id) = message {
                assert(commands@ =~= seq![Command::EditPackage(id)]);
            }
        }
        commands
    }
}

} // verus!
