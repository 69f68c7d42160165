use vstd::prelude::*;

use crate::app::Page;

verus! {

/// The identity of a package: a 128-bit value assigned once at creation.
#[derive(Debug, Clone, Copy, PartialEq, Eq, Structural)]
pub struct PackageId {
    pub value: u128,
}

/// A templated file written to disk when a package is installed.
#[derive(Debug, PartialEq, Eq)]
pub struct ConfigFile {
    pub content: String,
    pub extension: String,
    pub target: String,
}

impl Clone for ConfigFile {
    fn clone(&self) -> (r: Self)
        ensures
            r == *self,
    {
        ConfigFile {
            content: self.content.clone(),
            extension: self.extension.clone(),
            target: self.target.clone(),
        }
    }
}

/// The installation backend of a package and its identifying payload.
#[derive(Debug, PartialEq, Eq)]
pub enum Source {
    Apt(String),
    Dnf(String),
    Pacman(String),
    Flatpak { id: String, version: String },
}

impl Clone for Source {
    fn clone(&self) -> (r: Self)
        ensures
            r == *self,
    {
        match self {
            Source::Apt(name) => Source::Apt(name.clone()),
            Source::Dnf(name) => Source::Dnf(name.clone()),
            Source::Pacman(name) => Source::Pacman(name.clone()),
            Source::Flatpak { id, version } => Source::Flatpak { id: id.clone(), version: version.clone() },
        }
    }
}

/// One curated entry: a software unit to install and configure.
#[derive(Debug, PartialEq, Eq)]
pub struct Package {
    pub id: PackageId,
    pub name: String,
    pub description: String,
    pub source: Source,
    pub config: Vec<ConfigFile>,
    pub page: Page,
    pub enabled: bool,
}

/// The mathematical value of a package.
pub struct PackageView {
    pub id: PackageId,
    pub name: Seq<char>,
    pub description: Seq<char>,
    pub source: Source,
    pub config: Seq<ConfigFile>,
    pub page: Page,
    pub enabled: bool,
}

impl View for Package {
    type V = PackageView;

    open spec fn view(&self) -> PackageView {
        PackageView {
            id: self.id,
            name: self.name@,
            description: self.description@,
            source: self.source,
            config: self.config@,
            page: self.page,
            enabled: self.enabled,
        }
    }
}

/// The values of a sequence of packages.
pub open spec fn views(s: Seq<Package>) -> Seq<PackageView> {
    s.map_values(|p: Package| p@)
}

/// A fresh package as creation makes it: the given name, source and category,
/// an empty description, no configuration files, enabled.
pub open spec fn created(id: PackageId, name: Seq<char>, source: Source, page: Page) -> PackageView {
    PackageView {
        id: id,
        name: name,
        description: Seq::empty(),
        source: source,
        config: Seq::empty(),
        page: page,
        enabled: true,
    }
}

/// A change to one editable field of a package.
#[derive(Debug)]
pub enum Edit {
    Name(String),
    Description(String),
    Enabled(bool),
}

/// `p` with the edit `e` applied.
pub open spec fn applied(p: PackageView, e: Edit) -> PackageView {
    match e {
        Edit::Name(name) => PackageView { name: name@, ..p },
        Edit::Description(description) => PackageView { description: description@, ..p },
        Edit::Enabled(enabled) => PackageView { enabled: enabled, ..p },
    }
}

/// `s` with the edit `e` applied to the package of identity `id`.
pub open spec fn edited(s: Seq<PackageView>, id: PackageId, e: Edit) -> Seq<PackageView> {
    Seq::new(s.len(), |i: int| if s[i].id == id { applied(s[i], e) } else { s[i] })
}

impl Package {
    /// Applies the edit `e` to this package.
    pub fn apply(&mut self, e: Edit)
        ensures
            final(self)@ == applied(old(self)@, e),
    {
        match e {
            Edit::Name(name) => self.name = name,
            Edit::Description(description) => self.description = description,
            Edit::Enabled(enabled) => self.enabled = enabled,
        }
    }
}

/// Editing commutes with taking the projection of a category.
pub proof fn lemma_edit_in_page(s: Seq<PackageView>, id: PackageId, e: Edit, c: Page)
    ensures
        in_page(edited(s, id, e), c) == edited(in_page(s, c), id, e),
    decreases s.len(),
{
    if s.len() > 0 {
        lemma_edit_in_page(s.drop_last(), id, e, c);
        assert(edited(s, id, e).drop_last() =~= edited(s.drop_last(), id, e));
        let t = in_page(s.drop_last(), c);
        if s.last().page == c {
            assert(edited(t.push(s.last()), id, e) =~= edited(t, id, e).push(edited(s, id, e).last()));
        }
    } else {
        assert(edited(s, id, e) =~= s);
        assert(edited(in_page(s, c), id, e) =~= in_page(s, c));
    }
}

/// An edit of a package that holds a store's identity changes that package
/// in its own category's projection and leaves every other projection as it was.
pub proof fn lemma_edit_then_reload(s: Seq<PackageView>, k: int, e: Edit, c: Page)
    requires
        unique_ids(s),
        0 <= k < s.len(),
    ensures
        in_page(edited(s, s[k].id, e), s[k].page).contains(applied(s[k], e)),
        c != s[k].page ==> in_page(edited(s, s[k].id, e), c) == in_page(s, c),
{
    let id = s[k].id;
    lemma_edit_in_page(s, id, e, c);
    lemma_edit_in_page(s, id, e, s[k].page);
    lemma_in_page_members(s, c);
    lemma_in_page_members(s, s[k].page);
    let p = in_page(s, s[k].page);
    assert(s.contains(s[k]));
    assert(p.contains(s[k]));
    let i = choose|i: int| 0 <= i < p.len() && p[i] == s[k];
    assert(edited(p, id, e)[i] == applied(s[k], e));
    if c != s[k].page {
        let q = in_page(s, c);
        assert forall|j: int| 0 <= j < q.len() implies q[j].id != id by {
            assert(q.contains(q[j]));
            let m = choose|m: int| 0 <= m < s.len() && s[m] == q[j];
        }
        assert(edited(q, id, e) =~= q);
    }
}

/// Two edits of different packages, applied one after the other, are both kept.
pub proof fn lemma_edits_both_kept(s: Seq<PackageView>, id1: PackageId, e1: Edit, id2: PackageId, e2: Edit)
    requires
        id1 != id2,
    ensures
        edited(edited(s, id1, e1), id2, e2).len() == s.len(),
        forall|k: int| 0 <= k < s.len() && s[k].id == id1 ==> #[trigger] edited(edited(s, id1, e1), id2, e2)[k] == applied(s[k], e1),
        forall|k: int| 0 <= k < s.len() && s[k].id == id2 ==> #[trigger] edited(edited(s, id1, e1), id2, e2)[k] == applied(s[k], e2),
        forall|k: int| 0 <= k < s.len() && s[k].id != id1 && s[k].id != id2 ==> #[trigger] edited(edited(s, id1, e1), id2, e2)[k] == s[k],
{
}

/// No two packages of `s` share an identity.
pub open spec fn unique_ids(s: Seq<PackageView>) -> bool {
    forall|i: int, j: int| 0 <= i < s.len() && 0 <= j < s.len() && i != j ==> s[i].id != s[j].id
}

/// Some package of `s` has the identity `id`.
pub open spec fn has_id(s: Seq<PackageView>, id: PackageId) -> bool {
    exists|i: int| 0 <= i < s.len() && s[i].id == id
}

/// The packages of `s` in category `c`, in their order in `s`.
pub open spec fn in_page(s: Seq<PackageView>, c: Page) -> Seq<PackageView>
    decreases s.len(),
{
    if s.len() == 0 {
        Seq::empty()
    } else if s.last().page == c {
        in_page(s.drop_last(), c).push(s.last())
    } else {
        in_page(s.drop_last(), c)
    }
}

/// A package belongs to the projection of its own category, and to no other.
pub proof fn lemma_in_page_members(s: Seq<PackageView>, c: Page)
    ensures
        forall|x: PackageView| #[trigger] in_page(s, c).contains(x) <==> (s.contains(x) && x.page == c),
    decreases s.len(),
{
    if s.len() > 0 {
        lemma_in_page_members(s.drop_last(), c);
        let d = s.drop_last();
        let t = in_page(d, c);
        assert forall|x: PackageView| #[trigger] in_page(s, c).contains(x) <==> (s.contains(x) && x.page == c) by {
            assert(s.contains(x) <==> (d.contains(x) || x == s.last())) by {
                if s.contains(x) {
                    let i = choose|i: int| 0 <= i < s.len() && s[i] == x;
                    if i < s.len() - 1 {
                        assert(d[i] == x);
                    }
                }
                if d.contains(x) {
                    let i = choose|i: int| 0 <= i < d.len() && d[i] == x;
                    assert(s[i] == x);
                }
                assert(s[s.len() - 1] == s.last());
            }
            if s.last().page == c {
                let u = t.push(s.last());
                assert(u.contains(x) <==> (t.contains(x) || x == s.last())) by {
                    if u.contains(x) {
                        let i = choose|i: int| 0 <= i < u.len() && u[i] == x;
                        if i < t.len() {
                            assert(t[i] == x);
                        }
                    }
                    if t.contains(x) {
                        let i = choose|i: int| 0 <= i < t.len() && t[i] == x;
                        assert(u[i] == x);
                    }
                    assert(u[t.len() as int] == s.last());
                }
            }
        }
    }
}

/// The projection of a category is the subsequence of `s` that vstd's
/// `filter` keeps for that category.
pub proof fn lemma_in_page_is_filter(s: Seq<PackageView>, c: Page)
    ensures
        in_page(s, c) == s.filter(|p: PackageView| p.page == c),
    decreases s.len(),
{
    reveal(Seq::filter);
    if s.len() > 0 {
        lemma_in_page_is_filter(s.drop_last(), c);
    } else {
        assert(s =~= Seq::<PackageView>::empty());
    }
}

/// The projection of category `c` holds exactly the packages of `s` in `c`,
/// in their relative order in `s`.
pub proof fn lemma_page_view_exact(s: Seq<PackageView>, c: Page)
    ensures
        forall|x: PackageView| #[trigger] in_page(s, c).contains(x) <==> (s.contains(x) && x.page == c),
        in_page(s, c) == s.filter(|p: PackageView| p.page == c),
{
    lemma_in_page_members(s, c);
    lemma_in_page_is_filter(s, c);
}

/// A projection of a sequence with unique identities has unique identities.
pub proof fn lemma_in_page_unique(s: Seq<PackageView>, c: Page)
    requires
        unique_ids(s),
    ensures
        unique_ids(in_page(s, c)),
    decreases s.len(),
{
    if s.len() > 0 {
        let d = s.drop_last();
        assert(unique_ids(d));
        lemma_in_page_unique(d, c);
        lemma_in_page_members(d, c);
        if s.last().page == c {
            let t = in_page(d, c);
            assert forall|k: int| 0 <= k < t.len() implies t[k].id != s.last().id by {
                assert(t.contains(t[k]));
                let i = choose|i: int| 0 <= i < d.len() && d[i] == t[k];
                assert(s[i] == t[k]);
            }
        }
    }
}

/// The position of the first package of `packages` with identity `id`, found
/// by a linear scan.
pub fn position_of(packages: &Vec<Package>, id: PackageId) -> (r: Option<usize>)
    ensures
        r is None <==> !has_id(views(packages@), id),
        r matches Some(i) ==> i < packages@.len() && packages@[i as int].id == id && forall|j: int|
            0 <= j < i ==> packages@[j].id != id,
{
    let mut i: usize = 0;
    while i < packages.len()
        invariant
            i <= packages@.len(),
            forall|j: int| 0 <= j < i ==> packages@[j].id != id,
        decreases packages@.len() - i,
    {
        if packages[i].id == id {
            assert(views(packages@)[i as int].id == id);
            return Some(i);
        }
        i = i + 1;
    }
    assert(!has_id(views(packages@), id)) by {
        if has_id(views(packages@), id) {
            let j = choose|j: int| 0 <= j < packages@.len() && views(packages@)[j].id == id;
            assert(packages@[j].id == id);
        }
    }
    None
}

/// Whether no two packages of `packages` share an identity.
pub fn ids_unique(packages: &Vec<Package>) -> (r: bool)
    ensures
        r == unique_ids(views(packages@)),
{
    let ghost v = views(packages@);
    let mut i: usize = 0;
    while i < packages.len()
        invariant
            i <= packages@.len(),
            v == views(packages@),
            forall|a: int, b: int| 0 <= a < i && 0 <= b < packages@.len() && a != b ==> v[a].id != v[b].id,
        decreases packages@.len() - i,
    {
        let mut j: usize = 0;
        while j < packages.len()
            invariant
                i < packages@.len(),
                j <= packages@.len(),
                v == views(packages@),
                forall|a: int, b: int| 0 <= a < i && 0 <= b < packages@.len() && a != b ==> v[a].id != v[b].id,
                forall|b: int| 0 <= b < j && b != i ==> v[i as int].id != v[b].id,
            decreases packages@.len() - j,
        {
            if j != i && packages[i].id == packages[j].id {
                assert(v[i as int].id == v[j as int].id);
                return false;
            }
            j = j + 1;
        }
        i = i + 1;
    }
    true
}

/// Copies of the packages of `packages` in category `page`, in their order.
pub fn packages_in(packages: &Vec<Package>, page: Page) -> (r: Vec<Package>)
    ensures
        views(r@) == in_page(views(packages@), page),
{
    let ghost all = views(packages@);
    let mut r: Vec<Package> = Vec::new();
    let mut i: usize = 0;
    while i < packages.len()
        invariant
            i <= packages@.len(),
            all == views(packages@),
            views(r@) == in_page(all.take(i as int), page),
        decreases packages@.len() - i,
    {
        proof {
            assert(all.take(i + 1).drop_last() =~= all.take(i as int));
            assert(all.take(i + 1).last() == all[i as int]);
        }
        if packages[i].page == page {
            let ghost before = r@;
            r.push(packages[i].clone());
            proof {
                assert(views(r@) =~= views(before).push(all[i as int]));
            }
        }
        i = i + 1;
    }
    proof {
        assert(all.take(i as int) =~= all);
    }
    r
}

impl Clone for Package {
    fn clone(&self) -> (r: Self)
        ensures
            r@ == self@,
    {
        let config = self.config.clone();
        assert(config@ =~= self.config@);
        Package {
            id: self.id,
            name: self.name.clone(),
            description: self.description.clone(),
            source: self.source.clone(),
            config: config,
            page: self.page,
            enabled: self.enabled,
        }
    }
}

/// Relies on getrandom::fill for sixteen bytes from the operating system's
/// random source; `None` where that source reports an error. Nothing is known
/// of the bytes.
#[verifier::external_body]
fn random_bytes() -> (r: Option<[u8; 16]>) {
    let mut bytes = [0u8; 16];
    match getrandom::fill(&mut bytes) {
        Ok(()) => Some(bytes),
        Err(_) => None,
    }
}

/// Relies on uuid::Builder::from_random_bytes to make a version 4 UUID of the
/// bytes, read as a `u128` by Uuid::as_u128. No caller needs its value.
#[verifier::external_body]
fn uuid_value(bytes: [u8; 16]) -> (r: u128) {
    uuid::Builder::from_random_bytes(bytes).into_uuid().as_u128()
}

/// A random version 4 identity, or `None` where the random source fails.
pub(crate) fn random_id() -> (r: Option<PackageId>) {
    match random_bytes() {
        Some(bytes) => Some(PackageId { value: uuid_value(bytes) }),
        None => None,
    }
}

impl Package {
    /// A package with the given identity, name, source and category, an empty
    /// description, no configuration files, enabled.
    pub fn with_id(id: PackageId, name: &str, source: Source, page: Page) -> (r: Package)
        ensures
            r@ == created(id, name@, source, page),
    {
        let r = Package {
            id: id,
            name: String::from_str(name),
            description: String::new(),
            source: source,
            config: Vec::new(),
            page: page,
            enabled: true,
        };
        assert(r@.config =~= Seq::<ConfigFile>::empty());
        r
    }

    /// A package under a freshly drawn random identity; `None` where the
    /// operating system's random source fails.
    pub fn new(name: &str, source: Source, page: Page) -> (r: Option<Package>)
        ensures
            r matches Some(p) ==> p@ == created(p.id, name@, source, page),
    {
        match random_id() {
            Some(id) => Some(Package::with_id(id, name, source, page)),
            None => None,
        }
    }
}

} // verus!
