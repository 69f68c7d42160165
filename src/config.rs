use vstd::prelude::*;
use vstd::set_lib::*;

use crate::app::Page;
use crate::package::{
    applied, created, edited, has_id, Edit, ids_unique, in_page, lemma_in_page_members, lemma_in_page_unique,
    packages_in, position_of, random_id, unique_ids, views, Package, PackageId,
    PackageView, Source,
};

verus! {

/// The schema version of the persisted store.
pub const STORE_VERSION: u64 = 1;

/// Why the store refused a new package collection.
#[derive(Debug, Clone, Copy, PartialEq, Eq, Structural)]
pub enum StoreError {
    /// Two packages of the collection share an identity.
    DuplicateId,
}

/// The configuration store: the authoritative, ordered collection of all packages.
#[derive(Debug)]
pub struct Config {
    packages: Vec<Package>,
}

impl View for Config {
    type V = Seq<PackageView>;

    closed spec fn view(&self) -> Seq<PackageView> {
        views(self.packages@)
    }
}

/// The persisted form of the store: a schema version and one package
/// collection per category. A field that could not be decoded is `None`.
#[derive(Debug)]
pub struct StoreRecord {
    pub version: u64,
    pub shells: Option<Vec<Package>>,
    pub languages: Option<Vec<Package>>,
    pub editors: Option<Vec<Package>>,
    pub libraries: Option<Vec<Package>>,
    pub tools: Option<Vec<Package>>,
}

/// The value of a persisted store.
pub struct RecordView {
    pub version: u64,
    pub shells: Option<Seq<PackageView>>,
    pub languages: Option<Seq<PackageView>>,
    pub editors: Option<Seq<PackageView>>,
    pub libraries: Option<Seq<PackageView>>,
    pub tools: Option<Seq<PackageView>>,
}

/// The value of one persisted field.
pub open spec fn field_view(f: Option<Vec<Package>>) -> Option<Seq<PackageView>> {
    match f {
        Some(v) => Some(views(v@)),
        None => None,
    }
}

impl View for StoreRecord {
    type V = RecordView;

    open spec fn view(&self) -> RecordView {
        RecordView {
            version: self.version,
            shells: field_view(self.shells),
            languages: field_view(self.languages),
            editors: field_view(self.editors),
            libraries: field_view(self.libraries),
            tools: field_view(self.tools),
        }
    }
}

/// The persisted form of a store holding `s`.
pub open spec fn record_of(s: Seq<PackageView>) -> RecordView {
    RecordView {
        version: STORE_VERSION,
        shells: Some(in_page(s, Page::Shells)),
        languages: Some(in_page(s, Page::Languages)),
        editors: Some(in_page(s, Page::Editors)),
        libraries: Some(in_page(s, Page::Libraries)),
        tools: Some(in_page(s, Page::Tools)),
    }
}

/// A decoded field, with an undecodable one read as empty.
pub open spec fn decoded(f: Option<Seq<PackageView>>) -> Seq<PackageView> {
    match f {
        Some(s) => s,
        None => Seq::empty(),
    }
}

/// `acc` followed by the packages of `items` that belong to category `c` and
/// whose identity is not yet taken, taken in order.
pub open spec fn admitted(acc: Seq<PackageView>, items: Seq<PackageView>, c: Page) -> Seq<PackageView>
    decreases items.len(),
{
    if items.len() == 0 {
        acc
    } else {
        let a = admitted(acc, items.drop_last(), c);
        if items.last().page == c && !has_id(a, items.last().id) {
            a.push(items.last())
        } else {
            a
        }
    }
}

/// The packages of a store loaded from `r`: empty under another schema version,
/// else the fields in category order, each entry kept when it belongs to its
/// field's category and its identity is not yet taken.
pub open spec fn loaded(r: RecordView) -> Seq<PackageView> {
    if r.version != STORE_VERSION {
        Seq::empty()
    } else {
        let a = admitted(Seq::empty(), decoded(r.shells), Page::Shells);
        let a = admitted(a, decoded(r.languages), Page::Languages);
        let a = admitted(a, decoded(r.editors), Page::Editors);
        let a = admitted(a, decoded(r.libraries), Page::Libraries);
        admitted(a, decoded(r.tools), Page::Tools)
    }
}

proof fn lemma_admitted_unique(acc: Seq<PackageView>, items: Seq<PackageView>, c: Page)
    requires
        unique_ids(acc),
    ensures
        unique_ids(admitted(acc, items, c)),
    decreases items.len(),
{
    if items.len() > 0 {
        lemma_admitted_unique(acc, items.drop_last(), c);
        let a = admitted(acc, items.drop_last(), c);
        let x = items.last();
        if x.page == c && !has_id(a, x.id) {
            assert forall|i: int| 0 <= i < a.len() implies a[i].id != x.id by {
                if a[i].id == x.id {
                    assert(has_id(a, x.id));
                }
            }
        }
    }
}

proof fn lemma_admitted_all(acc: Seq<PackageView>, items: Seq<PackageView>, c: Page)
    requires
        unique_ids(items),
        forall|k: int| 0 <= k < items.len() ==> #[trigger] items[k].page == c,
        forall|k: int| 0 <= k < items.len() ==> !has_id(acc, #[trigger] items[k].id),
    ensures
        admitted(acc, items, c) == acc + items,
    decreases items.len(),
{
    if items.len() > 0 {
        let d = items.drop_last();
        let x = items.last();
        assert(unique_ids(d));
        assert forall|k: int| 0 <= k < d.len() implies #[trigger] d[k].page == c by {
            assert(d[k] == items[k]);
        }
        assert forall|k: int| 0 <= k < d.len() implies !has_id(acc, #[trigger] d[k].id) by {
            assert(d[k] == items[k]);
        }
        lemma_admitted_all(acc, d, c);
        assert(items[items.len() - 1] == x);
        assert(!has_id(acc + d, x.id)) by {
            if has_id(acc + d, x.id) {
                let i = choose|i: int| 0 <= i < (acc + d).len() && (acc + d)[i].id == x.id;
                if i < acc.len() {
                    assert(has_id(acc, items[items.len() - 1].id));
                } else {
                    assert(items[i - acc.len()].id == x.id);
                }
            }
        }
        assert((acc + d).push(x) =~= acc + items);
    }
}

/// Loading the projection of category `c` after entries of other categories of
/// the same collection keeps all of it.
proof fn lemma_load_step(s: Seq<PackageView>, acc: Seq<PackageView>, c: Page)
    requires
        unique_ids(s),
        forall|i: int| 0 <= i < acc.len() ==> s.contains(#[trigger] acc[i]) && acc[i].page != c,
    ensures
        admitted(acc, in_page(s, c), c) == acc + in_page(s, c),
{
    let p = in_page(s, c);
    lemma_in_page_unique(s, c);
    lemma_in_page_members(s, c);
    assert forall|k: int| 0 <= k < p.len() implies #[trigger] p[k].page == c by {
        assert(p.contains(p[k]));
    }
    assert forall|k: int| 0 <= k < p.len() implies !has_id(acc, #[trigger] p[k].id) by {
        assert(p.contains(p[k]));
        if has_id(acc, p[k].id) {
            let i = choose|i: int| 0 <= i < acc.len() && acc[i].id == p[k].id;
            assert(s.contains(acc[i]));
            let a = choose|a: int| 0 <= a < s.len() && s[a] == acc[i];
            let b = choose|b: int| 0 <= b < s.len() && s[b] == p[k];
        }
    }
    lemma_admitted_all(acc, p, c);
}

/// Persisting a store and loading it back gives a store with the same
/// packages, identities and field values included.
pub proof fn lemma_round_trip(s: Seq<PackageView>)
    requires
        unique_ids(s),
    ensures
        loaded(record_of(s)).to_set() == s.to_set(),
        forall|c: Page| #[trigger] in_page(loaded(record_of(s)), c).to_set() == in_page(s, c).to_set(),
{
    broadcast use vstd::seq_lib::group_seq_properties;

    let p0 = in_page(s, Page::Shells);
    let p1 = in_page(s, Page::Languages);
    let p2 = in_page(s, Page::Editors);
    let p3 = in_page(s, Page::Libraries);
    let p4 = in_page(s, Page::Tools);
    lemma_in_page_members(s, Page::Shells);
    lemma_in_page_members(s, Page::Languages);
    lemma_in_page_members(s, Page::Editors);
    lemma_in_page_members(s, Page::Libraries);
    lemma_in_page_members(s, Page::Tools);
    let e = Seq::<PackageView>::empty();
    lemma_load_step(s, e, Page::Shells);
    let a1 = e + p0;
    assert forall|i: int| 0 <= i < a1.len() implies s.contains(#[trigger] a1[i]) && a1[i].page == Page::Shells by {
        assert(a1[i] == p0[i]);
        assert(p0.contains(p0[i]));
    }
    lemma_load_step(s, a1, Page::Languages);
    let a2 = a1 + p1;
    assert forall|i: int| 0 <= i < a2.len() implies s.contains(#[trigger] a2[i]) && (a2[i].page == Page::Shells || a2[i].page == Page::Languages) by {
        if i >= a1.len() {
            assert(a2[i] == p1[i - a1.len()]);
            assert(p1.contains(p1[i - a1.len()]));
        }
    }
    lemma_load_step(s, a2, Page::Editors);
    let a3 = a2 + p2;
    assert forall|i: int| 0 <= i < a3.len() implies s.contains(#[trigger] a3[i]) && (a3[i].page == Page::Shells || a3[i].page == Page::Languages || a3[i].page == Page::Editors) by {
        if i >= a2.len() {
            assert(a3[i] == p2[i - a2.len()]);
            assert(p2.contains(p2[i - a2.len()]));
        }
    }
    lemma_load_step(s, a3, Page::Libraries);
    let a4 = a3 + p3;
    assert forall|i: int| 0 <= i < a4.len() implies s.contains(#[trigger] a4[i]) && a4[i].page != Page::Tools by {
        if i >= a3.len() {
            assert(a4[i] == p3[i - a3.len()]);
            assert(p3.contains(p3[i - a3.len()]));
        }
    }
    lemma_load_step(s, a4, Page::Tools);
    let l = a4 + p4;
    assert(loaded(record_of(s)) == l);
    assert forall|x: PackageView| l.contains(x) <==> s.contains(x) by {
        if s.contains(x) {
            match x.page {
                Page::Shells => assert(p0.contains(x)),
                Page::Languages => assert(p1.contains(x)),
                Page::Editors => assert(p2.contains(x)),
                Page::Libraries => assert(p3.contains(x)),
                Page::Tools => assert(p4.contains(x)),
            }
        }
    }
    assert(l.to_set() =~= s.to_set());
    assert forall|c: Page| #[trigger] in_page(l, c).to_set() == in_page(s, c).to_set() by {
        lemma_in_page_members(l, c);
        assert(in_page(l, c).to_set() =~= in_page(s, c).to_set());
    }
}

/// Among the identities from `0` to `len`, a sequence of `len` packages leaves one free.
proof fn lemma_small_id_free(s: Seq<PackageView>)
    requires
        s.len() < u128::MAX,
    ensures
        exists|m: int| 0 <= m <= s.len() && !#[trigger] has_id(s, PackageId { value: m as u128 }),
{
    if forall|m: int| 0 <= m <= s.len() ==> #[trigger] has_id(s, PackageId { value: m as u128 }) {
        lemma_all_small_ids_taken(s);
    }
}

proof fn lemma_all_small_ids_taken(s: Seq<PackageView>)
    requires
        s.len() < u128::MAX,
        forall|m: int| 0 <= m <= s.len() ==> #[trigger] has_id(s, PackageId { value: m as u128 }),
    ensures
        s.len() + 1 <= s.len(),
{
    let ids = s.map_values(|p: PackageView| p.id.value as int);
    let range = set_int_range(0, s.len() as int + 1);
    assert forall|m: int| #[trigger] range.contains(m) implies ids.to_set().contains(m) by {
        assert(has_id(s, PackageId { value: m as u128 }));
        let i = choose|i: int| 0 <= i < s.len() && s[i].id == PackageId { value: m as u128 };
        assert(ids[i] == m);
    }
    ids.lemma_cardinality_of_set();
    lemma_int_range(0, s.len() as int + 1);
    lemma_len_subset(range, ids.to_set());
}

/// Appends to `acc` the entries of a decoded field that belong to `page` and
/// whose identity `acc` does not hold yet.
fn admit_field(acc: &mut Vec<Package>, field: &Option<Vec<Package>>, page: Page)
    requires
        unique_ids(views(old(acc)@)),
    ensures
        views(final(acc)@) == admitted(views(old(acc)@), decoded(field_view(*field)), page),
        unique_ids(views(final(acc)@)),
{
    let ghost start = views(acc@);
    match field {
        None => {},
        Some(items) => {
            let ghost all = views(items@);
            let mut i: usize = 0;
            while i < items.len()
                invariant
                    i <= items@.len(),
                    all == views(items@),
                    views(acc@) == admitted(start, all.take(i as int), page),
                    unique_ids(start),
                    unique_ids(views(acc@)),
                decreases items@.len() - i,
            {
                proof {
                    assert(all.take(i + 1).drop_last() =~= all.take(i as int));
                    assert(all.take(i + 1).last() == all[i as int]);
                    lemma_admitted_unique(start, all.take(i + 1), page);
                }
                if items[i].page == page && position_of(acc, items[i].id).is_none() {
                    let ghost before = acc@;
                    acc.push(items[i].clone());
                    proof {
                        assert(views(acc@) =~= views(before).push(all[i as int]));
                    }
                }
                i = i + 1;
            }
            proof {
                assert(all.take(i as int) =~= all);
            }
        },
    }
}

impl Clone for Config {
    fn clone(&self) -> (r: Self)
        ensures
            r@ == self@,
    {
        let packages = self.packages.clone();
        proof {
            assert(views(packages@) =~= views(self.packages@));
        }
        Config { packages }
    }
}

impl Config {
    /// The store holds no two packages with the same identity.
    pub open spec fn wf(&self) -> bool {
        unique_ids(self@)
    }

    /// An empty store.
    pub fn new() -> (r: Config)
        ensures
            r@ == Seq::<PackageView>::empty(),
            r.wf(),
    {
        let r = Config { packages: Vec::new() };
        assert(r@ =~= Seq::<PackageView>::empty());
        r
    }

    /// Read access to the package collection, in store order.
    pub fn packages(&self) -> (r: &Vec<Package>)
        ensures
            views(r@) == self@,
    {
        &self.packages
    }

    /// Whether some package of the store has identity `id`.
    pub fn contains_id(&self, id: PackageId) -> (r: bool)
        ensures
            r == has_id(self@, id),
    {
        position_of(&self.packages, id).is_some()
    }

    /// The persisted form of this store.
    pub fn to_record(&self) -> (r: StoreRecord)
        ensures
            r@ == record_of(self@),
    {
        StoreRecord {
            version: STORE_VERSION,
            shells: Some(packages_in(&self.packages, Page::Shells)),
            languages: Some(packages_in(&self.packages, Page::Languages)),
            editors: Some(packages_in(&self.packages, Page::Editors)),
            libraries: Some(packages_in(&self.packages, Page::Libraries)),
            tools: Some(packages_in(&self.packages, Page::Tools)),
        }
    }

    /// The store that a persisted record describes: empty under another schema
    /// version; else an undecodable field reads as empty, and an entry is left
    /// out when it is filed under another category or its identity is taken.
    pub fn from_record(record: &StoreRecord) -> (r: Config)
        ensures
            r@ == loaded(record@),
            r.wf(),
    {
        let mut packages: Vec<Package> = Vec::new();
        proof {
            assert(views(packages@) =~= Seq::<PackageView>::empty());
        }
        if record.version == STORE_VERSION {
            admit_field(&mut packages, &record.shells, Page::Shells);
            admit_field(&mut packages, &record.languages, Page::Languages);
            admit_field(&mut packages, &record.editors, Page::Editors);
            admit_field(&mut packages, &record.libraries, Page::Libraries);
            admit_field(&mut packages, &record.tools, Page::Tools);
        }
        Config { packages }
    }

    /// A copy of the package collection with the edit `e` applied to the
    /// package of identity `id`, whose position is looked up afresh; `None`
    /// when no package holds `id`.
    pub fn edited_packages(&self, id: PackageId, e: Edit) -> (r: Option<Vec<Package>>)
        requires
            self.wf(),
        ensures
            r is None <==> !has_id(self@, id),
            r matches Some(v) ==> views(v@) == edited(self@, id, e) && unique_ids(views(v@)),
    {
        match position_of(&self.packages, id) {
            None => None,
            Some(i) => {
                let mut packages = self.packages.clone();
                proof {
                    assert(views(packages@) =~= self@);
                }
                let mut p = packages[i].clone();
                p.apply(e);
                packages.set(i, p);
                proof {
                    assert forall|j: int| 0 <= j < self@.len() && self@[j].id == id implies j == i by {
                        if j != i {
                            assert(self@[i as int].id == id);
                        }
                    }
                    assert(views(packages@) =~= edited(self@, id, e));
                }
                Some(packages)
            },
        }
    }

    /// Replaces the whole package collection; refused, leaving the store as it
    /// was, when two packages of `packages` share an identity.
    pub fn set_packages(&mut self, packages: Vec<Package>) -> (r: Result<(), StoreError>)
        ensures
            r is Ok <==> unique_ids(views(packages@)),
            r is Ok ==> final(self)@ == views(packages@),
            r is Err ==> final(self)@ == old(self)@,
            r is Err ==> r == Err::<(), StoreError>(StoreError::DuplicateId),
            old(self).wf() ==> final(self).wf(),
    {
        if ids_unique(&packages) {
            self.packages = packages;
            Ok(())
        } else {
            Err(StoreError::DuplicateId)
        }
    }

    /// An identity that no package of the store holds: a random one, or, should
    /// that be taken or the random source fail, the smallest free one.
    pub fn fresh_id(&self) -> (r: PackageId)
        ensures
            !has_id(self@, r),
    {
        if let Some(drawn) = random_id() {
            if !self.contains_id(drawn) {
                return drawn;
            }
        }
        let n = self.packages.len() as u128;
        let mut k: u128 = 0;
        while k <= n
            invariant
                n == self@.len(),
                n <= usize::MAX,
                k <= n + 1,
                forall|m: int| 0 <= m < k ==> #[trigger] has_id(self@, PackageId { value: m as u128 }),
            decreases n + 1 - k,
        {
            let candidate = PackageId { value: k };
            if !self.contains_id(candidate) {
                return candidate;
            }
            k = k + 1;
        }
        proof {
            lemma_small_id_free(self@);
            let m = choose|m: int| 0 <= m <= self@.len() && !#[trigger] has_id(self@, PackageId { value: m as u128 });
            assert(has_id(self@, PackageId { value: m as u128 }));
        }
        PackageId { value: 0 }
    }

    /// Creates a package with a fresh identity, the given name, source and
    /// category, an empty description, no configuration files, enabled, and
    /// appends it to the store.
    pub fn create(&mut self, name: &str, source: Source, page: Page) -> (r: Package)
        requires
            old(self).wf(),
        ensures
            r@ == created(r.id, name@, source, page),
            !has_id(old(self)@, r.id),
            final(self)@ == old(self)@.push(r@),
            final(self).wf(),
    {
        let id = self.fresh_id();
        let package = Package::with_id(id, name, source, page);
        let mut packages = self.packages.clone();
        proof {
            assert(views(packages@) =~= self@);
        }
        packages.push(package.clone());
        proof {
            assert(views(packages@) =~= self@.push(package@));
            assert forall|i: int, j: int|
                0 <= i < views(packages@).len() && 0 <= j < views(packages@).len() && i != j implies
                views(packages@)[i].id != views(packages@)[j].id by {
                if i == self@.len() {
                    assert(self@[j].id != id);
                } else if j == self@.len() {
                    assert(self@[i].id != id);
                }
            }
        }
        let outcome = self.set_packages(packages);
        proof {
            assert(outcome is Ok);
        }
        package
    }
}

} // verus!
