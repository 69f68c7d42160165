use blueprint::app::{
    Action, AppModel, ContextPage, EditError, EditSession, MenuAction, Message, Page,
};
use blueprint::config::{Config, StoreError, StoreRecord, STORE_VERSION};
use blueprint::package::{ConfigFile, Edit, Package, PackageId, Source};
use blueprint::page::{Command, Message as PageMessage, PageView};

fn apt(name: &str) -> Source {
    Source::Apt(name.to_string())
}

fn names(packages: &[Package]) -> Vec<String> {
    packages.iter().map(|p| p.name.clone()).collect()
}

fn empty_record() -> StoreRecord {
    StoreRecord {
        version: STORE_VERSION,
        shells: None,
        languages: None,
        editors: None,
        libraries: None,
        tools: None,
    }
}

#[test]
fn create_then_edit_description_scenario() {
    let mut config = Config::new();
    let fish = config.create("Fish", apt("fish"), Page::Shells);
    let mut shells = PageView::new(Page::Shells, &config);
    assert_eq!(shells.view().len(), 1);
    assert_eq!(shells.view()[0].name, "Fish");
    assert!(shells.view()[0].enabled);
    assert_eq!(shells.view()[0].description, "");

    let mut session = EditSession::new();
    session.open(fish.id);
    assert_eq!(session.commit(&mut config, Edit::Description("friendly shell".to_string())), Ok(()));
    shells.reload(&config);
    assert_eq!(shells.view().len(), 1);
    assert_eq!(shells.view()[0].description, "friendly shell");
    assert_eq!(shells.view()[0].name, "Fish");
    assert_eq!(shells.view()[0].source, apt("fish"));
    assert_eq!(shells.view()[0].id, fish.id);
}

#[test]
fn created_package_defaults() {
    let p = Package::new("Rust", Source::Flatpak { id: "org.rust".to_string(), version: "1".to_string() }, Page::Languages)
        .expect("the random source works here");
    assert_eq!(p.name, "Rust");
    assert_eq!(p.description, "");
    assert!(p.config.is_empty());
    assert_eq!(p.page, Page::Languages);
    assert!(p.enabled);
}

#[test]
fn random_ids_differ() {
    let a = Package::new("A", apt("a"), Page::Tools).unwrap();
    let b = Package::new("B", apt("b"), Page::Tools).unwrap();
    assert_ne!(a.id, b.id);
    let version = (a.id.value >> 76) & 0xf;
    assert_eq!(version, 4);
}

#[test]
fn created_ids_are_distinct() {
    let mut config = Config::new();
    let mut ids: Vec<PackageId> = Vec::new();
    for i in 0..20 {
        let p = config.create(&format!("p{}", i), apt("x"), Page::Tools);
        assert!(!ids.contains(&p.id));
        ids.push(p.id);
    }
    assert_eq!(config.packages().len(), 20);
}

#[test]
fn fresh_id_is_not_taken() {
    let mut config = Config::new();
    for i in 0..5 {
        config.create(&format!("p{}", i), apt("x"), Page::Shells);
    }
    let id = config.fresh_id();
    assert!(!config.contains_id(id));
}

#[test]
fn view_holds_exactly_its_category_in_order() {
    let mut config = Config::new();
    config.create("bash", apt("bash"), Page::Shells);
    config.create("vim", apt("vim"), Page::Editors);
    config.create("zsh", apt("zsh"), Page::Shells);
    config.create("go", apt("go"), Page::Languages);
    config.create("fish", apt("fish"), Page::Shells);
    let shells = PageView::new(Page::Shells, &config);
    assert_eq!(names(shells.view()), vec!["bash", "zsh", "fish"]);
    assert_eq!(shells.title(), "Shells");
    assert_eq!(shells.page(), Page::Shells);
    let editors = PageView::new(Page::Editors, &config);
    assert_eq!(names(editors.view()), vec!["vim"]);
    let tools = PageView::new(Page::Tools, &config);
    assert!(tools.view().is_empty());
}

#[test]
fn round_trip_keeps_every_package() {
    let mut config = Config::new();
    config.create("vim", apt("vim"), Page::Editors);
    config.create("bash", apt("bash"), Page::Shells);
    config.create("make", Source::Dnf("make".to_string()), Page::Tools);
    config.create("libc", Source::Pacman("glibc".to_string()), Page::Libraries);
    config.create("zsh", apt("zsh"), Page::Shells);
    let record = config.to_record();
    assert_eq!(record.version, 1);
    assert_eq!(names(record.shells.as_ref().unwrap()), vec!["bash", "zsh"]);
    assert_eq!(names(record.tools.as_ref().unwrap()), vec!["make"]);
    let loaded = Config::from_record(&record);
    assert_eq!(loaded.packages().len(), 5);
    for p in config.packages() {
        assert!(loaded.packages().contains(p));
    }
    assert_eq!(names(loaded.packages()), vec!["bash", "zsh", "vim", "libc", "make"]);
}

#[test]
fn load_under_another_version_is_empty() {
    let mut config = Config::new();
    config.create("bash", apt("bash"), Page::Shells);
    let mut record = config.to_record();
    record.version = 2;
    assert!(Config::from_record(&record).packages().is_empty());
}

#[test]
fn undecodable_field_reads_as_empty() {
    let mut config = Config::new();
    config.create("bash", apt("bash"), Page::Shells);
    config.create("vim", apt("vim"), Page::Editors);
    let mut record = config.to_record();
    record.shells = None;
    assert_eq!(names(Config::from_record(&record).packages()), vec!["vim"]);
    assert!(Config::from_record(&empty_record()).packages().is_empty());
}

#[test]
fn load_drops_misfiled_and_duplicate_entries() {
    let bash = Package::with_id(PackageId { value: 1 }, "bash", apt("bash"), Page::Shells);
    let vim = Package::with_id(PackageId { value: 2 }, "vim", apt("vim"), Page::Editors);
    let twin = Package::with_id(PackageId { value: 1 }, "twin", apt("twin"), Page::Editors);
    let mut record = empty_record();
    record.shells = Some(vec![bash.clone(), vim.clone()]);
    record.editors = Some(vec![twin, vim.clone()]);
    let loaded = Config::from_record(&record);
    assert_eq!(loaded.packages(), &vec![bash, vim]);
}

#[test]
fn reload_twice_gives_the_same() {
    let mut config = Config::new();
    config.create("bash", apt("bash"), Page::Shells);
    let mut view = PageView::new(Page::Shells, &config);
    config.create("zsh", apt("zsh"), Page::Shells);
    view.reload(&config);
    let first = view.view().clone();
    view.reload(&config);
    assert_eq!(view.view(), &first);
    assert_eq!(names(&first), vec!["bash", "zsh"]);
}

#[test]
fn disable_editor_leaves_shells_alone() {
    let mut config = Config::new();
    let shell = config.create("bash", apt("bash"), Page::Shells);
    let editor = config.create("helix", apt("helix"), Page::Editors);
    let mut editors = PageView::new(Page::Editors, &config);
    let mut shells = PageView::new(Page::Shells, &config);
    let mut session = EditSession::new();
    session.open(editor.id);
    assert_eq!(session.commit(&mut config, Edit::Enabled(false)), Ok(()));
    editors.reload(&config);
    shells.reload(&config);
    assert_eq!(editors.view().len(), 1);
    assert_eq!(editors.view()[0].id, editor.id);
    assert!(!editors.view()[0].enabled);
    assert_eq!(shells.view(), &vec![shell]);
}

#[test]
fn two_edits_in_a_row_are_both_kept() {
    let mut config = Config::new();
    let a = config.create("a", apt("a"), Page::Tools);
    let b = config.create("b", apt("b"), Page::Tools);
    let mut session = EditSession::new();
    session.open(a.id);
    assert_eq!(session.commit(&mut config, Edit::Name("first".to_string())), Ok(()));
    session.open(b.id);
    assert_eq!(session.commit(&mut config, Edit::Name("second".to_string())), Ok(()));
    assert_eq!(names(config.packages()), vec!["first", "second"]);
}

#[test]
fn edit_errors() {
    let mut config = Config::new();
    config.create("a", apt("a"), Page::Tools);
    let mut session = EditSession::new();
    assert_eq!(session.commit(&mut config, Edit::Enabled(false)), Err(EditError::NoSelection));
    session.open(PackageId { value: 12345 });
    if config.contains_id(PackageId { value: 12345 }) {
        return;
    }
    assert_eq!(session.commit(&mut config, Edit::Enabled(false)), Err(EditError::LookupMiss));
    assert!(config.packages()[0].enabled);
    session.close();
    assert_eq!(session.selected(), None);
}

#[test]
fn edited_packages_copy() {
    let mut config = Config::new();
    let a = config.create("a", apt("a"), Page::Tools);
    let v = config.edited_packages(a.id, Edit::Name("b".to_string())).unwrap();
    assert_eq!(v[0].name, "b");
    assert_eq!(config.packages()[0].name, "a");
}

#[test]
fn duplicate_ids_are_refused() {
    let mut config = Config::new();
    config.create("a", apt("a"), Page::Tools);
    let p = Package::with_id(PackageId { value: 7 }, "x", apt("x"), Page::Shells);
    let q = Package::with_id(PackageId { value: 7 }, "y", apt("y"), Page::Shells);
    assert_eq!(config.set_packages(vec![p.clone(), q]), Err(StoreError::DuplicateId));
    assert_eq!(names(config.packages()), vec!["a"]);
    assert_eq!(config.set_packages(vec![p]), Ok(()));
    assert_eq!(names(config.packages()), vec!["x"]);
}

#[test]
fn apply_edits_fields() {
    let mut p = Package::with_id(PackageId { value: 3 }, "x", apt("x"), Page::Shells);
    p.config.push(ConfigFile { content: "set -x".to_string(), extension: "fish".to_string(), target: "/etc/x".to_string() });
    p.apply(Edit::Name("y".to_string()));
    p.apply(Edit::Description("d".to_string()));
    p.apply(Edit::Enabled(false));
    assert_eq!(p.name, "y");
    assert_eq!(p.description, "d");
    assert!(!p.enabled);
    assert_eq!(p.config.len(), 1);
    assert_eq!(p.clone(), p);
}

#[test]
fn labels_and_titles() {
    assert_eq!(Page::Shells.to_string(), "Shells");
    assert_eq!(Page::Tools.to_string(), "Tools");
    assert_eq!(Page::default(), Page::Shells);
    assert_eq!(ContextPage::default(), ContextPage::About);
    assert_eq!(ContextPage::About.title(), "About");
    assert_eq!(ContextPage::NewPackage.title(), "New package");
    assert_eq!(ContextPage::EditPackage.title(), "Edit package");
    assert!(matches!(MenuAction::About.message(), Message::ToggleContextPage(ContextPage::About)));
    assert!(matches!(MenuAction::NewPackage.message(), Message::ToggleContextPage(ContextPage::NewPackage)));
}

#[test]
fn package_row_caption() {
    let mut p = Package::with_id(PackageId { value: 3 }, "x", apt("x"), Page::Shells);
    assert_eq!(PageView::package_row(&p), ("x".to_string(), None));
    p.description = "about x".to_string();
    assert_eq!(PageView::package_row(&p), ("x".to_string(), Some("about x".to_string())));
}

#[test]
fn page_view_update() {
    let mut config = Config::new();
    let mut view = PageView::new(Page::Shells, &config);
    let p = config.create("bash", apt("bash"), Page::Shells);
    assert!(view.update(PageMessage::EditPackage(p.id), &config) == vec![Command::EditPackage(p.id)]);
    assert!(view.view().is_empty());
    assert!(view.update(PageMessage::ReloadPackages, &config).is_empty());
    assert_eq!(view.view().len(), 1);
}

fn saved(actions: Vec<Action>) -> StoreRecord {
    assert_eq!(actions.len(), 1);
    match actions.into_iter().next().unwrap() {
        Action::Save(record) => record,
        other => panic!("expected a record to save, got {:?}", other),
    }
}

#[test]
fn app_new_package_then_edit() {
    let mut app = AppModel::new(&empty_record());
    assert!(app.context_drawer().is_none());
    assert_eq!(app.update_title(), "Blueprint — Shells");
    let record = saved(app.update(Message::NewPackage("Fish".to_string(), apt("fish"), Page::Shells)));
    assert_eq!(names(record.shells.as_ref().unwrap()), vec!["Fish"]);
    assert!(app.config().packages().is_empty());
    assert!(app.update(Message::Saved).is_empty());
    assert!(app.pending.is_none());
    assert_eq!(app.shells.view().len(), 1);
    let id = app.shells.view()[0].id;
    assert_eq!(app.package_view().unwrap_err(), EditError::NoSelection);

    let actions = app.update(Message::Page(Page::Shells, PageMessage::EditPackage(id)));
    assert!(matches!(&actions[..], [Action::SetContextTitle(t)] if t == "Edit package"));
    assert_eq!(app.context_drawer(), Some(ContextPage::EditPackage));
    assert_eq!(app.package_view().unwrap().name, "Fish");

    saved(app.update(Message::PackageDescription("friendly shell".to_string())));
    assert_eq!(app.shells.view()[0].description, "");
    app.update(Message::Saved);
    assert_eq!(app.shells.view()[0].description, "friendly shell");
    saved(app.update(Message::TogglePackage(false)));
    app.update(Message::Saved);
    saved(app.update(Message::PackageTitle("fish".to_string())));
    app.update(Message::Saved);
    assert_eq!(app.shells.view()[0].name, "fish");
    assert!(!app.shells.view()[0].enabled);
    assert_eq!(app.view().view().len(), 1);

    assert!(app.update(Message::ContextDrawerClosed).is_empty());
    assert_eq!(app.context_drawer(), None);
    assert!(app.update(Message::TogglePackage(true)).is_empty());
}

#[test]
fn app_create_appends_in_order() {
    let mut app = AppModel::new(&empty_record());
    saved(app.update(Message::NewPackage("vim".to_string(), apt("vim"), Page::Editors)));
    app.update(Message::Saved);
    saved(app.update(Message::NewPackage("fish".to_string(), apt("fish"), Page::Shells)));
    app.update(Message::Saved);
    assert_eq!(names(app.config().packages()), vec!["vim", "fish"]);
    assert_eq!(names(app.editors.view()), vec!["vim"]);
    assert_eq!(names(app.shells.view()), vec!["fish"]);
}

#[test]
fn app_edits_keep_positions() {
    let mut app = AppModel::new(&empty_record());
    for (name, page) in [("vim", Page::Editors), ("fish", Page::Shells), ("helix", Page::Editors)] {
        saved(app.update(Message::NewPackage(name.to_string(), apt(name), page)));
        app.update(Message::Saved);
    }
    let vim = app.config().packages()[0].id;
    let helix = app.config().packages()[2].id;
    app.update(Message::EditPackage(vim));
    saved(app.update(Message::PackageTitle("neovim".to_string())));
    app.update(Message::Saved);
    app.update(Message::EditPackage(helix));
    saved(app.update(Message::TogglePackage(false)));
    app.update(Message::Saved);
    assert_eq!(names(app.config().packages()), vec!["neovim", "fish", "helix"]);
    assert!(!app.config().packages()[2].enabled);
    assert!(app.config().packages()[0].enabled);
    assert_eq!(names(app.shells.view()), vec!["fish"]);
    assert_eq!(names(app.editors.view()), vec!["neovim", "helix"]);
}

#[test]
fn app_failed_save_changes_nothing() {
    let mut app = AppModel::new(&empty_record());
    saved(app.update(Message::NewPackage("fish".to_string(), apt("fish"), Page::Shells)));
    assert!(app.pending.is_some());
    assert!(app.update(Message::SaveFailed).is_empty());
    assert!(app.pending.is_none());
    assert!(app.config().packages().is_empty());
    app.update(Message::Saved);
    assert!(app.config().packages().is_empty());
    assert!(app.shells.view().is_empty());
}

#[test]
fn app_outside_change_replaces_store() {
    let mut config = Config::new();
    config.create("zsh", apt("zsh"), Page::Shells);
    let mut app = AppModel::new(&empty_record());
    assert!(app.update(Message::UpdateConfig(config.to_record())).is_empty());
    assert_eq!(names(app.shells.view()), vec!["zsh"]);
}

#[test]
fn app_toggle_context_and_navigation() {
    let mut app = AppModel::new(&empty_record());
    let actions = app.update(Message::ToggleContextPage(ContextPage::NewPackage));
    assert!(matches!(&actions[..], [Action::SetContextTitle(t)] if t == "New package"));
    assert_eq!(app.context_drawer(), Some(ContextPage::NewPackage));
    app.update(Message::ToggleContextPage(ContextPage::NewPackage));
    assert_eq!(app.context_drawer(), None);
    let actions = app.update(Message::SelectPage(Page::Editors));
    assert!(matches!(&actions[..], [Action::SetWindowTitle(t)] if t == "Blueprint — Editors"));
    assert_eq!(app.active, Page::Editors);
    assert_eq!(app.view().title(), "Editors");
    let actions = app.update(Message::OpenRepositoryUrl);
    assert!(matches!(&actions[..], [Action::OpenUrl(u)] if u == "https://github.com/edfloreshz/blueprint"));
}
