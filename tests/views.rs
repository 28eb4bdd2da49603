use pacview::appstate::AppState;
use pacview::installed::InstalledWidget;
use pacview::keys::{Key, KeyCode};
use pacview::packages::PackagesWidget;
use pacview::rows::RowColor;
use pacview::structs::{EventCommand, EventResult, Focus, Package, Reason, Tab};
use pacview::update::UpdateWidget;
use pacview::version::ChangeType;

fn pkg(name: &str, deps: &[&str], required_by: &[&str], reason: Reason) -> Package {
    Package {
        name: name.to_string(),
        dependencies: deps.iter().map(|d| d.to_string()).collect(),
        required_by: required_by.iter().map(|d| d.to_string()).collect(),
        reason,
        installed: Some("2024-01-01 10:00:00".to_string()),
        validated: true,
        ..Default::default()
    }
}

fn names(rows: &[pacview::rows::TableRow]) -> Vec<String> {
    rows.iter().map(|r| r.cells[0].clone()).collect()
}

#[test]
fn move_left_without_dependencies_stays_in_centre() {
    let mut w = InstalledWidget::new();
    w.set_data(vec![pkg("a", &[], &[], Reason::Explicit)]);
    assert_eq!(w.focus(), Focus::Centre);
    assert_eq!(w.handle_key_event(&Key::plain(KeyCode::Left)), None);
    assert_eq!(w.focus(), Focus::Centre);
}

#[test]
fn move_left_with_dependencies_resets_left_cursor() {
    let mut w = InstalledWidget::new();
    w.set_data(vec![
        pkg("a", &["b", "c", "zz"], &[], Reason::Explicit),
        pkg("b", &[], &["a"], Reason::Dependency),
        pkg("c", &[], &["a"], Reason::Explicit),
    ]);
    assert_eq!(names(w.left().rows()), vec!["b", "c", "zz"]);
    let colors: Vec<Option<RowColor>> = w.left().rows().iter().map(|r| r.highlight).collect();
    assert_eq!(colors, vec![None, Some(RowColor::Green), Some(RowColor::Red)]);
    w.handle_key_event(&Key::plain(KeyCode::Left));
    assert_eq!(w.focus(), Focus::Left);
    w.handle_key_event(&Key::plain(KeyCode::Down));
    assert_eq!(w.left().current_index(), Some(1));
    w.handle_key_event(&Key::plain(KeyCode::Right));
    assert_eq!(w.focus(), Focus::Centre);
    w.handle_key_event(&Key::plain(KeyCode::Char('h')));
    assert_eq!(w.focus(), Focus::Left);
    assert_eq!(w.left().current_index(), Some(0));
}

#[test]
fn move_right_needs_dependents() {
    let mut w = InstalledWidget::new();
    w.set_data(vec![pkg("a", &[], &[], Reason::Explicit), pkg("b", &[], &["a"], Reason::Dependency)]);
    w.handle_key_event(&Key::plain(KeyCode::Right));
    assert_eq!(w.focus(), Focus::Centre);
    w.handle_key_event(&Key::plain(KeyCode::Down));
    assert_eq!(names(w.right().rows()), vec!["a"]);
    w.handle_key_event(&Key::plain(KeyCode::Char('l')));
    assert_eq!(w.focus(), Focus::Right);
    w.handle_key_event(&Key::plain(KeyCode::Left));
    assert_eq!(w.focus(), Focus::Centre);
}

#[test]
fn enter_goes_to_package_and_back_returns() {
    let mut w = InstalledWidget::new();
    w.set_data(vec![pkg("a", &["c"], &[], Reason::Explicit), pkg("b", &[], &[], Reason::Explicit), pkg("c", &[], &["a"], Reason::Dependency)]);
    w.handle_key_event(&Key::plain(KeyCode::Left));
    assert_eq!(w.focus(), Focus::Left);
    w.handle_key_event(&Key::plain(KeyCode::Enter));
    assert_eq!(w.focus(), Focus::Centre);
    assert_eq!(w.current_package().unwrap().name, "c");
    assert_eq!(w.prev, vec!["a".to_string()]);
    w.handle_key_event(&Key::plain(KeyCode::Backspace));
    assert_eq!(w.current_package().unwrap().name, "a");
    assert!(w.prev.is_empty());
    w.handle_key_event(&Key::plain(KeyCode::Backspace));
    assert_eq!(w.current_package().unwrap().name, "a");
}

#[test]
fn filters_narrow_installed_packages() {
    let mut w = InstalledWidget::new();
    let mut foreign = pkg("f", &[], &[], Reason::Dependency);
    foreign.validated = false;
    let mut not_installed = pkg("n", &[], &[], Reason::Explicit);
    not_installed.installed = None;
    w.set_data(vec![pkg("e", &[], &[], Reason::Explicit), foreign, pkg("d", &[], &["e"], Reason::Dependency), not_installed]);
    assert_eq!(names(w.centre().rows()), vec!["d", "e", "f"]);
    let f_row = &w.centre().rows()[2];
    assert_eq!(f_row.cells, vec!["f", "Dependency", "0", "X", "2024-01-01 10:00:00"]);
    w.handle_key_event(&Key::plain(KeyCode::Char('e')));
    assert_eq!(names(w.centre().rows()), vec!["e"]);
    w.handle_key_event(&Key::plain(KeyCode::Char('e')));
    w.handle_key_event(&Key::plain(KeyCode::Char('f')));
    assert_eq!(names(w.centre().rows()), vec!["f"]);
    w.handle_key_event(&Key::plain(KeyCode::Char('f')));
    w.handle_key_event(&Key::plain(KeyCode::Char('o')));
    assert_eq!(names(w.centre().rows()), vec!["f"]);
}

#[test]
fn remove_asks_for_selected_names() {
    let mut w = InstalledWidget::new();
    w.set_data(vec![pkg("a", &[], &[], Reason::Explicit), pkg("b", &[], &[], Reason::Explicit)]);
    w.handle_key_event(&Key::plain(KeyCode::Char(' ')));
    let r = w.handle_key_event(&Key::plain(KeyCode::Char('r')));
    assert_eq!(r, Some(EventResult::Command(EventCommand::RemoveSelected(vec!["a".to_string()]))));
}

#[test]
fn provided_files_skip_directories() {
    let mut w = InstalledWidget::new();
    let mut p = pkg("a", &[], &[], Reason::Explicit);
    p.provides = vec!["/usr/".to_string(), "/usr/bin/a".to_string()];
    w.set_data(vec![p]);
    assert_eq!(names(w.provides().rows()), vec!["/usr/bin/a"]);
    w.handle_key_event(&Key::plain(KeyCode::Char('P')));
    assert_eq!(w.focus(), Focus::Centre);
    w.handle_key_event(&Key::plain(KeyCode::Char('p')));
    assert!(w.show_providing());
    w.handle_key_event(&Key::plain(KeyCode::Char('P')));
    assert_eq!(w.focus(), Focus::Provides);
    w.handle_key_event(&Key::plain(KeyCode::Char('P')));
    assert_eq!(w.focus(), Focus::Centre);
}

#[test]
fn help_returns_to_centre() {
    let mut s = AppState::new();
    s.change_focus(Focus::Left);
    s.change_focus(Focus::Centre);
    assert_eq!(s.focus(), Focus::Centre);
    assert_eq!(s.handle_key(&Key::plain(KeyCode::Char('?'))), EventResult::Continue);
    assert!(s.show_help());
    assert_eq!(s.focus(), Focus::Help);
    assert_eq!(s.handle_key(&Key::plain(KeyCode::Char('x'))), EventResult::Continue);
    assert!(s.show_help());
    s.handle_key(&Key::plain(KeyCode::Esc));
    assert!(!s.show_help());
    assert_eq!(s.focus(), Focus::Centre);
}

#[test]
fn global_keys() {
    let mut s = AppState::new();
    assert_eq!(s.handle_key(&Key::ctrl(KeyCode::Char('c'))), EventResult::Quit);
    assert_eq!(s.handle_key(&Key::plain(KeyCode::Char('q'))), EventResult::Quit);
    assert_eq!(s.handle_key(&Key::plain(KeyCode::Char('s'))), EventResult::Command(EventCommand::SyncDatabase));
    assert_eq!(s.handle_key(&Key::plain(KeyCode::Tab)), EventResult::Continue);
    assert_eq!(s.tab, Tab::Packages);
    s.handle_key(&Key::plain(KeyCode::BackTab));
    assert_eq!(s.tab, Tab::Installed);
    assert!(s.show_info);
    s.handle_key(&Key::plain(KeyCode::Char('i')));
    assert!(!s.show_info);
}

#[test]
fn update_tables_fills_views() {
    let mut s = AppState::new();
    let mut up = pkg("b", &[], &[], Reason::Explicit);
    up.new_version = Some("2.0".to_string());
    up.change_type = Some(ChangeType::Major);
    let mut repo = pkg("c", &[], &[], Reason::Explicit);
    repo.installed = None;
    s.packages = vec![pkg("a", &[], &[], Reason::Explicit), up, repo];
    s.update_tables();
    assert_eq!(names(s.installed_widget.centre().rows()), vec!["a", "b"]);
    assert_eq!(names(s.packages_widget.table().rows()), vec!["a", "b", "c"]);
    assert_eq!(names(s.update_widget.table().rows()), vec!["b"]);
    assert_eq!(s.current_package().unwrap().name, "a");
}

#[test]
fn tabs_cycle() {
    let mut t = Tab::Installed;
    t.cycle_next();
    assert_eq!(t, Tab::Packages);
    t.cycle_next();
    t.cycle_next();
    assert_eq!(t, Tab::Installed);
    t.cycle_prev();
    assert_eq!(t, Tab::Updates);
    assert_eq!(Tab::values(), vec!["Installed", "Packages", "Updates"]);
    assert_eq!(Tab::Updates.index(), 2);
}

#[test]
fn packages_view_install_request() {
    let mut w = PackagesWidget::new();
    let mut repo = pkg("b", &[], &[], Reason::Explicit);
    repo.installed = None;
    w.set_data(&[pkg("a", &[], &[], Reason::Explicit), repo]);
    assert_eq!(w.table().title().unwrap(), "2 Packages (1 installed)");
    w.handle_key_event(&Key::plain(KeyCode::Down));
    w.handle_key_event(&Key::plain(KeyCode::Char(' ')));
    let r = w.handle_key_event(&Key::plain(KeyCode::Char('u')));
    assert_eq!(r, Some(EventResult::Command(EventCommand::InstallOrUpdateSelected(vec!["b".to_string()]))));
    assert_eq!(w.current_package().unwrap().name, "b");
}

#[test]
fn updates_view_filters_by_change() {
    let mut w = UpdateWidget::new();
    let mk = |name: &str, c: ChangeType| {
        let mut p = pkg(name, &[], &[], Reason::Explicit);
        p.version = "1.0".to_string();
        p.new_version = Some("2.0".to_string());
        p.change_type = Some(c);
        p.new_version_size = Some(1234567);
        p
    };
    w.set_data(&[mk("a", ChangeType::Patch), mk("b", ChangeType::Major), mk("c", ChangeType::Minor)]);
    assert_eq!(names(w.table().rows()), vec!["a", "b", "c"]);
    assert_eq!(w.table().rows()[1].cells[4], "      1,234,567");
    assert_eq!(w.table().rows()[1].highlight, Some(RowColor::Green));
    assert_eq!(w.table().title().unwrap(), "3 Updates (1 Major, 1 Minor, 1 Patch) ");
    w.handle_key_event(&Key::plain(KeyCode::Char('n')));
    assert_eq!(names(w.table().rows()), vec!["b", "c"]);
    w.handle_key_event(&Key::plain(KeyCode::Char('m')));
    assert_eq!(names(w.table().rows()), vec!["b"]);
    assert_eq!(w.table().title().unwrap(), "3 Updates (1 Major, 1 Minor, 1 Patch) Filters: >=Major");
    w.handle_key_event(&Key::plain(KeyCode::Char('a')));
    assert_eq!(names(w.table().rows()), vec!["a", "b", "c"]);
    assert_eq!(w.handle_key_event(&Key::plain(KeyCode::Char('U'))), Some(EventResult::Command(EventCommand::SyncAndUpdateAll)));
    assert_eq!(w.handle_key_event(&Key::plain(KeyCode::Enter)), Some(EventResult::GotoInstalled("a".to_string())));
}

#[test]
fn installed_title_counts_and_filters() {
    let mut w = InstalledWidget::new();
    let mut foreign = pkg("f", &[], &[], Reason::Explicit);
    foreign.validated = false;
    w.set_data(vec![pkg("a", &[], &[], Reason::Explicit), foreign]);
    assert_eq!(w.centre().title().unwrap(), "Installed 2 (1 pacman, 1 foreign) ");
    w.handle_key_event(&Key::plain(KeyCode::Char('e')));
    w.handle_key_event(&Key::plain(KeyCode::Char('f')));
    assert_eq!(w.centre().title().unwrap(), "Installed 1 (0 pacman, 1 foreign) Filters: Explicit, Foreign");
}

#[test]
fn updates_escape_shows_all_changes() {
    let mut w = UpdateWidget::new();
    let mk = |name: &str, c: ChangeType| {
        let mut p = pkg(name, &[], &[], Reason::Explicit);
        p.new_version = Some("2".to_string());
        p.change_type = Some(c);
        p
    };
    w.set_data(&[mk("a", ChangeType::Patch), mk("b", ChangeType::Major)]);
    w.handle_key_event(&Key::plain(KeyCode::Char('m')));
    assert_eq!(names(w.table().rows()), vec!["b"]);
    assert_eq!(w.handle_key_event(&Key::plain(KeyCode::Esc)), Some(EventResult::Continue));
    assert_eq!(names(w.table().rows()), vec!["a", "b"]);
}

#[test]
fn goto_installed_from_updates() {
    let mut s = AppState::new();
    let mut up = pkg("b", &[], &[], Reason::Explicit);
    up.new_version = Some("2.0".to_string());
    up.change_type = Some(ChangeType::Major);
    s.packages = vec![pkg("a", &[], &[], Reason::Explicit), up];
    s.update_tables();
    s.handle_key(&Key::plain(KeyCode::Tab));
    s.handle_key(&Key::plain(KeyCode::Tab));
    assert_eq!(s.tab, Tab::Updates);
    assert_eq!(s.handle_key(&Key::plain(KeyCode::Enter)), EventResult::Continue);
    assert_eq!(s.tab, Tab::Installed);
    assert_eq!(s.current_package().unwrap().name, "b");
}

#[test]
fn app_focus_moves_panels() {
    let mut s = AppState::new();
    s.packages = vec![pkg("a", &["b"], &[], Reason::Explicit), pkg("b", &[], &["a"], Reason::Dependency)];
    s.update_tables();
    s.change_focus(Focus::Left);
    assert_eq!(s.installed_widget.focus(), Focus::Left);
    assert_eq!(s.installed_widget.left().focus_state(), pacview::table::TableFocus::Focused);
    assert_eq!(s.installed_widget.centre().focus_state(), pacview::table::TableFocus::UnfocusedDimmed);
}
