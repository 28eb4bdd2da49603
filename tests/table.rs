use pacview::keys::{Key, KeyCode};
use pacview::rows::{Sort, TableRow};
use pacview::table::{equal_unordered, TableWidget};
use ratatui::layout::Constraint;

fn row(cells: &[&str]) -> TableRow {
    TableRow::new(cells.iter().map(|c| c.to_string()).collect())
}

fn table(columns: &[&str]) -> TableWidget {
    let widths = columns.iter().map(|_| Constraint::Min(1)).collect();
    TableWidget::new(columns, widths)
}

fn firsts(t: &TableWidget) -> Vec<String> {
    t.rows().iter().map(|r| r.cells[0].clone()).collect()
}

fn selected(t: &TableWidget) -> Vec<usize> {
    let mut v = t.selected_indices().clone();
    v.sort();
    v
}

fn press(t: &mut TableWidget, code: KeyCode) -> bool {
    t.handle_key_event(&Key::plain(code))
}

#[test]
fn sort_toggle_scenario() {
    let mut t = table(&["Name"]);
    t.set_data(vec![row(&["b"]), row(&["a"]), row(&["c"])]);
    assert_eq!(firsts(&t), vec!["a", "b", "c"]);
    assert_eq!(t.sort_state(), (0, Sort::Asc));
    assert!(press(&mut t, KeyCode::Char('1')));
    assert_eq!(t.sort_state(), (0, Sort::Desc));
    assert_eq!(firsts(&t), vec!["c", "b", "a"]);
}

#[test]
fn sort_desc_is_reverse_then_asc_again() {
    let mut t = table(&["Name", "Size"]);
    t.set_data(vec![row(&["x", "10"]), row(&["y", "9"]), row(&["z", "100"]), row(&["w", "1"])]);
    assert!(press(&mut t, KeyCode::Char('2')));
    assert_eq!(t.sort_state(), (1, Sort::Asc));
    let asc = firsts(&t);
    assert_eq!(asc, vec!["w", "y", "x", "z"]);
    assert!(press(&mut t, KeyCode::Char('2')));
    let mut desc = firsts(&t);
    desc.reverse();
    assert_eq!(desc, asc);
    assert!(press(&mut t, KeyCode::Char('2')));
    assert_eq!(t.sort_state(), (1, Sort::Asc));
    assert_eq!(firsts(&t), asc);
}

#[test]
fn sort_ties_broken_by_first_column() {
    let mut t = table(&["Name", "Kind"]);
    t.set_data(vec![row(&["b", "k"]), row(&["c", "j"]), row(&["a", "k"])]);
    assert!(press(&mut t, KeyCode::Char('2')));
    assert_eq!(firsts(&t), vec!["c", "a", "b"]);
    assert!(press(&mut t, KeyCode::Char('2')));
    assert_eq!(firsts(&t), vec!["a", "b", "c"]);
}

#[test]
fn sort_column_past_the_last_is_ignored() {
    let mut t = table(&["Name"]);
    t.set_data(vec![row(&["b"]), row(&["a"])]);
    assert!(press(&mut t, KeyCode::Char('5')));
    assert_eq!(t.sort_state(), (0, Sort::Asc));
    assert_eq!(firsts(&t), vec!["a", "b"]);
}

#[test]
fn select_all_toggle_scenario() {
    let mut t = table(&["Name"]);
    t.set_data((1..=5).map(|i| row(&[&i.to_string()])).collect());
    assert!(selected(&t).is_empty());
    assert!(t.handle_key_event(&Key::ctrl(KeyCode::Char('a'))));
    assert_eq!(selected(&t), vec![0, 1, 2, 3, 4]);
    assert_eq!(t.get_selected().len(), 5);
    assert!(t.handle_key_event(&Key::ctrl(KeyCode::Char('a'))));
    assert!(selected(&t).is_empty());
}

#[test]
fn plain_a_is_not_taken() {
    let mut t = table(&["Name"]);
    t.set_data(vec![row(&["a"])]);
    assert!(!press(&mut t, KeyCode::Char('a')));
    assert!(selected(&t).is_empty());
}

#[test]
fn same_rows_in_other_order_change_nothing() {
    let mut t = table(&["Name"]);
    t.set_data(vec![row(&["a"]), row(&["b"]), row(&["c"])]);
    press(&mut t, KeyCode::Down);
    press(&mut t, KeyCode::Char(' '));
    assert_eq!(t.current_index(), Some(2));
    assert_eq!(selected(&t), vec![1]);
    t.set_data(vec![row(&["c"]), row(&["a"]), row(&["b"])]);
    assert_eq!(t.current_index(), Some(2));
    assert_eq!(selected(&t), vec![1]);
}

#[test]
fn new_rows_reset_cursor() {
    let mut t = table(&["Name"]);
    t.set_data(vec![row(&["a"]), row(&["b"])]);
    press(&mut t, KeyCode::End);
    assert_eq!(t.current_index(), Some(1));
    t.set_data(vec![row(&["a"]), row(&["b"]), row(&["c"])]);
    assert_eq!(t.current_index(), Some(0));
    t.set_data(vec![]);
    assert_eq!(t.current_index(), None);
}

#[test]
fn selection_follows_content() {
    let mut t = table(&["Name"]);
    t.set_data(vec![row(&["a"]), row(&["b"]), row(&["c"])]);
    press(&mut t, KeyCode::Char(' '));
    press(&mut t, KeyCode::Char(' '));
    assert_eq!(selected(&t), vec![0, 1]);
    t.set_data(vec![row(&["0"]), row(&["a"]), row(&["c"])]);
    assert_eq!(firsts(&t), vec!["0", "a", "c"]);
    assert_eq!(selected(&t), vec![1]);
}

#[test]
fn cursor_moves_saturate() {
    let mut t = table(&["Name"]);
    t.set_data((0..25).map(|i| row(&[&format!("r{i:02}")])).collect());
    assert_eq!(t.current_index(), Some(0));
    t.safe_move(-3);
    assert_eq!(t.current_index(), Some(0));
    t.safe_move(isize::MAX);
    assert_eq!(t.current_index(), Some(24));
    t.safe_move(1);
    assert_eq!(t.current_index(), Some(24));
    t.safe_move(isize::MIN);
    assert_eq!(t.current_index(), Some(0));
    press(&mut t, KeyCode::PageDown);
    assert_eq!(t.current_index(), Some(10));
    press(&mut t, KeyCode::Char('j'));
    assert_eq!(t.current_index(), Some(11));
    press(&mut t, KeyCode::Up);
    assert_eq!(t.current_index(), Some(10));
    press(&mut t, KeyCode::PageUp);
    press(&mut t, KeyCode::PageUp);
    assert_eq!(t.current_index(), Some(0));
    press(&mut t, KeyCode::End);
    assert_eq!(t.current_index(), Some(24));
    press(&mut t, KeyCode::Home);
    assert_eq!(t.current_index(), Some(0));
}

#[test]
fn moves_in_empty_table_do_nothing() {
    let mut t = table(&["Name"]);
    t.safe_move(5);
    assert_eq!(t.current_index(), None);
    assert!(press(&mut t, KeyCode::Down));
    assert_eq!(t.current_index(), None);
}

#[test]
fn search_filters_case_insensitively() {
    let mut t = table(&["Name", "Info"]);
    t.set_data(vec![
        row(&["Alpha", "first"]),
        row(&["beta", "SECOND alp"]),
        row(&["gamma", "third"]),
    ]);
    assert!(press(&mut t, KeyCode::Char('/')));
    assert!(t.is_search_active());
    assert!(press(&mut t, KeyCode::Char('A')));
    assert!(press(&mut t, KeyCode::Char('l')));
    assert!(press(&mut t, KeyCode::Char('p')));
    assert_eq!(t.get_filter(), "Alp");
    assert_eq!(firsts(&t), vec!["Alpha", "beta"]);
    assert!(press(&mut t, KeyCode::Backspace));
    assert_eq!(t.get_filter(), "Al");
    assert!(press(&mut t, KeyCode::Enter));
    assert!(!t.is_search_active());
    assert_eq!(t.get_filter(), "Al");
    assert_eq!(firsts(&t), vec!["Alpha", "beta"]);
    assert!(press(&mut t, KeyCode::Esc));
    assert_eq!(t.get_filter(), "");
    assert_eq!(firsts(&t), vec!["Alpha", "beta", "gamma"]);
}

#[test]
fn escape_in_search_clears_filter() {
    let mut t = table(&["Name"]);
    t.set_data(vec![row(&["one"]), row(&["two"])]);
    press(&mut t, KeyCode::Char('/'));
    press(&mut t, KeyCode::Char('w'));
    assert_eq!(firsts(&t), vec!["two"]);
    assert!(press(&mut t, KeyCode::Esc));
    assert!(!t.is_search_active());
    assert_eq!(t.get_filter(), "");
    assert_eq!(firsts(&t), vec!["one", "two"]);
}

#[test]
fn search_keeps_cursor_row() {
    let mut t = table(&["Name"]);
    t.set_data(vec![row(&["apple"]), row(&["banana"]), row(&["cherry"])]);
    press(&mut t, KeyCode::Down);
    assert_eq!(t.get_current().unwrap().cells[0], "banana");
    press(&mut t, KeyCode::Char('/'));
    press(&mut t, KeyCode::Char('n'));
    assert_eq!(firsts(&t), vec!["banana"]);
    assert_eq!(t.get_current().unwrap().cells[0], "banana");
    press(&mut t, KeyCode::Char('z'));
    assert!(t.rows().is_empty());
    assert_eq!(t.current_index(), None);
}

#[test]
fn escape_clears_search_and_selection() {
    let mut t = table(&["Name"]);
    t.set_data(vec![row(&["a"]), row(&["b"])]);
    press(&mut t, KeyCode::Char(' '));
    assert_eq!(selected(&t), vec![0]);
    assert!(press(&mut t, KeyCode::Esc));
    assert!(selected(&t).is_empty());
}

#[test]
fn space_toggles_and_advances() {
    let mut t = table(&["Name"]);
    t.set_data(vec![row(&["a"]), row(&["b"])]);
    assert!(press(&mut t, KeyCode::Char(' ')));
    assert_eq!(selected(&t), vec![0]);
    assert_eq!(t.current_index(), Some(1));
    press(&mut t, KeyCode::Char(' '));
    assert_eq!(selected(&t), vec![0, 1]);
    assert_eq!(t.current_index(), Some(1));
    press(&mut t, KeyCode::Char(' '));
    assert_eq!(selected(&t), vec![0]);
    let names: Vec<String> = t.get_selected().iter().map(|r| r.cells[0].clone()).collect();
    assert_eq!(names, vec!["a"]);
}

#[test]
fn other_keys_are_left_to_the_caller() {
    let mut t = table(&["Name"]);
    t.set_data(vec![row(&["a"])]);
    assert!(!press(&mut t, KeyCode::Char('r')));
    assert!(!press(&mut t, KeyCode::Left));
    assert!(!press(&mut t, KeyCode::Char('0')));
}

#[test]
fn unordered_equality_counts_duplicates() {
    let v = |xs: &[&[&str]]| -> Vec<Vec<String>> {
        xs.iter().map(|r| r.iter().map(|c| c.to_string()).collect()).collect()
    };
    assert!(equal_unordered(v(&[&["a"], &["b"]]), v(&[&["b"], &["a"]])));
    assert!(!equal_unordered(v(&[&["a"], &["a"]]), v(&[&["a"]])));
    assert!(!equal_unordered(v(&[&["a"], &["a"]]), v(&[&["a"], &["b"]])));
    assert!(equal_unordered(v(&[]), v(&[])));
}

#[test]
fn title_and_focus() {
    let mut t = table(&["Name"]).with_no_focus();
    assert_eq!(t.focus_state(), pacview::table::TableFocus::Unfocused);
    t.set_title("Packages 3");
    assert_eq!(t.title().unwrap(), "Packages 3");
    t.focus(pacview::table::TableFocus::Focused);
    assert_eq!(t.focus_state(), pacview::table::TableFocus::Focused);
}

#[test]
fn header_marks_sorted_column() {
    let mut t = table(&["Name", "Size"]);
    assert_eq!(t.header_labels(), vec!["Name ↑", "Size"]);
    press(&mut t, KeyCode::Char('2'));
    press(&mut t, KeyCode::Char('2'));
    assert_eq!(t.header_labels(), vec!["Name", "Size ↓"]);
}

#[test]
fn badge_counts_selection() {
    let mut t = table(&["Name"]);
    t.set_data(vec![row(&["a"]), row(&["b"])]);
    assert_eq!(t.selection_badge(), "");
    t.handle_key_event(&Key::ctrl(KeyCode::Char('a')));
    assert_eq!(t.selection_badge(), "2 selected");
}

#[test]
fn search_tab_goes_to_editor() {
    let mut t = table(&["Name"]);
    t.set_data(vec![row(&["a"])]);
    press(&mut t, KeyCode::Char('/'));
    assert!(press(&mut t, KeyCode::Tab));
    assert!(t.is_search_active());
    assert!(t.get_filter().len() >= 1);
}
