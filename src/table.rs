//! The interactive table: a row dataset, the filtered and sorted view of it,
//! a cursor, a multi-selection, a sort key and a live search box.
use vstd::prelude::*;
use ratatui::layout::Constraint;
use tui_textarea::{Input, Key as TaKey, TextArea};
use crate::keys::{Key, KeyCode};
use crate::rows::{
    contents, derive_view, filter_table_rows, find_row, first_at, row_views, same_cells, sort_table_rows,
    RowView, Sort, TableRow,
};
use crate::text::{copy_string, copy_strings, views};
use crate::natural::{decimal, decimal_string};

verus! {

#[verifier::external_type_specification]
#[verifier::external_body]
pub struct ExConstraint(Constraint);

/// Relies on `Constraint::Percentage`: a share of the available width.
#[verifier::external_body]
pub(crate) fn percentage(p: u16) -> Constraint {
    Constraint::Percentage(p)
}

/// Relies on `Constraint::Min`: at least this many cells.
#[verifier::external_body]
pub(crate) fn at_least(n: u16) -> Constraint {
    Constraint::Min(n)
}

/// Relies on `Constraint::Length`: exactly this many cells.
#[verifier::external_body]
pub(crate) fn exactly(n: u16) -> Constraint {
    Constraint::Length(n)
}

/// The search box's line editor, held opaquely: Verus cannot take the
/// editor's type itself.
#[verifier::external_body]
#[derive(Debug)]
pub struct SearchBox {
    area: TextArea<'static>,
}

/// Relies on `TextArea::default` and `TextArea::set_placeholder_text`: an
/// empty one-line editor that shows a hint while empty.
#[verifier::external_body]
fn get_textarea() -> SearchBox {
    let mut area = TextArea::default();
    area.set_placeholder_text("Search...");
    SearchBox { area }
}

/// Relies on `TextArea::input`: the editor applies the key to its text.
#[verifier::external_body]
fn search_input(search: &mut SearchBox, key: &Key) {
    let code = match key.code {
        KeyCode::Char(c) => TaKey::Char(c), KeyCode::Up => TaKey::Up, KeyCode::Down => TaKey::Down,
        KeyCode::Left => TaKey::Left, KeyCode::Right => TaKey::Right, KeyCode::Home => TaKey::Home,
        KeyCode::End => TaKey::End, KeyCode::PageUp => TaKey::PageUp, KeyCode::PageDown => TaKey::PageDown,
        KeyCode::Enter => TaKey::Enter, KeyCode::Esc => TaKey::Esc, KeyCode::Backspace => TaKey::Backspace,
        KeyCode::Delete => TaKey::Delete, KeyCode::Tab | KeyCode::BackTab => TaKey::Tab, KeyCode::Other => TaKey::Null,
    };
    search.area.input(Input { key: code, ctrl: key.ctrl, alt: key.alt, shift: key.shift });
}

/// Relies on `TextArea::lines`: the editor's lines, joined by spaces.
#[verifier::external_body]
fn search_text(search: &SearchBox) -> String {
    search.area.lines().join(" ")
}

/// How strongly a table shows that it has the keyboard.
#[derive(Clone, Copy, Debug, PartialEq, Eq, Structural)]
pub enum TableFocus {
    /// Full highlight of the cursor row and of the selection.
    Focused,
    /// No cursor highlight.
    UnfocusedDimmed,
    /// A neutral cursor highlight.
    Unfocused,
}

/// The positions `0 .. n`.
pub open spec fn all_positions(n: int) -> Set<int> {
    Set::new(|i: int| 0 <= i < n)
}

/// The set of indices that a list of indices holds.
pub open spec fn index_set(sel: Seq<usize>) -> Set<int> {
    Set::new(|i: int| exists|k: int| 0 <= k < sel.len() && sel[k] as int == i)
}

/// Where the selected rows of `old` stand in `new`: the first position of
/// each one's content, for those that are still present.
pub open spec fn relocated(old: Seq<RowView>, sel: Set<int>, new: Seq<RowView>) -> Set<int> {
    Set::new(
        |j: int|
            exists|i: int| sel.contains(i) && 0 <= i < old.len() && #[trigger] first_at(new, old[i].0, j),
    )
}

/// Where the cursor goes when the view changes from `old` to `new`: to the
/// first row with the content of the old cursor row if there is one,
/// otherwise to the top, and nowhere in an empty view.
pub open spec fn relocated_cursor(old: Seq<RowView>, cur: Option<usize>, new: Seq<RowView>) -> Option<usize> {
    if cur is Some && cur.unwrap() < old.len() && exists|j: int| first_at(new, old[cur.unwrap() as int].0, j) {
        Some((choose|j: int| first_at(new, old[cur.unwrap() as int].0, j)) as usize)
    } else if new.len() > 0 {
        Some(0)
    } else {
        None
    }
}

/// `cur + change`, kept within `0 ..= len - 1`.
pub open spec fn clamp_move(cur: int, change: int, len: int) -> int {
    if cur + change < 0 {
        0
    } else if cur + change > len - 1 {
        len - 1
    } else {
        cur + change
    }
}

/// The contents of a list of rows, as multisets of cell sequences.
pub open spec fn cells_views(a: Seq<Vec<String>>) -> Seq<Seq<Seq<char>>> {
    a.map_values(|c: Vec<String>| views(c@))
}

pub proof fn lemma_first_at_unique(s: Seq<RowView>, x: Seq<Seq<char>>, j1: int, j2: int)
    requires
        first_at(s, x, j1),
        first_at(s, x, j2),
    ensures
        j1 == j2,
{
    if j1 < j2 {
        assert(s[j1].0 != x);
    } else if j2 < j1 {
        assert(s[j2].0 != x);
    }
}

/// The table widget.
#[derive(Debug)]
pub struct TableWidget {
    pub(crate) columns: Vec<String>,
    pub(crate) widths: Vec<Constraint>,
    pub(crate) data: Vec<TableRow>,
    pub(crate) filtered: Vec<TableRow>,
    pub(crate) current: Option<usize>,
    pub(crate) sort_col: usize,
    pub(crate) sort_dir: Sort,
    pub(crate) selected: Vec<usize>,
    pub(crate) title: Option<String>,
    pub(crate) focus_type: TableFocus,
    pub(crate) search_box: SearchBox,
    pub(crate) filter: String,
    pub(crate) searching: bool,
}

impl TableWidget {
    /// The rows as set by the owner.
    pub open(crate) spec fn data_view(&self) -> Seq<RowView> {
        row_views(self.data@)
    }

    /// The rows shown: filtered by the search text, then sorted.
    pub open(crate) spec fn shown(&self) -> Seq<RowView> {
        row_views(self.filtered@)
    }

    pub open(crate) spec fn cursor(&self) -> Option<usize> {
        self.current
    }

    pub open(crate) spec fn selection(&self) -> Set<int> {
        index_set(self.selected@)
    }

    pub open(crate) spec fn filter_text(&self) -> Seq<char> {
        self.filter@
    }

    pub open(crate) spec fn sort_key(&self) -> (usize, Sort) {
        (self.sort_col, self.sort_dir)
    }

    pub open(crate) spec fn is_searching(&self) -> bool {
        self.searching
    }

    pub open(crate) spec fn selected_list(&self) -> Seq<usize> {
        self.selected@
    }

    pub open(crate) spec fn columns_view(&self) -> Seq<Seq<char>> {
        views(self.columns@)
    }

    pub open(crate) spec fn column_count(&self) -> nat {
        self.columns@.len()
    }

    pub open(crate) spec fn focus_level(&self) -> TableFocus {
        self.focus_type
    }

    pub open(crate) spec fn title_text(&self) -> Option<Seq<char>> {
        match self.title {
            Some(t) => Some(t@),
            None => None,
        }
    }

    /// The view is derived from the rows, the cursor stands on a row exactly
    /// when there is one, and the selection holds distinct positions of the view.
    pub open(crate) spec fn wf(&self) -> bool {
        &&& self.shown() == derive_view(self.data_view(), self.filter@, self.sort_col as int, self.sort_dir)
        &&& match self.current {
            None => self.filtered@.len() == 0,
            Some(i) => i < self.filtered@.len(),
        }
        &&& self.selected@.no_duplicates()
        &&& forall|k: int| 0 <= k < self.selected@.len() ==> #[trigger] self.selected@[k] < self.filtered@.len()
    }

    /// Everything but the rows, the view, the cursor and the selection is as in `other`.
    pub open(crate) spec fn same_settings(&self, other: &TableWidget) -> bool {
        &&& self.columns == other.columns
        &&& self.widths == other.widths
        &&& self.sort_col == other.sort_col
        &&& self.sort_dir == other.sort_dir
        &&& self.title == other.title
        &&& self.focus_type == other.focus_type
        &&& self.search_box == other.search_box
        &&& self.filter == other.filter
        &&& self.searching == other.searching
    }
}


/// The selected positions of `old` that the first `k` entries of `sel` name,
/// relocated into `new`.
pub open spec fn relocated_prefix(old: Seq<RowView>, sel: Seq<usize>, new: Seq<RowView>, k: int) -> Set<int> {
    Set::new(
        |j: int| exists|m: int| 0 <= m < k && #[trigger] first_at(new, old[sel[m] as int].0, j),
    )
}

/// The rows of `s` at positions in `sel`, in the order of `s`.
pub open spec fn pick(s: Seq<RowView>, sel: Set<int>) -> Seq<RowView>
    decreases s.len(),
{
    if s.len() == 0 {
        s
    } else if sel.contains(s.len() - 1) {
        pick(s.drop_last(), sel).push(s.last())
    } else {
        pick(s.drop_last(), sel)
    }
}

/// Two row lists hold the same contents, counted with multiplicity, in any order.
pub open spec fn same_contents(a: Seq<RowView>, b: Seq<RowView>) -> bool {
    contents(a).to_multiset() == contents(b).to_multiset()
}

fn contains_index(v: &Vec<usize>, x: usize) -> (r: bool)
    ensures
        r == v@.contains(x),
{
    let mut i: usize = 0;
    while i < v.len()
        invariant
            i <= v@.len(),
            forall|k: int| 0 <= k < i ==> v@[k] != x,
        decreases v.len() - i,
    {
        if v[i] == x {
            return true;
        }
        i = i + 1;
    }
    false
}

/// Moves each selected row of `old_rows` to the first position of its content
/// in `new_rows`, dropping those that are gone.
fn relocate_selection(old_rows: &Vec<TableRow>, old_sel: &Vec<usize>, new_rows: &Vec<TableRow>) -> (r: Vec<usize>)
    requires
        forall|k: int| 0 <= k < old_sel@.len() ==> #[trigger] old_sel@[k] < old_rows@.len(),
    ensures
        index_set(r@) == relocated(row_views(old_rows@), index_set(old_sel@), row_views(new_rows@)),
        r@.no_duplicates(),
        forall|k: int| 0 <= k < r@.len() ==> #[trigger] r@[k] < new_rows@.len(),
{
    let ghost old = row_views(old_rows@);
    let ghost new = row_views(new_rows@);
    let mut r: Vec<usize> = Vec::new();
    let mut k: usize = 0;
    while k < old_sel.len()
        invariant
            old == row_views(old_rows@),
            new == row_views(new_rows@),
            forall|m: int| 0 <= m < old_sel@.len() ==> #[trigger] old_sel@[m] < old_rows@.len(),
            k <= old_sel@.len(),
            index_set(r@) == relocated_prefix(old, old_sel@, new, k as int),
            r@.no_duplicates(),
            forall|m: int| 0 <= m < r@.len() ==> #[trigger] r@[m] < new_rows@.len(),
        decreases old_sel.len() - k,
    {
        let i = old_sel[k];
        assert(old[i as int] == old_rows@[i as int]@);
        let found = find_row(new_rows, &old_rows[i].cells);
        let ghost before = r@;
        match found {
            Some(j) => {
                if !contains_index(&r, j) {
                    r.push(j);
                    assert(r@ == before.push(j));
                }
                proof {
                    assert forall|x: int| index_set(r@).contains(x) == relocated_prefix(old, old_sel@, new, k + 1).contains(x) by {
                        if index_set(r@).contains(x) {
                            let w = choose|w: int| 0 <= w < r@.len() && r@[w] as int == x;
                            if w < before.len() {
                                assert(index_set(before).contains(x));
                                let m = choose|m: int| 0 <= m < k && #[trigger] first_at(new, old[old_sel@[m] as int].0, x);
                                assert(0 <= m < k + 1 && first_at(new, old[old_sel@[m] as int].0, x));
                            } else {
                                assert(first_at(new, old[old_sel@[k as int] as int].0, x));
                            }
                        }
                        if relocated_prefix(old, old_sel@, new, k + 1).contains(x) {
                            let m = choose|m: int| 0 <= m < k + 1 && #[trigger] first_at(new, old[old_sel@[m] as int].0, x);
                            if m < k {
                                assert(relocated_prefix(old, old_sel@, new, k as int).contains(x));
                                let w = choose|w: int| 0 <= w < before.len() && before[w] as int == x;
                                assert(r@[w] == before[w]);
                            } else {
                                lemma_first_at_unique(new, old[i as int].0, x, j as int);
                                if before.contains(j) {
                                    let w = choose|w: int| 0 <= w < before.len() && before[w] == j;
                                    assert(r@[w] == before[w]);
                                } else {
                                    assert(r@[before.len() as int] == j);
                                }
                            }
                        }
                    }
                    assert(index_set(r@) =~= relocated_prefix(old, old_sel@, new, k + 1));
                }
            },
            None => {
                proof {
                    assert forall|x: int| index_set(r@).contains(x) == relocated_prefix(old, old_sel@, new, k + 1).contains(x) by {
                        if relocated_prefix(old, old_sel@, new, k + 1).contains(x) {
                            let m = choose|m: int| 0 <= m < k + 1 && #[trigger] first_at(new, old[old_sel@[m] as int].0, x);
                            if m == k {
                                assert(new[x] == new_rows@[x]@);
                                assert(false);
                            }
                            assert(relocated_prefix(old, old_sel@, new, k as int).contains(x));
                        }
                        if index_set(r@).contains(x) {
                            let m = choose|m: int| 0 <= m < k && #[trigger] first_at(new, old[old_sel@[m] as int].0, x);
                            assert(0 <= m < k + 1);
                        }
                    }
                    assert(index_set(r@) =~= relocated_prefix(old, old_sel@, new, k + 1));
                }
            },
        }
        k = k + 1;
    }
    proof {
        assert forall|x: int| index_set(r@).contains(x) == relocated(old, index_set(old_sel@), new).contains(x) by {
            if relocated_prefix(old, old_sel@, new, k as int).contains(x) {
                let m = choose|m: int| 0 <= m < k && #[trigger] first_at(new, old[old_sel@[m] as int].0, x);
                let i = old_sel@[m] as int;
                assert(index_set(old_sel@).contains(i));
                assert(index_set(old_sel@).contains(i) && 0 <= i < old.len() && first_at(new, old[i].0, x));
            }
            if relocated(old, index_set(old_sel@), new).contains(x) {
                let i = choose|i: int| index_set(old_sel@).contains(i) && 0 <= i < old.len() && #[trigger] first_at(new, old[i].0, x);
                let m = choose|m: int| 0 <= m < old_sel@.len() && old_sel@[m] as int == i;
                assert(first_at(new, old[old_sel@[m] as int].0, x));
            }
        }
        assert(index_set(r@) =~= relocated(old, index_set(old_sel@), new));
    }
    r
}

/// Where the cursor goes when the view changes from `old_rows` to `new_rows`.
fn relocate_cursor(old_rows: &Vec<TableRow>, cur: Option<usize>, new_rows: &Vec<TableRow>) -> (r: Option<usize>)
    ensures
        r == relocated_cursor(row_views(old_rows@), cur, row_views(new_rows@)),
{
    let ghost old = row_views(old_rows@);
    let ghost new = row_views(new_rows@);
    if let Some(c) = cur {
        if c < old_rows.len() {
            assert(old[c as int] == old_rows@[c as int]@);
            match find_row(new_rows, &old_rows[c].cells) {
                Some(j) => {
                    proof {
                        let w = choose|w: int| first_at(new, old[c as int].0, w);
                        lemma_first_at_unique(new, old[c as int].0, w, j as int);
                    }
                    return Some(j);
                },
                None => {
                    proof {
                        assert forall|w: int| !first_at(new, old[c as int].0, w) by {
                            if 0 <= w < new.len() {
                                assert(new[w] == new_rows@[w]@);
                            }
                        }
                    }
                },
            }
        }
    }
    if new_rows.len() > 0 {
        Some(0)
    } else {
        None
    }
}

/// Whether two lists of rows hold the same contents, counted with
/// multiplicity, in any order.
pub fn equal_unordered(a: Vec<Vec<String>>, b: Vec<Vec<String>>) -> (r: bool)
    ensures
        r == (cells_views(a@).to_multiset() == cells_views(b@).to_multiset()),
{
    broadcast use vstd::seq_lib::group_to_multiset_ensures;
    let ghost va = cells_views(a@);
    let ghost vb = cells_views(b@);
    if a.len() != b.len() {
        assert(va.to_multiset().len() != vb.to_multiset().len());
        return false;
    }
    let mut i: usize = 0;
    while i < a.len()
        invariant
            va == cells_views(a@),
            vb == cells_views(b@),
            i <= a@.len(),
            forall|j: int| 0 <= j < i ==> va.to_multiset().count(#[trigger] va[j]) == vb.to_multiset().count(va[j]),
        decreases a.len() - i,
    {
        let ca = count_in(&a, &a[i]);
        let cb = count_in(&b, &a[i]);
        assert(va[i as int] == views(a@[i as int]@));
        if ca != cb {
            return false;
        }
        i = i + 1;
    }
    let mut i: usize = 0;
    while i < b.len()
        invariant
            va == cells_views(a@),
            vb == cells_views(b@),
            i <= b@.len(),
            forall|j: int| 0 <= j < a@.len() ==> va.to_multiset().count(#[trigger] va[j]) == vb.to_multiset().count(va[j]),
            forall|j: int| 0 <= j < i ==> va.to_multiset().count(#[trigger] vb[j]) == vb.to_multiset().count(vb[j]),
        decreases b.len() - i,
    {
        let ca = count_in(&a, &b[i]);
        let cb = count_in(&b, &b[i]);
        assert(vb[i as int] == views(b@[i as int]@));
        if ca != cb {
            return false;
        }
        i = i + 1;
    }
    proof {
        assert forall|x: Seq<Seq<char>>| va.to_multiset().count(x) == vb.to_multiset().count(x) by {
            if va.to_multiset().count(x) > 0 {
                assert(va.contains(x));
                let j = choose|j: int| 0 <= j < va.len() && va[j] == x;
            } else if vb.to_multiset().count(x) > 0 {
                assert(vb.contains(x));
                let j = choose|j: int| 0 <= j < vb.len() && vb[j] == x;
            }
        }
        assert(va.to_multiset() =~= vb.to_multiset());
    }
    true
}

/// How many rows of `a` have the content `x`.
fn count_in(a: &Vec<Vec<String>>, x: &Vec<String>) -> (r: usize)
    ensures
        r == cells_views(a@).to_multiset().count(views(x@)),
{
    broadcast use vstd::seq_lib::group_to_multiset_ensures;
    let ghost va = cells_views(a@);
    let mut c: usize = 0;
    let mut i: usize = 0;
    assert(va.take(0) =~= Seq::<Seq<Seq<char>>>::empty());
    while i < a.len()
        invariant
            va == cells_views(a@),
            i <= a@.len(),
            c <= i,
            c == va.take(i as int).to_multiset().count(views(x@)),
        decreases a.len() - i,
    {
        proof {
            let t = va.take(i as int);
            assert(va.take(i + 1) =~= t.push(va[i as int]));
            vstd::seq_lib::to_multiset_build(t, va[i as int]);
            assert(va.take(i + 1).to_multiset() =~= t.to_multiset().insert(va[i as int]));
        }
        assert(va[i as int] == views(a@[i as int]@));
        if same_cells(&a[i], x) {
            c = c + 1;
        }
        i = i + 1;
    }
    assert(va.take(i as int) =~= va);
    c
}


/// A cursor move by `change` rows, saturating at both ends of a view of `len` rows.
pub open spec fn moved(cur: Option<usize>, change: int, len: int) -> Option<usize> {
    if len == 0 {
        cur
    } else {
        Some(clamp_move(cur.unwrap() as int, change, len) as usize)
    }
}

impl TableWidget {
    /// The cursor and selection are positions of the current view.
    pub open(crate) spec fn indices_ok(&self) -> bool {
        &&& match self.current {
            None => true,
            Some(i) => i < self.filtered@.len(),
        }
        &&& forall|k: int| 0 <= k < self.selected@.len() ==> #[trigger] self.selected@[k] < self.filtered@.len()
    }

    /// A table with the given column headers and widths, no rows, sorted by
    /// the first column ascending.
    pub fn new(columns: &[&str], widths: Vec<Constraint>) -> (r: TableWidget)
        ensures
            r.wf(),
            r.data_view().len() == 0,
            r.shown().len() == 0,
            r.cursor().is_none(),
            r.selection() == Set::<int>::empty(),
            r.sort_key() == (0usize, Sort::Asc),
            r.column_count() == columns@.len(),
            r.filter_text().len() == 0,
            !r.is_searching(),
            r.focus_level() == TableFocus::Focused,
            r.title_text().is_none(),
    {
        let mut cols: Vec<String> = Vec::new();
        let mut i: usize = 0;
        while i < columns.len()
            invariant
                i <= columns@.len(),
                cols@.len() == i,
            decreases columns.len() - i,
        {
            cols.push(String::from_str(columns[i]));
            i = i + 1;
        }
        let r = TableWidget {
            columns: cols,
            widths,
            data: Vec::new(),
            filtered: Vec::new(),
            current: None,
            sort_col: 0,
            sort_dir: Sort::Asc,
            selected: Vec::new(),
            title: None,
            focus_type: TableFocus::Focused,
            search_box: get_textarea(),
            filter: String::new(),
            searching: false,
        };
        assert(r.shown() =~= derive_view(r.data_view(), r.filter_text(), 0, Sort::Asc));
        assert(r.selection() =~= Set::<int>::empty());
        r
    }

    /// The same table, drawn as not having the keyboard.
    pub fn with_no_focus(self) -> (r: TableWidget)
        ensures
            r.focus_level() == TableFocus::Unfocused,
            r.data_view() == self.data_view(),
            r.shown() == self.shown(),
            r.cursor() == self.cursor(),
            r.selected_list() == self.selected_list(),
            r.filter_text() == self.filter_text(),
            r.sort_key() == self.sort_key(),
            r.is_searching() == self.is_searching(),
            r.columns_view() == self.columns_view(),
            r.title_text() == self.title_text(),
    {
        TableWidget { focus_type: TableFocus::Unfocused, ..self }
    }

    pub fn focus(&mut self, focus: TableFocus)
        ensures
            old(self).wf() ==> final(self).wf(),
            final(self).focus_level() == focus,
            final(self).data_view() == old(self).data_view(),
            final(self).shown() == old(self).shown(),
            final(self).cursor() == old(self).cursor(),
            final(self).selected_list() == old(self).selected_list(),
            final(self).filter_text() == old(self).filter_text(),
            final(self).sort_key() == old(self).sort_key(),
            final(self).is_searching() == old(self).is_searching(),
            final(self).title_text() == old(self).title_text(),
            final(self).columns_view() == old(self).columns_view(),
    {
        self.focus_type = focus;
    }

    pub fn set_title(&mut self, title: &str)
        ensures
            old(self).wf() ==> final(self).wf(),
            final(self).title_text() == Some(title@),
            final(self).data_view() == old(self).data_view(),
            final(self).shown() == old(self).shown(),
            final(self).cursor() == old(self).cursor(),
            final(self).selected_list() == old(self).selected_list(),
            final(self).filter_text() == old(self).filter_text(),
            final(self).sort_key() == old(self).sort_key(),
            final(self).is_searching() == old(self).is_searching(),
            final(self).focus_level() == old(self).focus_level(),
            final(self).columns_view() == old(self).columns_view(),
    {
        self.title = Some(String::from_str(title));
    }

    /// Recomputes the view from the rows, the search text and the sort key.
    /// The selected rows and (when `keep_cursor`) the cursor row follow their
    /// content into the new view; otherwise the cursor goes to the top.
    fn update_filtered(&mut self, keep_cursor: bool)
        requires
            old(self).indices_ok(),
            old(self).selected_list().no_duplicates(),
        ensures
            final(self).wf(),
            final(self).shown() == derive_view(old(self).data_view(), old(self).filter_text(), old(self).sort_key().0 as int, old(self).sort_key().1),
            final(self).selection() == relocated(old(self).shown(), old(self).selection(), final(self).shown()),
            keep_cursor ==> final(self).cursor() == relocated_cursor(old(self).shown(), old(self).cursor(), final(self).shown()),
            !keep_cursor ==> final(self).cursor() == (if final(self).shown().len() == 0 { None } else { Some(0usize) }),
            final(self).same_settings(old(self)),
            final(self).data_view() == old(self).data_view(),
    {
        let kept = filter_table_rows(&self.data, &self.filter);
        let sorted = sort_table_rows(kept, self.sort_col, self.sort_dir);
        let sel = relocate_selection(&self.filtered, &self.selected, &sorted);
        let cur = if keep_cursor {
            relocate_cursor(&self.filtered, self.current, &sorted)
        } else if sorted.len() > 0 {
            Some(0)
        } else {
            None
        };
        self.filtered = sorted;
        self.selected = sel;
        self.current = cur;
        proof {
            if self.current is Some && keep_cursor {
                let c = old(self).cursor();
                if c is Some && c.unwrap() < old(self).shown().len() && exists|j: int| first_at(self.shown(), old(self).shown()[c.unwrap() as int].0, j) {
                    let j = choose|j: int| first_at(self.shown(), old(self).shown()[c.unwrap() as int].0, j);
                    assert(self.shown().len() == self.filtered@.len());
                }
            }
        }
    }

    /// Replaces the rows. Nothing changes when the new rows hold the same
    /// contents as the current ones in any order. Otherwise the view is
    /// recomputed, the cursor goes to the top and the selected rows keep
    /// their selection where their content is still shown.
    pub fn set_data(&mut self, rows: Vec<TableRow>)
        requires
            old(self).wf(),
        ensures
            final(self).wf(),
            Self::set_data_result(*old(self), row_views(rows@), *final(self)),
    {
        let new_cells = row_cells(&rows);
        let old_cells = row_cells(&self.data);
        if equal_unordered(new_cells, old_cells) {
            return;
        }
        self.data = rows;
        self.update_filtered(false);
    }

    /// Moves the cursor by `change` rows, stopping at the first and last row.
    pub fn safe_move(&mut self, change: isize)
        requires
            old(self).wf(),
        ensures
            final(self).wf(),
            final(self).cursor() == moved(old(self).cursor(), change as int, old(self).shown().len() as int),
            final(self).data_view() == old(self).data_view(),
            final(self).shown() == old(self).shown(),
            final(self).selected_list() == old(self).selected_list(),
            final(self).same_settings(old(self)),
    {
        if self.filtered.len() == 0 {
            return;
        }
        let len = self.filtered.len();
        let cur = match self.current {
            Some(c) => c,
            None => 0,
        };
        let target: i128 = cur as i128 + change as i128;
        let next: usize = if target < 0 {
            0
        } else if target > (len - 1) as i128 {
            len - 1
        } else {
            target as usize
        };
        self.current = Some(next);
    }

    /// Chooses the sort column: the same column again flips the direction, a
    /// new one sorts ascending. A column past the last one changes nothing.
    /// The view is re-sorted; the cursor and selection follow their rows.
    pub fn set_sort(&mut self, column_index: usize)
        requires
            old(self).wf(),
        ensures
            final(self).wf(),
            column_index >= old(self).column_count() ==> *final(self) == *old(self),
            column_index < old(self).column_count() ==> {
                &&& final(self).sort_key() == (if old(self).sort_key().0 == column_index {
                    (column_index, if old(self).sort_key().1 == Sort::Asc { Sort::Desc } else { Sort::Asc })
                } else {
                    (column_index, Sort::Asc)
                })
                &&& final(self).shown() == derive_view(old(self).data_view(), old(self).filter_text(), column_index as int, final(self).sort_key().1)
                &&& final(self).selection() == relocated(old(self).shown(), old(self).selection(), final(self).shown())
                &&& final(self).cursor() == relocated_cursor(old(self).shown(), old(self).cursor(), final(self).shown())
                &&& final(self).data_view() == old(self).data_view()
                &&& final(self).filter_text() == old(self).filter_text()
                &&& final(self).is_searching() == old(self).is_searching()
                &&& final(self).columns_view() == old(self).columns_view()
                &&& final(self).title_text() == old(self).title_text()
                &&& final(self).focus_level() == old(self).focus_level()
            },
    {
        if column_index >= self.columns.len() {
            return;
        }
        if self.sort_col == column_index {
            self.sort_dir = match self.sort_dir {
                Sort::Asc => Sort::Desc,
                Sort::Desc => Sort::Asc,
            };
        } else {
            self.sort_col = column_index;
            self.sort_dir = Sort::Asc;
        }
        self.update_filtered(true);
    }

    pub fn clear_selection(&mut self)
        requires
            old(self).wf(),
        ensures
            final(self).wf(),
            final(self).selection() == Set::<int>::empty(),
            final(self).data_view() == old(self).data_view(),
            final(self).shown() == old(self).shown(),
            final(self).cursor() == old(self).cursor(),
            final(self).same_settings(old(self)),
    {
        self.selected = Vec::new();
        assert(self.selection() =~= Set::<int>::empty());
    }

    /// Selects every row of the view.
    pub fn select_all(&mut self)
        requires
            old(self).wf(),
        ensures
            final(self).wf(),
            final(self).selection() == all_positions(old(self).shown().len() as int),
            final(self).data_view() == old(self).data_view(),
            final(self).shown() == old(self).shown(),
            final(self).cursor() == old(self).cursor(),
            final(self).same_settings(old(self)),
    {
        let mut sel: Vec<usize> = Vec::new();
        let n = self.filtered.len();
        let mut i: usize = 0;
        while i < n
            invariant
                n == self.filtered@.len(),
                i <= n,
                sel@.len() == i,
                forall|k: int| 0 <= k < i ==> #[trigger] sel@[k] == k,
            decreases n - i,
        {
            sel.push(i);
            i = i + 1;
        }
        self.selected = sel;
        proof {
            assert forall|x: int| self.selection().contains(x) == (0 <= x < n) by {
                if 0 <= x < n {
                    assert(self.selected@[x] as int == x);
                }
            }
            assert(self.selection() =~= all_positions(old(self).shown().len() as int));
        }
    }

    /// Selects the whole view, or clears the selection when it already
    /// covers the whole view.
    pub fn toggle_select_all(&mut self)
        requires
            old(self).wf(),
        ensures
            final(self).wf(),
            final(self).selection() == (if old(self).selection() == all_positions(old(self).shown().len() as int) {
                Set::<int>::empty()
            } else {
                all_positions(old(self).shown().len() as int)
            }),
            final(self).data_view() == old(self).data_view(),
            final(self).shown() == old(self).shown(),
            final(self).cursor() == old(self).cursor(),
            final(self).same_settings(old(self)),
    {
        let ghost all = all_positions(old(self).shown().len() as int);
        if self.selected.len() == self.filtered.len() {
            proof {
                lemma_full_selection(self.selected@, self.filtered@.len());
            }
            self.clear_selection();
        } else {
            proof {
                if self.selection() == all {
                    lemma_selection_size(self.selected@, self.filtered@.len());
                }
            }
            self.select_all();
        }
    }

    /// Adds the cursor row to the selection, or takes it out, then moves
    /// the cursor down one row.
    pub fn toggle_current(&mut self)
        requires
            old(self).wf(),
        ensures
            final(self).wf(),
            old(self).cursor().is_none() ==> *final(self) == *old(self),
            old(self).cursor().is_some() ==> {
                let c = old(self).cursor().unwrap() as int;
                &&& final(self).selection() == (if old(self).selection().contains(c) {
                    old(self).selection().remove(c)
                } else {
                    old(self).selection().insert(c)
                })
                &&& final(self).cursor() == moved(old(self).cursor(), 1, old(self).shown().len() as int)
            },
            final(self).data_view() == old(self).data_view(),
            final(self).shown() == old(self).shown(),
            final(self).same_settings(old(self)),
    {
        if let Some(c) = self.current {
            let ghost old_sel = self.selected@;
            let ghost old_set = self.selection();
            match position_of(&self.selected, c) {
                Some(p) => {
                    self.selected.remove(p);
                    proof {
                        assert(old_set.contains(c as int));
                        assert forall|y: int| self.selection().contains(y) == old_set.remove(c as int).contains(y) by {
                            if self.selection().contains(y) {
                                let w = choose|w: int| 0 <= w < self.selected@.len() && self.selected@[w] as int == y;
                                if w < p {
                                    assert(old_sel[w] as int == y);
                                } else {
                                    assert(old_sel[w + 1] as int == y);
                                    assert(old_sel[w + 1] != old_sel[p as int]);
                                }
                            }
                            if old_set.remove(c as int).contains(y) {
                                let w = choose|w: int| 0 <= w < old_sel.len() && old_sel[w] as int == y;
                                if w < p {
                                    assert(self.selected@[w] as int == y);
                                } else {
                                    assert(w != p);
                                    assert(self.selected@[w - 1] as int == y);
                                }
                            }
                        }
                        assert(self.selection() =~= old_set.remove(c as int));
                        assert(self.selected@.no_duplicates()) by {
                            assert forall|a: int, b: int| 0 <= a < b < self.selected@.len() implies self.selected@[a] != self.selected@[b] by {
                                let a2 = if a < p { a } else { a + 1 };
                                let b2 = if b < p { b } else { b + 1 };
                                assert(self.selected@[a] == old_sel[a2]);
                                assert(self.selected@[b] == old_sel[b2]);
                            }
                        }
                        assert forall|k: int| 0 <= k < self.selected@.len() implies #[trigger] self.selected@[k] < self.filtered@.len() by {
                            let k2 = if k < p { k } else { k + 1 };
                            assert(self.selected@[k] == old_sel[k2]);
                        }
                    }
                },
                None => {
                    self.selected.push(c);
                    proof {
                        assert(!old_sel.contains(c));
                        assert forall|y: int| self.selection().contains(y) == old_set.insert(c as int).contains(y) by {
                            if y == c as int {
                                assert(self.selected@[old_sel.len() as int] == c);
                            }
                            if self.selection().contains(y) && y != c as int {
                                let w = choose|w: int| 0 <= w < self.selected@.len() && self.selected@[w] as int == y;
                                assert(old_sel[w] as int == y);
                            }
                            if old_set.contains(y) {
                                let w = choose|w: int| 0 <= w < old_sel.len() && old_sel[w] as int == y;
                                assert(self.selected@[w] as int == y);
                            }
                        }
                        assert(self.selection() =~= old_set.insert(c as int));
                        assert(self.selected@.no_duplicates()) by {
                            assert forall|a: int, b: int| 0 <= a < b < self.selected@.len() implies self.selected@[a] != self.selected@[b] by {
                                if b == old_sel.len() {
                                    assert(old_sel[a] == self.selected@[a]);
                                    assert(old_sel.contains(self.selected@[a]));
                                }
                            }
                        }
                    }
                },
            }
            self.safe_move(1);
        }
    }
}

fn position_of(v: &Vec<usize>, x: usize) -> (r: Option<usize>)
    ensures
        r.is_some() ==> r.unwrap() < v@.len() && v@[r.unwrap() as int] == x,
        r.is_none() ==> !v@.contains(x),
{
    let mut i: usize = 0;
    while i < v.len()
        invariant
            i <= v@.len(),
            forall|k: int| 0 <= k < i ==> v@[k] != x,
        decreases v.len() - i,
    {
        if v[i] == x {
            return Some(i);
        }
        i = i + 1;
    }
    None
}

/// A list of distinct positions below `n` with `n` entries holds all of them.
proof fn lemma_full_selection(sel: Seq<usize>, n: nat)
    requires
        n <= usize::MAX,
        sel.no_duplicates(),
        sel.len() == n,
        forall|k: int| 0 <= k < sel.len() ==> #[trigger] sel[k] < n,
    ensures
        index_set(sel) == all_positions(n as int),
{
    let s = sel.to_set();
    sel.unique_seq_to_set();
    let full = Set::new(|i: usize| (i as int) < n);
    assert(s.subset_of(full));
    let ints = all_positions(n as int);
    lemma_usize_set_size(full, n);
    vstd::set_lib::lemma_subset_equality(s, full);
    assert forall|x: int| index_set(sel).contains(x) == ints.contains(x) by {
        if ints.contains(x) {
            assert(full.contains(x as usize));
            assert(s.contains(x as usize));
            let k = choose|k: int| 0 <= k < sel.len() && sel[k] == x as usize;
        }
    }
    assert(index_set(sel) =~= ints);
}

proof fn lemma_usize_set_size(full: Set<usize>, n: nat)
    requires
        full == Set::new(|i: usize| (i as int) < n),
        n <= usize::MAX,
    ensures
        full.finite(),
        full.len() == n,
    decreases n,
{
    if n == 0 {
        assert(full =~= Set::empty());
    } else {
        let smaller = Set::new(|i: usize| (i as int) < n - 1);
        lemma_usize_set_size(smaller, (n - 1) as nat);
        assert(full =~= smaller.insert((n - 1) as usize));
    }
}

/// A list of distinct positions that holds all positions below `n` has `n` entries.
proof fn lemma_selection_size(sel: Seq<usize>, n: nat)
    requires
        n <= usize::MAX,
        sel.no_duplicates(),
        forall|k: int| 0 <= k < sel.len() ==> #[trigger] sel[k] < n,
        index_set(sel) == all_positions(n as int),
    ensures
        sel.len() == n,
{
    sel.unique_seq_to_set();
    let full = Set::new(|i: usize| (i as int) < n);
    lemma_usize_set_size(full, n);
    assert forall|x: usize| #[trigger] full.contains(x) implies sel.to_set().contains(x) by {
        assert(all_positions(n as int).contains(x as int));
        assert(index_set(sel).contains(x as int));
        let k = choose|k: int| 0 <= k < sel.len() && sel[k] as int == x as int;
        assert(sel.contains(x));
    }
    assert(sel.to_set() =~= full);
}

/// The contents of each row.
fn row_cells(rows: &Vec<TableRow>) -> (r: Vec<Vec<String>>)
    ensures
        cells_views(r@) == contents(row_views(rows@)),
{
    let mut r: Vec<Vec<String>> = Vec::new();
    let mut i: usize = 0;
    while i < rows.len()
        invariant
            i <= rows@.len(),
            r@.len() == i,
            forall|k: int| 0 <= k < i ==> views(#[trigger] r@[k]@) == rows@[k]@.0,
        decreases rows.len() - i,
    {
        let c = copy_strings(&rows[i].cells);
        assert(views(c@) =~= views(rows@[i as int].cells@));
        r.push(c);
        i = i + 1;
    }
    assert(cells_views(r@) =~= contents(row_views(rows@)));
    r
}


/// The keys that the table takes for itself outside of search capture.
pub open spec fn table_key(key: Key) -> bool {
    match key.code {
        KeyCode::Up | KeyCode::Down | KeyCode::Home | KeyCode::End | KeyCode::PageUp
        | KeyCode::PageDown | KeyCode::Esc => true,
        KeyCode::Char(c) => c == 'k' || c == 'j' || c == ' ' || c == '/' || ('1' <= c <= '9')
            || (c == 'a' && key.ctrl),
        _ => false,
    }
}

/// A digit key from 1 to 9.
pub open spec fn key_is_digit(key: Key) -> bool {
    match key.code {
        KeyCode::Char(c) => '1' <= c <= '9',
        _ => false,
    }
}

/// The cursor move that a navigation key asks for, in rows.
pub open spec fn key_move(key: Key, len: int) -> Option<int> {
    match key.code {
        KeyCode::Up => Some(-1),
        KeyCode::Down => Some(1),
        KeyCode::Char(c) => if c == 'k' {
            Some(-1)
        } else if c == 'j' {
            Some(1)
        } else {
            None
        },
        KeyCode::PageUp => Some(-10),
        KeyCode::PageDown => Some(10),
        KeyCode::Home => Some(-len),
        KeyCode::End => Some(len),
        _ => None,
    }
}

impl TableWidget {
    /// `new` shows the rows of `old` filtered by `text` and sorted as before,
    /// with the cursor and selection following their rows.
    pub open(crate) spec fn refiltered(old: TableWidget, new: TableWidget, text: Seq<char>) -> bool {
        &&& new.filter_text() == text
        &&& new.shown() == derive_view(old.data_view(), text, old.sort_col as int, old.sort_dir)
        &&& new.selection() == relocated(old.shown(), old.selection(), new.shown())
        &&& new.cursor() == relocated_cursor(old.shown(), old.current, new.shown())
        &&& new.data_view() == old.data_view()
        &&& new.sort_key() == old.sort_key()
    }

    /// What replacing the rows of `old` by `rows` gives: nothing changes when
    /// the contents are the same in any order; otherwise the view is
    /// recomputed, the cursor goes to the top and the selected rows keep their
    /// selection where their content is still shown.
    pub open(crate) spec fn set_data_result(old: TableWidget, rows: Seq<RowView>, new: TableWidget) -> bool {
        &&& same_contents(rows, old.data_view()) ==> new == old
        &&& !same_contents(rows, old.data_view()) ==> {
            &&& new.data_view() == rows
            &&& new.shown() == derive_view(rows, old.filter_text(), old.sort_key().0 as int, old.sort_key().1)
            &&& new.cursor() == (if new.shown().len() == 0 { None } else { Some(0usize) })
            &&& new.selection() == relocated(old.shown(), old.selection(), new.shown())
            &&& new.same_settings(&old)
        }
    }

    /// The effect of replacing the rows on the rows, view, cursor and
    /// selection (as `set_data_result`, whatever else changed besides).
    pub open(crate) spec fn rows_set(old: TableWidget, rows: Seq<RowView>, new: TableWidget) -> bool {
        &&& same_contents(rows, old.data_view()) ==> {
            &&& new.data_view() == old.data_view()
            &&& new.shown() == old.shown()
            &&& new.cursor() == old.cursor()
            &&& new.selection() == old.selection()
        }
        &&& !same_contents(rows, old.data_view()) ==> {
            &&& new.data_view() == rows
            &&& new.shown() == derive_view(rows, old.filter_text(), old.sort_key().0 as int, old.sort_key().1)
            &&& new.cursor() == (if new.shown().len() == 0 { None } else { Some(0usize) })
            &&& new.selection() == relocated(old.shown(), old.selection(), new.shown())
        }
        &&& new.filter_text() == old.filter_text()
        &&& new.sort_key() == old.sort_key()
    }

    /// One key press on the table `old`, giving `new` and whether the table
    /// took the key.
    pub open(crate) spec fn key_step(old: TableWidget, key: Key, new: TableWidget, handled: bool) -> bool {
        Self::key_step_search(old, key, new, handled) && Self::key_step_normal(old, key, new, handled)
    }

    /// A key press: what it does while the search box has the keyboard.
    pub open(crate) spec fn key_step_search(old: TableWidget, key: Key, new: TableWidget, handled: bool) -> bool {
        &&& (new.data_view() == old.data_view())
        &&& (handled == (old.is_searching() || table_key(key)))
        &&& (old.is_searching() && key.code == KeyCode::Esc ==> {
                &&& !new.is_searching()
                &&& TableWidget::refiltered(old, new, Seq::empty())
            })
        &&& (old.is_searching() && key.code == KeyCode::Enter ==> {
                &&& !new.is_searching()
                &&& new.shown() == old.shown()
                &&& new.selection() == old.selection()
                &&& new.cursor() == old.cursor()
                &&& new.filter_text() == old.filter_text()
                &&& new.sort_key() == old.sort_key()
            })
        &&& (old.is_searching() && key.code != KeyCode::Esc && key.code != KeyCode::Enter ==> {
                &&& new.is_searching()
                &&& TableWidget::refiltered(old, new, new.filter_text())
            })
    }

    /// A key press: what it does outside of search capture.
    pub open(crate) spec fn key_step_normal(old: TableWidget, key: Key, new: TableWidget, handled: bool) -> bool {
        &&& (!old.is_searching() && key_move(key, old.shown().len() as int).is_some() ==> {
                &&& TableWidget::only_cursor(old, new)
                &&& new.cursor() == moved(old.cursor(), key_move(key, old.shown().len() as int).unwrap(), old.shown().len() as int)
            })
        &&& (!old.is_searching() && key.code == KeyCode::Esc ==> {
                &&& new.filter_text().len() == 0
                &&& new.cursor() == relocated_cursor(old.shown(), old.cursor(), new.shown())
                &&& new.shown() == derive_view(old.data_view(), Seq::empty(), old.sort_key().0 as int, old.sort_key().1)
                &&& new.selection() == Set::<int>::empty()
                &&& !new.is_searching()
            })
        &&& (!old.is_searching() && key.code == KeyCode::Char('/') ==> {
                &&& new.is_searching()
                &&& new.shown() == old.shown()
                &&& new.selection() == old.selection()
                &&& new.cursor() == old.cursor()
                &&& new.filter_text() == old.filter_text()
            })
        &&& (!old.is_searching() && key.code == KeyCode::Char(' ') ==> {
                &&& old.cursor().is_some() ==> new.selection() == (if old.selection().contains(old.cursor().unwrap() as int) {
                    old.selection().remove(old.cursor().unwrap() as int)
                } else {
                    old.selection().insert(old.cursor().unwrap() as int)
                })
                &&& old.cursor().is_some() ==> new.cursor() == moved(old.cursor(), 1, old.shown().len() as int)
                &&& old.cursor().is_none() ==> new.selection() == old.selection() && new.cursor() == old.cursor()
                &&& new.shown() == old.shown()
            })
        &&& (!old.is_searching() && key.code == KeyCode::Char('a') && key.ctrl ==> {
                &&& new.selection() == (if old.selection() == all_positions(old.shown().len() as int) {
                    Set::<int>::empty()
                } else {
                    all_positions(old.shown().len() as int)
                })
                &&& new.shown() == old.shown()
                &&& new.cursor() == old.cursor()
            })
        &&& (!old.is_searching() && (exists|c: char| key.code == KeyCode::Char(c) && '1' <= c <= '9') ==> {
                let col = (key.code->Char_0 as int - '1' as int) as usize;
                &&& col >= old.column_count() ==> new.shown() == old.shown()
                    && new.selection() == old.selection() && new.cursor() == old.cursor()
                    && new.sort_key() == old.sort_key()
                &&& col < old.column_count() ==> {
                    &&& new.sort_key() == (if old.sort_key().0 == col {
                        (col, if old.sort_key().1 == Sort::Asc { Sort::Desc } else { Sort::Asc })
                    } else {
                        (col, Sort::Asc)
                    })
                    &&& new.shown() == derive_view(old.data_view(), old.filter_text(), col as int, new.sort_key().1)
                    &&& new.selection() == relocated(old.shown(), old.selection(), new.shown())
                    &&& new.cursor() == relocated_cursor(old.shown(), old.cursor(), new.shown())
                }
            })
        &&& (!old.is_searching() && !table_key(key) ==> new == old)
        &&& (!old.is_searching() && key.code != KeyCode::Char('/') ==> !new.is_searching())
        &&& (!old.is_searching() && key.code != KeyCode::Esc ==> new.filter_text() == old.filter_text())
        &&& (!old.is_searching() && !key_is_digit(key) ==> new.sort_key() == old.sort_key())
        &&& new.columns_view() == old.columns_view()
        &&& new.focus_level() == old.focus_level()
    }

    /// Only the cursor differs between `old` and `new`.
    pub open(crate) spec fn only_cursor(old: TableWidget, new: TableWidget) -> bool {
        &&& new.data_view() == old.data_view()
        &&& new.shown() == old.shown()
        &&& new.selection() == old.selection()
        &&& new.filter_text() == old.filter_text()
        &&& new.sort_key() == old.sort_key()
        &&& new.is_searching() == old.is_searching()
    }

    /// The rows of the view, in order.
    pub fn rows(&self) -> (r: &Vec<TableRow>)
        ensures
            row_views(r@) == self.shown(),
    {
        &self.filtered
    }

    /// The row under the cursor.
    pub fn get_current(&self) -> (r: Option<&TableRow>)
        requires
            self.wf(),
        ensures
            self.cursor().is_none() ==> r.is_none(),
            self.cursor().is_some() ==> r.is_some() && r.unwrap()@ == self.shown()[self.cursor().unwrap() as int],
    {
        match self.current {
            Some(i) => Some(&self.filtered[i]),
            None => None,
        }
    }

    /// The position of the cursor in the view.
    pub fn current_index(&self) -> (r: Option<usize>)
        ensures
            r == self.cursor(),
    {
        self.current
    }

    /// Puts the cursor on a row of the view.
    pub fn set_current(&mut self, new_index: Option<usize>)
        requires
            old(self).wf(),
            new_index.is_none() <==> old(self).shown().len() == 0,
            new_index.is_some() ==> new_index.unwrap() < old(self).shown().len(),
        ensures
            final(self).wf(),
            final(self).cursor() == new_index,
            Self::only_cursor(*old(self), *final(self)),
            final(self).focus_level() == old(self).focus_level(),
    {
        self.current = new_index;
    }

    /// The selected rows, in view order.
    pub fn get_selected(&self) -> (r: Vec<&TableRow>)
        requires
            self.wf(),
        ensures
            r@.len() == pick(self.shown(), self.selection()).len(),
            forall|i: int| 0 <= i < r@.len() ==> (#[trigger] r@[i])@ == pick(self.shown(), self.selection())[i],
    {
        let ghost all = self.shown();
        let mut r: Vec<&TableRow> = Vec::new();
        let mut i: usize = 0;
        while i < self.filtered.len()
            invariant
                self.wf(),
                all == self.shown(),
                i <= self.filtered@.len(),
                r@.len() == pick(all.take(i as int), self.selection()).len(),
                forall|k: int| 0 <= k < r@.len() ==> (#[trigger] r@[k])@ == pick(all.take(i as int), self.selection())[k],
            decreases self.filtered.len() - i,
        {
            let ghost before = pick(all.take(i as int), self.selection());
            assert(all.take(i + 1).drop_last() =~= all.take(i as int));
            assert(all.take(i + 1).last() == self.filtered@[i as int]@);
            let inside = contains_index(&self.selected, i);
            proof {
                if inside {
                    assert(self.selection().contains(i as int)) by {
                        let k = choose|k: int| 0 <= k < self.selected@.len() && self.selected@[k] == i;
                    }
                } else {
                    assert(!self.selection().contains(i as int)) by {
                        if self.selection().contains(i as int) {
                            let k = choose|k: int| 0 <= k < self.selected@.len() && self.selected@[k] as int == i as int;
                            assert(self.selected@.contains(i));
                        }
                    }
                }
            }
            if inside {
                r.push(&self.filtered[i]);
            }
            i = i + 1;
        }
        assert(all.take(i as int) =~= all);
        r
    }

    /// The positions of the selected rows in the view.
    pub fn selected_indices(&self) -> (r: &Vec<usize>)
        ensures
            index_set(r@) == self.selection(),
    {
        &self.selected
    }

    /// The search text in effect.
    pub fn get_filter(&self) -> (r: String)
        ensures
            r@ == self.filter_text(),
    {
        copy_string(&self.filter)
    }

    pub fn is_search_active(&self) -> (r: bool)
        ensures
            r == self.is_searching(),
    {
        self.searching
    }

    pub fn sort_state(&self) -> (r: (usize, Sort))
        ensures
            r == self.sort_key(),
    {
        (self.sort_col, self.sort_dir)
    }

    pub fn focus_state(&self) -> (r: TableFocus)
        ensures
            r == self.focus_level(),
    {
        self.focus_type
    }

    pub fn title(&self) -> (r: Option<&String>)
        ensures
            r.is_none() == self.title_text().is_none(),
            r.is_some() ==> Some(r.unwrap()@) == self.title_text(),
    {
        match &self.title {
            Some(t) => Some(t),
            None => None,
        }
    }

    pub fn columns(&self) -> (r: &Vec<String>)
        ensures
            views(r@) == self.columns_view(),
    {
        &self.columns
    }

    pub fn widths(&self) -> &Vec<Constraint> {
        &self.widths
    }

    /// Empties the search text and shows all rows again, sorted; the cursor
    /// and selection follow their rows.
    pub fn clear_search(&mut self)
        requires
            old(self).wf(),
        ensures
            final(self).wf(),
            Self::refiltered(*old(self), *final(self), Seq::empty()),
            final(self).is_searching() == old(self).is_searching(),
            final(self).columns_view() == old(self).columns_view(),
            final(self).title_text() == old(self).title_text(),
            final(self).focus_level() == old(self).focus_level(),
    {
        self.search_box = get_textarea();
        self.filter = String::new();
        self.update_filtered(true);
    }

    /// Handles a key press and says whether the table took it.
    ///
    /// While the search box has the keyboard every key is taken: Escape
    /// leaves it and clears the search, Enter leaves it and keeps the search,
    /// any other key edits the search text and the view follows at once.
    /// Otherwise the table takes the navigation keys, the digits 1 to 9
    /// (sort by that column), space (toggle the cursor row in the selection
    /// and move down), `/` (start searching), Escape (clear search and
    /// selection) and Control-A (select all, or clear a full selection).
    pub fn handle_key_event(&mut self, key: &Key) -> (handled: bool)
        requires
            old(self).wf(),
        ensures
            final(self).wf(),
            Self::key_step_search(*old(self), *key, *final(self), handled),
            Self::key_step_normal(*old(self), *key, *final(self), handled),
            final(self).focus_level() == old(self).focus_level(),
    {
        if self.searching {
            match key.code {
                KeyCode::Esc => {
                    self.searching = false;
                    self.clear_search();
                },
                KeyCode::Enter => {
                    self.searching = false;
                },
                _ => {
                    search_input(&mut self.search_box, key);
                    self.filter = search_text(&self.search_box);
                    self.update_filtered(true);
                },
            }
            return true;
        }
        let len = self.filtered.len();
        assert(old(self).shown().len() == len);
        match key.code {
            KeyCode::Up => self.safe_move(-1),
            KeyCode::Down => self.safe_move(1),
            KeyCode::Home => {
                if len > 0 {
                    self.current = Some(0);
                }
            },
            KeyCode::End => {
                if len > 0 {
                    self.current = Some(len - 1);
                }
            },
            KeyCode::PageUp => self.safe_move(-10),
            KeyCode::PageDown => self.safe_move(10),
            KeyCode::Esc => {
                self.clear_search();
                self.clear_selection();
            },
            KeyCode::Char(c) => {
                if c == 'k' {
                    self.safe_move(-1);
                } else if c == 'j' {
                    self.safe_move(1);
                } else if '1' <= c && c <= '9' {
                    let col = (c as u32 - '1' as u32) as usize;
                    self.set_sort(col);
                } else if c == ' ' {
                    self.toggle_current();
                } else if c == '/' {
                    self.searching = true;
                } else if c == 'a' && key.ctrl {
                    self.toggle_select_all();
                } else {
                    return false;
                }
            },
            _ => {
                return false;
            },
        }
        true
    }
}


/// Setting rows whose contents equal, in any order and counted with
/// multiplicity, those set just before changes neither the cursor nor the
/// selection.
pub proof fn law_same_rows_keep_cursor_and_selection(
    t0: TableWidget,
    r1: Seq<RowView>,
    t1: TableWidget,
    r2: Seq<RowView>,
    t2: TableWidget,
)
    requires
        TableWidget::set_data_result(t0, r1, t1),
        TableWidget::set_data_result(t1, r2, t2),
        same_contents(r1, r2),
    ensures
        t2.cursor() == t1.cursor(),
        t2.selection() == t1.selection(),
{
    assert(same_contents(r2, t1.data_view()));
}

/// A cursor move in a non-empty view stays within the view; a move past
/// either end stops on the last or the first row.
pub proof fn law_cursor_stays_in_view(cur: usize, change: int, len: int)
    requires
        0 <= cur < len,
    ensures
        moved(Some(cur), change, len).is_some(),
        0 <= moved(Some(cur), change, len).unwrap() < len,
        change >= len ==> moved(Some(cur), change, len) == Some((len - 1) as usize),
        change <= -len ==> moved(Some(cur), change, len) == Some(0usize),
{
}

/// Sorting keeps exactly the rows it is given.
pub proof fn lemma_sort_permutes(s: Seq<RowView>, col: int, dir: Sort)
    ensures
        crate::rows::sort_rows(s, col, dir).to_multiset() == s.to_multiset(),
    decreases s.len(),
{
    broadcast use vstd::seq_lib::group_to_multiset_ensures;
    if s.len() > 0 {
        let t = crate::rows::sort_rows(s.drop_last(), col, dir);
        lemma_sort_permutes(s.drop_last(), col, dir);
        let p = crate::rows::insert_pos(t, s.last(), col, dir);
        lemma_insert_pos_range(t, s.last(), col, dir);
        vstd::seq_lib::to_multiset_insert(t, p, s.last());
        assert(s =~= s.drop_last().push(s.last()));
    }
}

proof fn lemma_insert_pos_range(t: Seq<RowView>, x: RowView, col: int, dir: Sort)
    ensures
        0 <= crate::rows::insert_pos(t, x, col, dir) <= t.len(),
    decreases t.len(),
{
    if t.len() > 0 {
        lemma_insert_pos_range(t.drop_last(), x, col, dir);
    }
}

proof fn lemma_keep_matching(s: Seq<RowView>, text: Seq<char>)
    ensures
        forall|i: int| 0 <= i < crate::rows::keep_matching(s, text).len()
            ==> crate::rows::row_matches(#[trigger] crate::rows::keep_matching(s, text)[i].0, text),
        forall|i: int| 0 <= i < s.len() && crate::rows::row_matches(#[trigger] s[i].0, text)
            ==> crate::rows::keep_matching(s, text).contains(s[i]),
        forall|x: RowView| crate::rows::keep_matching(s, text).contains(x) ==> #[trigger] s.contains(x),
    decreases s.len(),
{
    if s.len() > 0 {
        lemma_keep_matching(s.drop_last(), text);
        let k = crate::rows::keep_matching(s.drop_last(), text);
        assert forall|i: int| 0 <= i < s.len() && crate::rows::row_matches(#[trigger] s[i].0, text)
            implies crate::rows::keep_matching(s, text).contains(s[i]) by {
            if i < s.len() - 1 {
                assert(s.drop_last()[i] == s[i]);
                assert(k.contains(s[i]));
                if crate::rows::row_matches(s.last().0, text) {
                    let j = choose|j: int| 0 <= j < k.len() && k[j] == s[i];
                    assert(k.push(s.last())[j] == s[i]);
                }
            } else {
                assert(k.push(s.last())[k.len() as int] == s[i]);
            }
        }
        assert forall|x: RowView| crate::rows::keep_matching(s, text).contains(x) implies #[trigger] s.contains(x) by {
            let j = choose|j: int| 0 <= j < crate::rows::keep_matching(s, text).len() && crate::rows::keep_matching(s, text)[j] == x;
            if j < k.len() {
                assert(k.contains(x));
                assert(s.drop_last().contains(x));
                let m = choose|m: int| 0 <= m < s.drop_last().len() && s.drop_last()[m] == x;
                assert(s[m] == x);
            } else {
                assert(s[s.len() - 1] == x);
            }
        }
    }
}

/// With a non-empty search text the view holds exactly the rows with a cell
/// that contains the text, ignoring case; with an empty text it holds all rows.
pub proof fn law_search_filter(rows: Seq<RowView>, text: Seq<char>, col: int, dir: Sort)
    ensures
        text.len() > 0 ==> derive_view(rows, text, col, dir).to_multiset()
            == crate::rows::keep_matching(rows, text).to_multiset(),
        text.len() > 0 ==> forall|x: RowView| #[trigger] derive_view(rows, text, col, dir).contains(x)
            <==> (rows.contains(x) && crate::rows::row_matches(x.0, text)),
        derive_view(rows, Seq::empty(), col, dir).to_multiset() == rows.to_multiset(),
{
    broadcast use vstd::seq_lib::group_to_multiset_ensures;
    lemma_sort_permutes(crate::rows::filter_rows(rows, text), col, dir);
    lemma_sort_permutes(rows, col, dir);
    if text.len() > 0 {
        lemma_keep_matching(rows, text);
        let k = crate::rows::keep_matching(rows, text);
        let v = derive_view(rows, text, col, dir);
        assert forall|x: RowView| #[trigger] v.contains(x) <==> (rows.contains(x) && crate::rows::row_matches(x.0, text)) by {
            assert(v.contains(x) <==> v.to_multiset().count(x) > 0);
            assert(k.contains(x) <==> k.to_multiset().count(x) > 0);
            if k.contains(x) {
                let j = choose|j: int| 0 <= j < k.len() && k[j] == x;
                assert(crate::rows::row_matches(k[j].0, text));
            }
            if rows.contains(x) && crate::rows::row_matches(x.0, text) {
                let j = choose|j: int| 0 <= j < rows.len() && rows[j] == x;
                assert(crate::rows::row_matches(rows[j].0, text));
            }
        }
    }
}

/// Selected rows follow their content into a new view: when the selection
/// holds a row with content `a` and a row with content `b`, and the new view
/// shows `a` but not `b`, the new selection is the first position of `a`.
pub proof fn law_selection_follows_content(
    old_view: Seq<RowView>,
    ia: int,
    ib: int,
    new_view: Seq<RowView>,
    ja: int,
)
    requires
        0 <= ia < old_view.len(),
        0 <= ib < old_view.len(),
        first_at(new_view, old_view[ia].0, ja),
        forall|j: int| 0 <= j < new_view.len() ==> #[trigger] new_view[j].0 != old_view[ib].0,
    ensures
        relocated(old_view, set![ia, ib], new_view) == set![ja],
{
    let r = relocated(old_view, set![ia, ib], new_view);
    assert forall|j: int| r.contains(j) == (j == ja) by {
        if r.contains(j) {
            let i = choose|i: int| set![ia, ib].contains(i) && 0 <= i < old_view.len() && #[trigger] first_at(new_view, old_view[i].0, j);
            if i == ib {
                assert(new_view[j].0 != old_view[ib].0);
            } else {
                lemma_first_at_unique(new_view, old_view[ia].0, j, ja);
            }
        }
        if j == ja {
            assert(set![ia, ib].contains(ia));
            assert(first_at(new_view, old_view[ia].0, ja));
        }
    }
    assert(r =~= set![ja]);
}


/// With no search text a table shows as many rows as it holds.
pub proof fn lemma_unfiltered_len(t: TableWidget)
    requires
        t.wf(),
        t.filter_text().len() == 0,
    ensures
        t.shown().len() == t.data_view().len(),
{
    broadcast use vstd::seq_lib::group_to_multiset_ensures;
    lemma_sort_permutes(t.data_view(), t.sort_key().0 as int, t.sort_key().1);
    assert(t.shown().to_multiset().len() == t.data_view().to_multiset().len());
}

/// Rows with the same contents are as many.
pub proof fn lemma_same_contents_len(a: Seq<RowView>, b: Seq<RowView>)
    requires
        same_contents(a, b),
    ensures
        a.len() == b.len(),
{
    broadcast use vstd::seq_lib::group_to_multiset_ensures;
    assert(contents(a).len() == a.len());
    assert(contents(b).len() == b.len());
    assert(contents(a).to_multiset().len() == contents(b).to_multiset().len());
}


/// The header of column `i`: its label, with an arrow for the sorted column.
pub open spec fn header_label(label: Seq<char>, i: int, col: int, dir: Sort) -> Seq<char> {
    if i == col {
        label + (if dir == Sort::Asc { " ↑"@ } else { " ↓"@ })
    } else {
        label
    }
}

impl TableWidget {
    /// The column headers, the sorted one marked with its direction.
    pub fn header_labels(&self) -> (r: Vec<String>)
        ensures
            r@.len() == self.columns_view().len(),
            forall|i: int| 0 <= i < r@.len() ==> (#[trigger] r@[i])@ == header_label(
                self.columns_view()[i],
                i,
                self.sort_key().0 as int,
                self.sort_key().1,
            ),
    {
        let mut r: Vec<String> = Vec::new();
        let mut i: usize = 0;
        while i < self.columns.len()
            invariant
                i <= self.columns@.len(),
                r@.len() == i,
                forall|k: int| 0 <= k < i ==> (#[trigger] r@[k])@ == header_label(
                    self.columns_view()[k],
                    k,
                    self.sort_col as int,
                    self.sort_dir,
                ),
            decreases self.columns.len() - i,
        {
            let label = &self.columns[i];
            assert(self.columns_view()[i as int] == label@);
            let h = if i == self.sort_col {
                match self.sort_dir {
                    Sort::Asc => label.clone().concat(" ↑"),
                    Sort::Desc => label.clone().concat(" ↓"),
                }
            } else {
                label.clone()
            };
            r.push(h);
            i = i + 1;
        }
        r
    }

    /// The badge under the table: "N selected", empty when nothing is selected.
    pub fn selection_badge(&self) -> (r: String)
        requires
            self.wf(),
        ensures
            self.selection().len() == 0 ==> r@.len() == 0,
            self.selected_list().len() > 0 ==> r@ == decimal(self.selected_list().len()) + " selected"@,
            self.selected_list().len() == self.selection().len(),
    {
        proof {
            self.selected@.unique_seq_to_set();
            lemma_index_set_len(self.selected@);
        }
        if self.selected.len() == 0 {
            String::new()
        } else {
            decimal_string(self.selected.len()).concat(" selected")
        }
    }
}

/// Distinct indices: as many in the set as in the list.
proof fn lemma_index_set_len(sel: Seq<usize>)
    requires
        sel.no_duplicates(),
    ensures
        index_set(sel).len() == sel.len(),
        index_set(sel).finite(),
{
    sel.unique_seq_to_set();
    let m = sel.to_set().map(|x: usize| x as int);
    assert(index_set(sel) =~= m) by {
        assert forall|i: int| index_set(sel).contains(i) implies m.contains(i) by {
            let k = choose|k: int| 0 <= k < sel.len() && sel[k] as int == i;
            assert(sel.to_set().contains(sel[k]));
        }
        assert forall|i: int| m.contains(i) implies index_set(sel).contains(i) by {
            let x = choose|x: usize| sel.to_set().contains(x) && x as int == i;
            assert(sel.contains(x));
        }
    }
    vstd::set_lib::lemma_map_size(sel.to_set(), m, |x: usize| x as int);
}

} // verus!
