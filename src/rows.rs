//! Rows of a table and the pure operations on row sequences: filtering by
//! search text, stable natural sorting, and locating a row by its content.
use std::cmp::Ordering;
use vstd::prelude::*;
use crate::natural::{natural, natural_cmp, ord_int};
use crate::text::{chars_of, contains_chars, copy_strings, lower_of, lowercase, occurs_in, views};

verus! {

/// A highlight tag that a row may carry.
#[derive(Clone, Copy, Debug, PartialEq, Eq, Structural)]
pub enum RowColor {
    Green,
    Red,
}

/// Sort direction.
#[derive(Clone, Copy, Debug, PartialEq, Eq, Structural)]
pub enum Sort {
    Asc,
    Desc,
}

/// One row of a table: its cells and an optional highlight.
#[derive(Clone, Debug)]
pub struct TableRow {
    pub cells: Vec<String>,
    pub highlight: Option<RowColor>,
}

/// The content of a row (its cells) and its highlight.
pub type RowView = (Seq<Seq<char>>, Option<RowColor>);

impl View for TableRow {
    type V = RowView;

    open spec fn view(&self) -> RowView {
        (views(self.cells@), self.highlight)
    }
}

pub open spec fn row_views(rows: Seq<TableRow>) -> Seq<RowView> {
    rows.map_values(|r: TableRow| r@)
}

/// The contents of each row, without highlights.
pub open spec fn contents(rows: Seq<RowView>) -> Seq<Seq<Seq<char>>> {
    rows.map_values(|r: RowView| r.0)
}

impl TableRow {
    pub fn new(cells: Vec<String>) -> (r: TableRow)
        ensures
            r.cells == cells,
            r.highlight.is_none(),
    {
        TableRow { cells, highlight: None }
    }

    pub fn with_highlight(self, highlight: Option<RowColor>) -> (r: TableRow)
        ensures
            r.cells == self.cells,
            r.highlight == highlight,
    {
        TableRow { highlight, ..self }
    }

    /// A row with the same cells and highlight.
    pub fn copy(&self) -> (r: TableRow)
        ensures
            r@ == self@,
    {
        let cells = copy_strings(&self.cells);
        assert(views(cells@) =~= views(self.cells@));
        TableRow { cells, highlight: self.highlight }
    }
}

/// The cell of a row in column `c`; a missing cell reads as empty.
pub open spec fn cell(r: Seq<Seq<char>>, c: int) -> Seq<char> {
    if 0 <= c < r.len() {
        r[c]
    } else {
        Seq::empty()
    }
}

/// Order of two rows for sorting by column `col` in direction `dir`: the
/// natural order of that column, ties broken by the first column ascending.
pub open spec fn row_order(a: Seq<Seq<char>>, b: Seq<Seq<char>>, col: int, dir: Sort) -> int {
    let c = natural(cell(a, col), cell(b, col));
    let c = if dir == Sort::Desc {
        -c
    } else {
        c
    };
    if c != 0 {
        c
    } else {
        natural(cell(a, 0), cell(b, 0))
    }
}

/// Where a stable insertion puts `x` into `s`: after the last element that
/// does not come strictly after it.
pub open spec fn insert_pos(s: Seq<RowView>, x: RowView, col: int, dir: Sort) -> int
    decreases s.len(),
{
    if s.len() == 0 {
        0
    } else if row_order(s.last().0, x.0, col, dir) <= 0 {
        s.len() as int
    } else {
        insert_pos(s.drop_last(), x, col, dir)
    }
}

/// The rows in sorted order; rows that compare equal keep their order.
pub open spec fn sort_rows(s: Seq<RowView>, col: int, dir: Sort) -> Seq<RowView>
    decreases s.len(),
{
    if s.len() == 0 {
        s
    } else {
        let t = sort_rows(s.drop_last(), col, dir);
        t.insert(insert_pos(t, s.last(), col, dir), s.last())
    }
}

/// A row matches a search text when one of its cells holds the text,
/// ignoring case.
pub open spec fn row_matches(r: Seq<Seq<char>>, text: Seq<char>) -> bool {
    exists|i: int| 0 <= i < r.len() && occurs_in(lower_of(text), #[trigger] lower_of(r[i]))
}

pub open spec fn keep_matching(s: Seq<RowView>, text: Seq<char>) -> Seq<RowView>
    decreases s.len(),
{
    if s.len() == 0 {
        s
    } else if row_matches(s.last().0, text) {
        keep_matching(s.drop_last(), text).push(s.last())
    } else {
        keep_matching(s.drop_last(), text)
    }
}

/// The rows that a search text lets through: all of them for an empty text.
pub open spec fn filter_rows(s: Seq<RowView>, text: Seq<char>) -> Seq<RowView> {
    if text.len() == 0 {
        s
    } else {
        keep_matching(s, text)
    }
}

/// What a table shows: its rows, filtered by the search text, then sorted.
pub open spec fn derive_view(rows: Seq<RowView>, text: Seq<char>, col: int, dir: Sort) -> Seq<RowView> {
    sort_rows(filter_rows(rows, text), col, dir)
}

/// `j` is the first position of `s` whose content is `x`.
pub open spec fn first_at(s: Seq<RowView>, x: Seq<Seq<char>>, j: int) -> bool {
    &&& 0 <= j < s.len()
    &&& s[j].0 == x
    &&& forall|i: int| 0 <= i < j ==> #[trigger] s[i].0 != x
}

fn cmp_rows(a: &TableRow, b: &TableRow, col: usize, dir: Sort) -> (r: Ordering)
    ensures
        ord_int(r) == row_order(a@.0, b@.0, col as int, dir),
{
    let empty = String::new();
    let ca = if col < a.cells.len() { &a.cells[col] } else { &empty };
    let cb = if col < b.cells.len() { &b.cells[col] } else { &empty };
    let o = natural_cmp(ca.as_str(), cb.as_str());
    let o = match dir {
        Sort::Desc => match o {
            Ordering::Less => Ordering::Greater,
            Ordering::Greater => Ordering::Less,
            Ordering::Equal => Ordering::Equal,
        },
        Sort::Asc => o,
    };
    match o {
        Ordering::Equal => {
            let fa = if 0 < a.cells.len() { &a.cells[0] } else { &empty };
            let fb = if 0 < b.cells.len() { &b.cells[0] } else { &empty };
            natural_cmp(fa.as_str(), fb.as_str())
        },
        _ => o,
    }
}

fn goes_after(a: &TableRow, b: &TableRow, col: usize, dir: Sort) -> (r: bool)
    ensures
        r == (row_order(a@.0, b@.0, col as int, dir) > 0),
{
    match cmp_rows(a, b, col, dir) {
        Ordering::Greater => true,
        _ => false,
    }
}

/// Sorts rows by column `col` in direction `dir`, keeping the order of rows
/// that compare equal.
pub fn sort_table_rows(rows: Vec<TableRow>, col: usize, dir: Sort) -> (r: Vec<TableRow>)
    ensures
        row_views(r@) == sort_rows(row_views(rows@), col as int, dir),
{
    let ghost orig = row_views(rows@);
    let mut rest = rows;
    let mut out: Vec<TableRow> = Vec::new();
    let mut k: usize = 0;
    let n = rest.len();
    assert(orig.take(0) =~= Seq::<RowView>::empty());
    while rest.len() > 0
        invariant
            orig.len() == n,
            k <= orig.len(),
            row_views(rest@) == orig.skip(k as int),
            row_views(out@) == sort_rows(orig.take(k as int), col as int, dir),
        decreases rest.len(),
    {
        assert(row_views(rest@).len() == rest@.len());
        let ghost rb = rest@;
        let x = rest.remove(0);
        proof {
            assert(row_views(rb)[0] == rb[0]@);
            assert(orig.skip(k as int)[0] == orig[k as int]);
            assert(x@ == orig[k as int]);
            assert forall|j: int| 0 <= j < rest@.len() implies #[trigger] row_views(rest@)[j] == orig.skip(k + 1)[j] by {
                assert(rest@[j] == rb[j + 1]);
                assert(row_views(rb)[j + 1] == rb[j + 1]@);
                assert(orig.skip(k as int)[j + 1] == orig.skip(k + 1)[j]);
            }
            assert(row_views(rest@) =~= orig.skip(k + 1));
            assert(orig.take(k + 1).drop_last() =~= orig.take(k as int));
            assert(orig.take(k + 1).last() == x@);
        }
        // find the insertion point, scanning from the end
        let mut p: usize = out.len();
        let ghost t = row_views(out@);
        assert(t.take(p as int) =~= t);
        while p > 0 && goes_after(&out[p - 1], &x, col, dir)
            invariant
                p <= out@.len(),
                t == row_views(out@),
                insert_pos(t, x@, col as int, dir) == insert_pos(t.take(p as int), x@, col as int, dir),
            decreases p,
        {
            assert(t.take(p as int).last() == out@[p - 1]@);
            assert(t.take(p as int).drop_last() =~= t.take(p - 1));
            p = p - 1;
        }
        proof {
            if p == 0 {
                assert(t.take(0) =~= Seq::<RowView>::empty());
            } else {
                assert(t.take(p as int).last() == out@[p - 1]@);
            }
        }
        let ghost xv = x@;
        out.insert(p, x);
        proof {
            assert(row_views(out@) =~= t.insert(p as int, xv));
        }
        k = k + 1;
    }
    proof {
        assert(orig.skip(k as int).len() == 0);
        assert(orig.take(k as int) =~= orig);
    }
    out
}

/// Whether any cell of `row` holds `lowered` (an already lowercased search
/// text), ignoring the case of the cell.
fn row_has(row: &TableRow, text: &String, lowered: &String) -> (r: bool)
    requires
        lowered@ == lower_of(text@),
    ensures
        r == row_matches(row@.0, text@),
{
    let needle = chars_of(lowered.as_str());
    let mut i: usize = 0;
    while i < row.cells.len()
        invariant
            needle@ == lower_of(text@),
            i <= row.cells@.len(),
            forall|j: int| 0 <= j < i ==> !occurs_in(lower_of(text@), #[trigger] lower_of(row@.0[j])),
        decreases row.cells.len() - i,
    {
        let low = lowercase(row.cells[i].as_str());
        let hay = chars_of(low.as_str());
        assert(row@.0[i as int] == row.cells@[i as int]@);
        if contains_chars(&hay, &needle) {
            return true;
        }
        i = i + 1;
    }
    false
}

/// Copies of the rows that the search text lets through, in order.
pub fn filter_table_rows(rows: &Vec<TableRow>, text: &String) -> (r: Vec<TableRow>)
    ensures
        row_views(r@) == filter_rows(row_views(rows@), text@),
{
    let ghost all = row_views(rows@);
    let mut out: Vec<TableRow> = Vec::new();
    let lowered = lowercase(text.as_str());
    let empty = text.as_str().is_empty();
    let mut i: usize = 0;
    while i < rows.len()
        invariant
            all == row_views(rows@),
            i <= rows@.len(),
            empty == (text@.len() == 0),
            lowered@ == lower_of(text@),
            row_views(out@) == if empty {
                all.take(i as int)
            } else {
                keep_matching(all.take(i as int), text@)
            },
        decreases rows.len() - i,
    {
        let ghost before = row_views(out@);
        assert(all.take(i + 1).drop_last() =~= all.take(i as int));
        assert(all.take(i + 1).last() == rows@[i as int]@);
        if empty || row_has(&rows[i], text, &lowered) {
            let c = rows[i].copy();
            out.push(c);
            assert(row_views(out@) =~= before.push(rows@[i as int]@));
        }
        i = i + 1;
        assert(row_views(out@) =~= (if empty { all.take(i as int) } else { keep_matching(all.take(i as int), text@) }));
    }
    assert(all.take(i as int) =~= all);
    out
}

/// The first position of `rows` whose content is `cells`, if any.
pub fn find_row(rows: &Vec<TableRow>, cells: &Vec<String>) -> (r: Option<usize>)
    ensures
        r.is_none() ==> forall|j: int| 0 <= j < rows@.len() ==> #[trigger] rows@[j]@.0 != views(cells@),
        r.is_some() ==> first_at(row_views(rows@), views(cells@), r.unwrap() as int),
{
    let mut i: usize = 0;
    while i < rows.len()
        invariant
            i <= rows@.len(),
            forall|j: int| 0 <= j < i ==> #[trigger] rows@[j]@.0 != views(cells@),
        decreases rows.len() - i,
    {
        if same_cells(&rows[i].cells, cells) {
            proof {
                assert forall|j: int| 0 <= j < i implies #[trigger] row_views(rows@)[j].0 != views(cells@) by {
                    assert(row_views(rows@)[j] == rows@[j]@);
                }
            }
            return Some(i);
        }
        i = i + 1;
    }
    None
}

/// Whether two rows of cells are equal, cell by cell.
pub fn same_cells(a: &Vec<String>, b: &Vec<String>) -> (r: bool)
    ensures
        r == (views(a@) == views(b@)),
{
    if a.len() != b.len() {
        assert(views(a@).len() != views(b@).len());
        return false;
    }
    let mut i: usize = 0;
    while i < a.len()
        invariant
            a@.len() == b@.len(),
            i <= a@.len(),
            forall|j: int| 0 <= j < i ==> #[trigger] a@[j]@ == b@[j]@,
        decreases a.len() - i,
    {
        if a[i] != b[i] {
            assert(views(a@)[i as int] != views(b@)[i as int]);
            return false;
        }
        i = i + 1;
    }
    assert(views(a@) =~= views(b@));
    true
}

} // verus!
