//! The installed-packages view: a centre table of packages linked to a
//! dependencies table (left), a dependents table (right) and a provided-files
//! table (bottom), with the focus routing between them.
use vstd::prelude::*;
use crate::keys::{global_key, Key, KeyCode};
use crate::natural::{decimal, decimal_string};
use crate::rows::{cell, row_views, RowColor, RowView, TableRow};
use crate::structs::{
    command, CommandDescription, EventCommand, EventResult, Focus, Package, Reason,
};
use crate::packages::{first_cells, first_names, lemma_selected_views};
use crate::table::{same_contents, at_least, exactly, percentage, pick, TableFocus, TableWidget};
use crate::text::{copy_string, views};

verus! {

/// The first package of `data` named `name`, or -1.
pub open spec fn package_index(data: Seq<Package>, name: Seq<char>) -> int
    decreases data.len(),
{
    if data.len() == 0 {
        -1
    } else if data[0].name@ == name {
        0
    } else if package_index(data.drop_first(), name) < 0 {
        -1
    } else {
        package_index(data.drop_first(), name) + 1
    }
}

/// The highlight of a dependency: green for an explicitly installed package,
/// red for one that is not known at all, none for the others.
pub open spec fn dependency_color(data: Seq<Package>, name: Seq<char>) -> Option<RowColor> {
    if package_index(data, name) < 0 {
        Some(RowColor::Red)
    } else if data[package_index(data, name)].reason is Explicit {
        Some(RowColor::Green)
    } else {
        None
    }
}

/// One single-cell row per name.
pub open spec fn name_rows(names: Seq<String>) -> Seq<RowView> {
    names.map_values(|n: String| (seq![n@], None::<RowColor>))
}

/// One single-cell row per dependency, highlighted by what the dependency is.
pub open spec fn dependency_rows(names: Seq<String>, data: Seq<Package>) -> Seq<RowView> {
    names.map_values(|n: String| (seq![n@], dependency_color(data, n@)))
}

/// The provided paths that are files (not directories, which end in `/`).
pub open spec fn file_rows(paths: Seq<String>) -> Seq<RowView>
    decreases paths.len(),
{
    if paths.len() == 0 {
        Seq::empty()
    } else if paths.last()@.len() > 0 && paths.last()@.last() == '/' {
        file_rows(paths.drop_last())
    } else {
        file_rows(paths.drop_last()).push((seq![paths.last()@], None::<RowColor>))
    }
}

/// Orphans: nothing needs them, nothing may use them, and they were
/// installed as a dependency.
pub open spec fn is_orphan(p: Package) -> bool {
    p.required_by@.len() == 0 && p.optional_for@.len() == 0 && p.reason is Dependency
}

/// Whether an installed package passes the view's filters.
pub open spec fn shown_package(p: Package, explicit: bool, foreign: bool, orphans: bool) -> bool {
    &&& p.installed is Some
    &&& (!explicit || p.reason is Explicit)
    &&& (!foreign || !p.validated)
    &&& (!orphans || is_orphan(p))
}

pub open spec fn reason_text(r: Reason) -> Seq<char> {
    match r {
        Reason::Dependency => "Dependency"@,
        Reason::Explicit => "Explicit"@,
        Reason::Other(s) => s@,
    }
}

/// The centre row of a package: name, reason, number of dependents, an `X`
/// for a foreign package, install date.
pub open spec fn package_row(p: Package) -> RowView {
    (
        seq![p.name@, reason_text(p.reason), decimal(p.required_by@.len()), if p.validated {
            Seq::empty()
        } else {
            "X"@
        }, p.installed.unwrap()@],
        if p.reason is Explicit {
            Some(RowColor::Green)
        } else {
            None
        },
    )
}

/// The centre rows for the packages that pass the filters, in order.
pub open spec fn centre_rows(data: Seq<Package>, explicit: bool, foreign: bool, orphans: bool) -> Seq<RowView>
    decreases data.len(),
{
    if data.len() == 0 {
        Seq::empty()
    } else if shown_package(data.last(), explicit, foreign, orphans) {
        centre_rows(data.drop_last(), explicit, foreign, orphans).push(package_row(data.last()))
    } else {
        centre_rows(data.drop_last(), explicit, foreign, orphans)
    }
}

pub open spec fn is_panel(f: Focus) -> bool {
    f == Focus::Left || f == Focus::Centre || f == Focus::Right || f == Focus::Provides
}

/// The rows of foreign packages (marked in the fourth cell).
pub open spec fn foreign_count(rows: Seq<RowView>) -> nat
    decreases rows.len(),
{
    if rows.len() == 0 {
        0
    } else {
        foreign_count(rows.drop_last()) + if cell(rows.last().0, 3).len() > 0 { 1nat } else { 0nat }
    }
}

/// The names of the active filters, joined with commas.
pub open spec fn filter_names(f: (bool, bool, bool)) -> Seq<char> {
    let names = (if f.0 { seq!["Explicit"@] } else { seq![] }) + (if f.1 { seq!["Foreign"@] } else { seq![] }) + (if f.2 {
        seq!["Orphans"@]
    } else {
        seq![]
    });
    joined(names)
}

pub open spec fn joined(ws: Seq<Seq<char>>) -> Seq<char>
    decreases ws.len(),
{
    if ws.len() == 0 {
        Seq::empty()
    } else if ws.len() == 1 {
        ws[0]
    } else {
        joined(ws.drop_last()) + ", "@ + ws.last()
    }
}

/// The title of the installed view: the number of packages shown, how many
/// come from the repositories and how many are foreign (when any are), and
/// the active filters.
pub open spec fn installed_title(rows: Seq<RowView>, f: (bool, bool, bool)) -> Seq<char> {
    let n = rows.len();
    let foreign = foreign_count(rows);
    let extra = if foreign > 0 {
        " ("@ + decimal((n - foreign) as nat) + " pacman, "@ + decimal(foreign) + " foreign)"@
    } else {
        Seq::empty()
    };
    let filters = if !f.0 && !f.1 && !f.2 {
        Seq::empty()
    } else {
        "Filters: "@ + filter_names(f)
    };
    "Installed "@ + decimal(n) + extra + " "@ + filters
}

fn installed_title_string(rows: &Vec<TableRow>, e: bool, f: bool, o: bool) -> (r: String)
    ensures
        r@ == installed_title(row_views(rows@), (e, f, o)),
{
    let ghost all = row_views(rows@);
    let mut foreign: usize = 0;
    let mut i: usize = 0;
    while i < rows.len()
        invariant
            all == row_views(rows@),
            i <= rows@.len(),
            foreign as nat == foreign_count(all.take(i as int)),
            foreign <= i,
        decreases rows.len() - i,
    {
        assert(all.take(i + 1).drop_last() =~= all.take(i as int));
        assert(all.take(i + 1).last() == rows@[i as int]@);
        let marked = rows[i].cells.len() > 3 && !rows[i].cells[3].as_str().is_empty();
        assert(marked == (cell(rows@[i as int]@.0, 3).len() > 0));
        if marked {
            foreign = foreign + 1;
        }
        i = i + 1;
    }
    assert(all.take(i as int) =~= all);
    let n = rows.len();
    let extra = if foreign > 0 {
        String::from_str(" (").concat(decimal_string(n - foreign).as_str()).concat(" pacman, ").concat(
            decimal_string(foreign).as_str(),
        ).concat(" foreign)")
    } else {
        String::new()
    };
    let mut names: Vec<&str> = Vec::new();
    if e {
        names.push("Explicit");
    }
    if f {
        names.push("Foreign");
    }
    if o {
        names.push("Orphans");
    }
    let mut list = String::new();
    let mut k: usize = 0;
    let ghost ws = names@.map_values(|w: &str| w@);
    assert(ws =~= (if e { seq!["Explicit"@] } else { seq![] }) + (if f { seq!["Foreign"@] } else { seq![] }) + (if o {
        seq!["Orphans"@]
    } else {
        seq![]
    }));
    while k < names.len()
        invariant
            ws == names@.map_values(|w: &str| w@),
            k <= names@.len(),
            list@ == joined(ws.take(k as int)),
        decreases names.len() - k,
    {
        assert(ws.take(k + 1).drop_last() =~= ws.take(k as int));
        if k > 0 {
            list = list.concat(", ");
        }
        list = list.concat(names[k]);
        k = k + 1;
        proof {
            if k == 1 {
                assert(ws.take(1) =~= seq![ws[0]]);
            }
        }
    }
    assert(ws.take(k as int) =~= ws);
    let filters = if !e && !f && !o {
        String::new()
    } else {
        String::from_str("Filters: ").concat(list.as_str())
    };
    String::from_str("Installed ").concat(decimal_string(n).as_str()).concat(extra.as_str()).concat(" ").concat(filters.as_str())
}

/// The first package named `name`.
pub(crate) fn find_package(data: &Vec<Package>, name: &String) -> (r: Option<usize>)
    ensures
        r.is_none() == (package_index(data@, name@) < 0),
        r.is_some() ==> r.unwrap() as int == package_index(data@, name@) && r.unwrap() < data@.len(),
{
    let mut i: usize = 0;
    while i < data.len()
        invariant
            i <= data@.len(),
            forall|k: int| 0 <= k < i ==> #[trigger] data@[k].name@ != name@,
        decreases data.len() - i,
    {
        if data[i].name == *name {
            proof {
                lemma_package_index(data@, name@, i as int);
            }
            return Some(i);
        }
        i = i + 1;
    }
    proof {
        lemma_package_index(data@, name@, -1);
    }
    None
}

proof fn lemma_package_index(s: Seq<Package>, name: Seq<char>, j: int)
    requires
        -1 <= j < s.len(),
        j >= 0 ==> s[j].name@ == name,
        forall|i: int| 0 <= i < s.len() && (j < 0 || i < j) ==> #[trigger] s[i].name@ != name,
    ensures
        package_index(s, name) == j,
    decreases s.len(),
{
    if s.len() > 0 && j != 0 {
        let t = s.drop_first();
        assert(s[0].name@ != name);
        assert forall|i: int| 0 <= i < t.len() && (j - 1 < 0 || i < j - 1) implies #[trigger] t[i].name@ != name by {
            assert(t[i] == s[i + 1]);
        }
        if j > 0 {
            lemma_package_index(t, name, j - 1);
        } else {
            lemma_package_index(t, name, -1);
        }
    }
}

fn one_cell(s: &String, highlight: Option<RowColor>) -> (r: TableRow)
    ensures
        r@ == (seq![s@], highlight),
{
    let r = TableRow { cells: vec![copy_string(s)], highlight };
    assert(r@.0 =~= seq![s@]);
    r
}

fn reason_string(r: &Reason) -> (s: String)
    ensures
        s@ == reason_text(*r),
{
    match r {
        Reason::Dependency => String::from_str("Dependency"),
        Reason::Explicit => String::from_str("Explicit"),
        Reason::Other(t) => copy_string(t),
    }
}

/// The installed-packages view.
#[derive(Debug)]
pub struct InstalledWidget {
    pub(crate) data: Vec<Package>,
    pub(crate) filter_orphans: bool,
    pub(crate) filter_foreign: bool,
    pub(crate) filter_explicit: bool,
    pub(crate) show_providing: bool,
    /// Names of the packages visited before, most recent last.
    pub prev: Vec<String>,
    pub(crate) focus: Focus,
    pub(crate) previous_focus: Focus,
    pub(crate) left: TableWidget,
    pub(crate) right: TableWidget,
    pub(crate) centre: TableWidget,
    pub(crate) provides: TableWidget,
}

impl InstalledWidget {
    pub open(crate) spec fn wf(&self) -> bool {
        &&& self.left.wf()
        &&& self.right.wf()
        &&& self.centre.wf()
        &&& self.provides.wf()
        &&& is_panel(self.focus)
        &&& is_panel(self.previous_focus)
        &&& self.levels_match()
    }

    /// The table with the keyboard is drawn focused, the centre table
    /// otherwise dimmed, and the side tables otherwise plainly unfocused.
    pub open(crate) spec fn levels_match(&self) -> bool {
        &&& self.left.focus_level() == (if self.focus == Focus::Left { TableFocus::Focused } else { TableFocus::Unfocused })
        &&& self.right.focus_level() == (if self.focus == Focus::Right { TableFocus::Focused } else { TableFocus::Unfocused })
        &&& self.provides.focus_level() == (if self.focus == Focus::Provides { TableFocus::Focused } else { TableFocus::Unfocused })
        &&& self.centre.focus_level() == (if self.focus == Focus::Centre { TableFocus::Focused } else { TableFocus::UnfocusedDimmed })
    }

    pub open(crate) spec fn focus_state(&self) -> Focus {
        self.focus
    }

    pub open(crate) spec fn previous_focus_state(&self) -> Focus {
        self.previous_focus
    }

    /// Explicit-only, foreign-only and orphans-only.
    pub open(crate) spec fn filters(&self) -> (bool, bool, bool) {
        (self.filter_explicit, self.filter_foreign, self.filter_orphans)
    }

    pub open(crate) spec fn providing_shown(&self) -> bool {
        self.show_providing
    }

    pub open(crate) spec fn packages(&self) -> Seq<Package> {
        self.data@
    }

    /// The package under the centre cursor, as a position in the data.
    pub open(crate) spec fn current_index(&self) -> int {
        match self.centre.cursor() {
            Some(i) => package_index(self.data@, cell(self.centre.shown()[i as int].0, 0)),
            None => -1,
        }
    }

    /// The package name on the cursor row of the focused side table (empty
    /// when there is none, or when the centre has the keyboard).
    pub open(crate) spec fn side_target(&self) -> Seq<char> {
        let t = if self.focus == Focus::Left { self.left } else { self.right };
        if (self.focus == Focus::Left || self.focus == Focus::Right) && t.cursor() is Some {
            cell(t.shown()[t.cursor().unwrap() as int].0, 0)
        } else {
            Seq::empty()
        }
    }

    /// The name of the package under the centre cursor (empty when none).
    pub open(crate) spec fn current_name(&self) -> Seq<char> {
        if self.current_index() >= 0 {
            self.data@[self.current_index()].name@
        } else {
            Seq::empty()
        }
    }

    /// The back-stack of visited package names.
    pub open(crate) spec fn history(&self) -> Seq<Seq<char>> {
        views(self.prev@)
    }

    /// The side tables of `new` show the relations of the package under its
    /// centre cursor, rebuilt from those of `old`.
    pub open(crate) spec fn sides_rebuilt(old: InstalledWidget, new: InstalledWidget) -> bool {
        new.current_index() >= 0 ==> {
            let p = new.data@[new.current_index()];
            &&& TableWidget::rows_set(old.right, name_rows(p.required_by@), new.right)
            &&& TableWidget::rows_set(old.left, dependency_rows(p.dependencies@, old.data@), new.left)
            &&& TableWidget::rows_set(old.provides, file_rows(p.provides@), new.provides)
        }
    }

    /// The table that has the keyboard is capturing search input.
    pub open(crate) spec fn focused_searching(&self) -> bool {
        match self.focus {
            Focus::Left => self.left.is_searching(),
            Focus::Right => self.right.is_searching(),
            Focus::Provides => self.provides.is_searching(),
            _ => self.centre.is_searching(),
        }
    }

    pub open(crate) spec fn left_table(&self) -> TableWidget {
        self.left
    }

    pub open(crate) spec fn right_table(&self) -> TableWidget {
        self.right
    }

    pub open(crate) spec fn centre_table(&self) -> TableWidget {
        self.centre
    }

    pub fn new() -> (r: InstalledWidget)
        ensures
            r.wf(),
            r.focus_state() == Focus::Centre,
            r.packages().len() == 0,
    {
        InstalledWidget {
            data: Vec::new(),
            filter_explicit: false,
            filter_foreign: false,
            filter_orphans: false,
            prev: Vec::new(),
            focus: Focus::Centre,
            previous_focus: Focus::Centre,
            left: TableWidget::new(&["Name"], vec![percentage(100)]).with_no_focus(),
            centre: TableWidget::new(
                &["Name", "Reason", "ReqBy", "Foreign", "Installed"],
                vec![percentage(50), percentage(15), at_least(5), at_least(3), exactly(19)],
            ),
            right: TableWidget::new(&["Name"], vec![percentage(100)]).with_no_focus(),
            provides: TableWidget::new(&[], vec![percentage(100)]).with_no_focus(),
            show_providing: false,
        }
    }

    /// Replaces the packages and rebuilds the tables.
    pub fn set_data(&mut self, data: Vec<Package>)
        requires
            old(self).wf(),
        ensures
            final(self).wf(),
            final(self).packages() == data@,
            TableWidget::rows_set(
                old(self).centre_table(),
                centre_rows(data@, old(self).filters().0, old(self).filters().1, old(self).filters().2),
                final(self).centre_table(),
            ),
    {
        self.data = data;
        self.filter_data();
    }

    /// Shows the packages that pass the filters in the centre table and
    /// rebuilds the side tables for the package under the cursor.
    fn filter_data(&mut self)
        requires
            old(self).wf(),
        ensures
            final(self).wf(),
            final(self).data == old(self).data,
            final(self).focus == old(self).focus,
            final(self).filter_explicit == old(self).filter_explicit,
            final(self).filter_foreign == old(self).filter_foreign,
            final(self).filter_orphans == old(self).filter_orphans,
            final(self).show_providing == old(self).show_providing,
            TableWidget::rows_set(
                old(self).centre,
                centre_rows(old(self).data@, old(self).filter_explicit, old(self).filter_foreign, old(self).filter_orphans),
                final(self).centre,
            ),
            final(self).centre.title_text() == Some(installed_title(final(self).centre.shown(), final(self).filters())),
            Self::sides_rebuilt(*old(self), *final(self)),
    {
        let mut rows: Vec<TableRow> = Vec::new();
        let mut i: usize = 0;
        let ghost ex = self.filter_explicit;
        let ghost fo = self.filter_foreign;
        let ghost or = self.filter_orphans;
        while i < self.data.len()
            invariant
                ex == self.filter_explicit,
                fo == self.filter_foreign,
                or == self.filter_orphans,
                i <= self.data@.len(),
                row_views(rows@) == centre_rows(self.data@.take(i as int), ex, fo, or),
            decreases self.data.len() - i,
        {
            let p = &self.data[i];
            let ghost before = row_views(rows@);
            assert(self.data@.take(i + 1).drop_last() =~= self.data@.take(i as int));
            assert(self.data@.take(i + 1).last() == *p);
            let keep = match &p.installed {
                Some(_) => {
                    (!self.filter_explicit || p.reason.is_explicit())
                    && (!self.filter_foreign || !p.validated)
                    && (!self.filter_orphans || (p.required_by.len() == 0 && p.optional_for.len() == 0
                        && p.reason.is_dependency()))
                },
                None => false,
            };
            if keep {
                let date = match &p.installed {
                    Some(d) => copy_string(d),
                    None => String::new(),
                };
                let foreign = if p.validated { String::new() } else { String::from_str("X") };
                let cells = vec![
                    copy_string(&p.name),
                    reason_string(&p.reason),
                    decimal_string(p.required_by.len()),
                    foreign,
                    date,
                ];
                let highlight = if p.reason.is_explicit() { Some(RowColor::Green) } else { None };
                let row = TableRow { cells, highlight };
                proof {
                    reveal_strlit("X");
                    assert(row@.0 =~= package_row(*p).0);
                }
                rows.push(row);
                assert(row_views(rows@) =~= before.push(package_row(*p)));
            }
            i = i + 1;
        }
        assert(self.data@.take(i as int) =~= self.data@);
        self.centre.set_data(rows);
        let title = installed_title_string(self.centre.rows(), self.filter_explicit, self.filter_foreign, self.filter_orphans);
        self.centre.set_title(title.as_str());
        self.update_dependency_tables();
    }

    /// The package under the centre cursor.
    fn current_position(&self) -> (r: Option<usize>)
        requires
            self.wf(),
        ensures
            r.is_none() == (self.current_index() < 0),
            r.is_some() ==> r.unwrap() as int == self.current_index() && r.unwrap() < self.data@.len(),
    {
        match self.centre.get_current() {
            Some(row) => {
                if row.cells.len() > 0 {
                    assert(cell(row@.0, 0) == row.cells@[0]@);
                    find_package(&self.data, &row.cells[0])
                } else {
                    let empty = String::new();
                    assert(cell(row@.0, 0) == empty@);
                    find_package(&self.data, &empty)
                }
            },
            None => None,
        }
    }

    /// Rebuilds the dependents, dependencies and provided-files tables from
    /// the package under the centre cursor; with no such package they are
    /// left as they are.
    #[verifier::rlimit(60)]
    fn update_dependency_tables(&mut self)
        requires
            old(self).wf(),
        ensures
            final(self).prev == old(self).prev,
            final(self).wf(),
            final(self).data == old(self).data,
            final(self).centre == old(self).centre,
            final(self).focus == old(self).focus,
            final(self).previous_focus == old(self).previous_focus,
            final(self).filter_explicit == old(self).filter_explicit,
            final(self).filter_foreign == old(self).filter_foreign,
            final(self).filter_orphans == old(self).filter_orphans,
            final(self).show_providing == old(self).show_providing,
            old(self).current_index() >= 0 ==> {
                let p = old(self).data@[old(self).current_index()];
                &&& TableWidget::rows_set(old(self).right, name_rows(p.required_by@), final(self).right)
                &&& TableWidget::rows_set(old(self).left, dependency_rows(p.dependencies@, old(self).data@), final(self).left)
                &&& TableWidget::rows_set(old(self).provides, file_rows(p.provides@), final(self).provides)
            },
            old(self).current_index() < 0 ==> final(self).left == old(self).left && final(self).right == old(self).right
                && final(self).provides == old(self).provides,
    {
        let pos = match self.current_position() {
            Some(p) => p,
            None => {
                return;
            },
        };
        let ghost p = self.data@[pos as int];
        // dependents
        let mut rows: Vec<TableRow> = Vec::new();
        let n = self.data[pos].required_by.len();
        let mut i: usize = 0;
        while i < n
            invariant
                pos < self.data@.len(),
                p == self.data@[pos as int],
                n == p.required_by@.len(),
                i <= n,
                row_views(rows@) == name_rows(p.required_by@.take(i as int)),
            decreases n - i,
        {
            let r = one_cell(&self.data[pos].required_by[i], None);
            let ghost before = row_views(rows@);
            rows.push(r);
            proof {
                let x = p.required_by@[i as int];
                assert(p.required_by@.take(i + 1) =~= p.required_by@.take(i as int).push(x));
                assert(name_rows(p.required_by@.take(i as int).push(x)) =~= name_rows(p.required_by@.take(i as int)).push((seq![x@], None::<RowColor>)));
                assert(row_views(rows@) =~= before.push(r@));
            }
            i = i + 1;
        }
        assert(p.required_by@.take(n as int) =~= p.required_by@);
        self.right.set_data(rows);
        let title = String::from_str("Required by ").concat(decimal_string(n).as_str());
        self.right.set_title(title.as_str());
        // dependencies
        let mut rows: Vec<TableRow> = Vec::new();
        let n = self.data[pos].dependencies.len();
        let mut i: usize = 0;
        while i < n
            invariant
                pos < self.data@.len(),
                p == self.data@[pos as int],
                n == p.dependencies@.len(),
                i <= n,
                row_views(rows@) == dependency_rows(p.dependencies@.take(i as int), self.data@),
            decreases n - i,
        {
            let name = &self.data[pos].dependencies[i];
            let color = match find_package(&self.data, name) {
                Some(k) => if self.data[k].reason.is_explicit() { Some(RowColor::Green) } else { None },
                None => Some(RowColor::Red),
            };
            let r = one_cell(name, color);
            let ghost before = row_views(rows@);
            rows.push(r);
            proof {
                let x = p.dependencies@[i as int];
                assert(p.dependencies@.take(i + 1) =~= p.dependencies@.take(i as int).push(x));
                assert(dependency_rows(p.dependencies@.take(i as int).push(x), self.data@) =~= dependency_rows(p.dependencies@.take(i as int), self.data@).push((seq![x@], dependency_color(self.data@, x@))));
                assert(row_views(rows@) =~= before.push(r@));
            }
            i = i + 1;
        }
        assert(p.dependencies@.take(n as int) =~= p.dependencies@);
        let title = String::from_str("Depends on ").concat(decimal_string(n).as_str());
        self.left.set_title(title.as_str());
        self.left.set_data(rows);
        // provided files
        let mut rows: Vec<TableRow> = Vec::new();
        let n = self.data[pos].provides.len();
        let mut i: usize = 0;
        while i < n
            invariant
                pos < self.data@.len(),
                p == self.data@[pos as int],
                n == p.provides@.len(),
                i <= n,
                row_views(rows@) == file_rows(p.provides@.take(i as int)),
            decreases n - i,
        {
            let path = &self.data[pos].provides[i];
            let ghost before = row_views(rows@);
            assert(p.provides@.take(i + 1).drop_last() =~= p.provides@.take(i as int));
            assert(p.provides@.take(i + 1).last() == *path);
            let cs = crate::text::chars_of(path.as_str());
            let dir = cs.len() > 0 && cs[cs.len() - 1] == '/';
            if !dir {
                let r = one_cell(path, None);
                rows.push(r);
                assert(row_views(rows@) =~= before.push((seq![path@], None::<RowColor>)));
            }
            i = i + 1;
        }
        assert(p.provides@.take(n as int) =~= p.provides@);
        let count = rows.len();
        self.provides.set_title(decimal_string(count).concat(" files").as_str());
        self.provides.set_data(rows);
    }

    fn update_focus(&mut self)
        requires
            old(self).left.wf(),
            old(self).right.wf(),
            old(self).centre.wf(),
            old(self).provides.wf(),
            is_panel(old(self).focus),
            is_panel(old(self).previous_focus),
        ensures
            final(self).left.data_view() == old(self).left.data_view() && final(self).left.filter_text() == old(self).left.filter_text(),
            final(self).right.data_view() == old(self).right.data_view() && final(self).right.filter_text() == old(self).right.filter_text(),
            final(self).prev == old(self).prev,
            final(self).wf(),
            final(self).data == old(self).data,
            final(self).focus == old(self).focus,
            final(self).previous_focus == old(self).previous_focus,
            final(self).left.shown() == old(self).left.shown() && final(self).left.cursor() == old(self).left.cursor(),
            final(self).right.shown() == old(self).right.shown() && final(self).right.cursor() == old(self).right.cursor(),
            final(self).centre.shown() == old(self).centre.shown() && final(self).centre.cursor() == old(self).centre.cursor()
                && final(self).centre.selection() == old(self).centre.selection(),
    {
        self.left.focus(TableFocus::Unfocused);
        self.centre.focus(TableFocus::UnfocusedDimmed);
        self.right.focus(TableFocus::Unfocused);
        self.provides.focus(TableFocus::Unfocused);
        match self.focus {
            Focus::Left => self.left.focus(TableFocus::Focused),
            Focus::Right => self.right.focus(TableFocus::Focused),
            Focus::Provides => self.provides.focus(TableFocus::Focused),
            _ => self.centre.focus(TableFocus::Focused),
        }
    }

    /// Gives the keyboard to another panel, remembering the one that had it.
    fn change_focus(&mut self, new_focus: Focus)
        requires
            old(self).wf(),
            is_panel(new_focus),
        ensures
            final(self).left.data_view() == old(self).left.data_view() && final(self).left.filter_text() == old(self).left.filter_text(),
            final(self).right.data_view() == old(self).right.data_view() && final(self).right.filter_text() == old(self).right.filter_text(),
            final(self).prev == old(self).prev,
            final(self).wf(),
            final(self).focus == new_focus,
            new_focus != old(self).focus ==> final(self).previous_focus == old(self).focus,
            new_focus == old(self).focus ==> final(self).previous_focus == old(self).previous_focus,
            final(self).data == old(self).data,
            final(self).left.shown() == old(self).left.shown() && final(self).left.cursor() == old(self).left.cursor(),
            final(self).right.shown() == old(self).right.shown() && final(self).right.cursor() == old(self).right.cursor(),
            final(self).centre.shown() == old(self).centre.shown() && final(self).centre.cursor() == old(self).centre.cursor()
                && final(self).centre.selection() == old(self).centre.selection(),
    {
        if new_focus == self.focus {
            return;
        }
        self.previous_focus = self.focus;
        self.focus = new_focus;
        self.update_focus();
    }

    /// Moves the focus sideways: from the centre to the dependencies (left,
    /// `dir < 0`) or dependents (right, `dir > 0`) of the package under the
    /// cursor, only when there are some, with that table's cursor on its
    /// first row; from a side table back to the centre.
    pub fn cycle_focus_horiz(&mut self, dir: i32)
        requires
            old(self).wf(),
        ensures
            final(self).wf(),
            final(self).packages() == old(self).packages(),
            old(self).focus_state() == Focus::Centre && dir < 0 ==> {
                let i = old(self).current_index();
                if i >= 0 && old(self).packages()[i].dependencies@.len() > 0 {
                    &&& final(self).focus_state() == Focus::Left
                    &&& same_contents(final(self).left_table().data_view(), dependency_rows(old(self).packages()[i].dependencies@, old(self).packages()))
                    &&& final(self).left_table().filter_text() == old(self).left_table().filter_text()
                    &&& final(self).left_table().cursor() == (if final(self).left_table().shown().len() > 0 {
                        Some(0usize)
                    } else {
                        None
                    })
                    &&& (final(self).left_table().filter_text().len() == 0 ==> final(self).left_table().cursor() == Some(0usize))
                } else {
                    final(self).focus_state() == Focus::Centre
                }
            },
            old(self).focus_state() == Focus::Centre && dir > 0 ==> {
                let i = old(self).current_index();
                if i >= 0 && old(self).packages()[i].required_by@.len() > 0 {
                    &&& final(self).focus_state() == Focus::Right
                    &&& same_contents(final(self).right_table().data_view(), name_rows(old(self).packages()[i].required_by@))
                    &&& final(self).right_table().filter_text() == old(self).right_table().filter_text()
                    &&& final(self).right_table().cursor() == (if final(self).right_table().shown().len() > 0 {
                        Some(0usize)
                    } else {
                        None
                    })
                    &&& (final(self).right_table().filter_text().len() == 0 ==> final(self).right_table().cursor() == Some(0usize))
                } else {
                    final(self).focus_state() == Focus::Centre
                }
            },
            old(self).focus_state() == Focus::Left && dir > 0 ==> final(self).focus_state() == Focus::Centre,
            old(self).focus_state() == Focus::Right && dir < 0 ==> final(self).focus_state() == Focus::Centre,
            !(old(self).focus_state() == Focus::Centre && dir != 0) && !(old(self).focus_state() == Focus::Left && dir > 0)
                && !(old(self).focus_state() == Focus::Right && dir < 0) ==> final(self).focus_state() == old(self).focus_state(),
            final(self).centre_table().cursor() == old(self).centre_table().cursor(),
            final(self).centre_table().shown() == old(self).centre_table().shown(),
            final(self).focus_state() != old(self).focus_state() ==> final(self).previous_focus_state() == old(self).focus_state(),
            final(self).focus_state() == old(self).focus_state() ==> final(self).previous_focus_state() == old(self).previous_focus_state(),
    {
        match self.focus {
            Focus::Centre => {
                if dir == 0 {
                    return;
                }
                let pos = match self.current_position() {
                    Some(p) => p,
                    None => {
                        return;
                    },
                };
                if dir < 0 && self.data[pos].dependencies.len() > 0 {
                    self.update_dependency_tables();
                    self.change_focus(Focus::Left);
                    let first = if self.left.rows().len() > 0 { Some(0) } else { None };
                    proof {
                        if self.left.filter_text().len() == 0 {
                            crate::table::lemma_unfiltered_len(self.left);
                            crate::table::lemma_same_contents_len(self.left.data_view(), dependency_rows(self.data@[pos as int].dependencies@, self.data@));
                        }
                    }
                    self.left.set_current(first);
                } else if dir > 0 && self.data[pos].required_by.len() > 0 {
                    self.update_dependency_tables();
                    self.change_focus(Focus::Right);
                    let first = if self.right.rows().len() > 0 { Some(0) } else { None };
                    proof {
                        if self.right.filter_text().len() == 0 {
                            crate::table::lemma_unfiltered_len(self.right);
                            crate::table::lemma_same_contents_len(self.right.data_view(), name_rows(self.data@[pos as int].required_by@));
                        }
                    }
                    self.right.set_current(first);
                }
            },
            Focus::Left => {
                if dir > 0 {
                    self.change_focus(Focus::Centre);
                }
            },
            Focus::Right => {
                if dir < 0 {
                    self.change_focus(Focus::Centre);
                }
            },
            _ => {},
        }
    }

    /// Moves the focus into the provided-files table, or back to where it
    /// came from, while that table is shown.
    pub fn cycle_focus_vert(&mut self)
        requires
            old(self).wf(),
        ensures
            final(self).wf(),
            !old(self).providing_shown() ==> final(self).focus_state() == old(self).focus_state(),
            old(self).providing_shown() && old(self).focus_state() == Focus::Provides ==> final(self).focus_state() == old(self).previous_focus_state(),
            old(self).providing_shown() && old(self).focus_state() != Focus::Provides ==> final(self).focus_state() == Focus::Provides,
            final(self).centre_table().shown() == old(self).centre_table().shown() && final(self).centre_table().cursor() == old(self).centre_table().cursor(),
            final(self).packages() == old(self).packages(),
    {
        if self.show_providing {
            let target = match self.focus {
                Focus::Provides => self.previous_focus,
                _ => Focus::Provides,
            };
            self.change_focus(target);
        }
    }
}


/// The first row of `rows` whose first cell is `name`.
fn find_by_name(rows: &Vec<TableRow>, name: &String) -> (r: Option<usize>)
    ensures
        r.is_some() ==> r.unwrap() < rows@.len() && cell(rows@[r.unwrap() as int]@.0, 0) == name@,
        r.is_none() ==> forall|j: int| 0 <= j < rows@.len() ==> cell(#[trigger] rows@[j]@.0, 0) != name@,
{
    let mut i: usize = 0;
    while i < rows.len()
        invariant
            i <= rows@.len(),
            forall|j: int| 0 <= j < i ==> cell(#[trigger] rows@[j]@.0, 0) != name@,
        decreases rows.len() - i,
    {
        let row = &rows[i];
        if row.cells.len() > 0 {
            assert(cell(row@.0, 0) == row.cells@[0]@);
            if row.cells[0] == *name {
                return Some(i);
            }
        } else {
            assert(cell(row@.0, 0) == Seq::<char>::empty());
            if name.as_str().is_empty() {
                return Some(i);
            }
        }
        i = i + 1;
    }
    None
}

impl InstalledWidget {
    /// Focuses the centre table and puts its cursor on the row of the
    /// package named `name`, when it is shown; the side tables follow.
    fn goto_package(&mut self, name: &String)
        requires
            old(self).wf(),
        ensures
            final(self).prev == old(self).prev,
            final(self).wf(),
            final(self).focus == Focus::Centre,
            final(self).data == old(self).data,
            final(self).centre.shown() == old(self).centre.shown(),
            (exists|j: int| 0 <= j < old(self).centre.shown().len() && cell(old(self).centre.shown()[j].0, 0) == name@)
                ==> cell(final(self).centre.shown()[final(self).centre.cursor().unwrap() as int].0, 0) == name@,
            !(exists|j: int| 0 <= j < old(self).centre.shown().len() && cell(old(self).centre.shown()[j].0, 0) == name@)
                ==> final(self).centre.cursor() == old(self).centre.cursor(),
    {
        self.change_focus(Focus::Centre);
        match find_by_name(self.centre.rows(), name) {
            Some(i) => {
                self.centre.set_current(Some(i));
            },
            None => {
                proof {
                    assert forall|j: int| 0 <= j < self.centre.shown().len() implies cell(self.centre.shown()[j].0, 0) != name@ by {
                        assert(self.centre.shown()[j] == self.centre.filtered@[j]@);
                    }
                }
            },
        }
        self.update_dependency_tables();
    }

    /// On a row of a side table: remembers the current package and goes to
    /// the package that the row names. Nothing happens elsewhere, on an
    /// empty table, or for a row with an empty name.
    fn handle_enter(&mut self)
        requires
            old(self).wf(),
        ensures
            final(self).wf(),
            final(self).data == old(self).data,
            old(self).side_target().len() == 0 ==> *final(self) == *old(self),
            old(self).side_target().len() > 0 ==> {
                let name = old(self).side_target();
                &&& views(final(self).prev@) == views(old(self).prev@).push(old(self).current_name())
                &&& final(self).focus == Focus::Centre
                &&& final(self).centre.shown() == old(self).centre.shown()
                &&& (exists|j: int| 0 <= j < old(self).centre.shown().len() && cell(old(self).centre.shown()[j].0, 0) == name)
                    ==> cell(final(self).centre.shown()[final(self).centre.cursor().unwrap() as int].0, 0) == name
                &&& !(exists|j: int| 0 <= j < old(self).centre.shown().len() && cell(old(self).centre.shown()[j].0, 0) == name)
                    ==> final(self).centre.cursor() == old(self).centre.cursor()
            },
    {
        let new_name = match self.focus {
            Focus::Left => match self.left.get_current() {
                Some(row) => if row.cells.len() > 0 { copy_string(&row.cells[0]) } else { String::new() },
                None => String::new(),
            },
            Focus::Right => match self.right.get_current() {
                Some(row) => if row.cells.len() > 0 { copy_string(&row.cells[0]) } else { String::new() },
                None => String::new(),
            },
            _ => String::new(),
        };
        if new_name.as_str().is_empty() {
            return;
        }
        let here = match self.current_position() {
            Some(p) => copy_string(&self.data[p].name),
            None => String::new(),
        };
        let ghost before = views(self.prev@);
        self.prev.push(here);
        assert(views(self.prev@) =~= before.push(here@));
        self.goto_package(&new_name);
    }

    /// Which table has the keyboard.
    pub fn focus(&self) -> (r: Focus)
        ensures
            r == self.focus_state(),
    {
        self.focus
    }

    pub fn left(&self) -> (r: &TableWidget)
        ensures
            *r == self.left_table(),
    {
        &self.left
    }

    pub fn right(&self) -> (r: &TableWidget)
        ensures
            *r == self.right_table(),
    {
        &self.right
    }

    pub fn centre(&self) -> (r: &TableWidget)
        ensures
            *r == self.centre_table(),
    {
        &self.centre
    }

    pub fn provides(&self) -> &TableWidget {
        &self.provides
    }

    /// Whether the provided-files table is shown.
    pub fn show_providing(&self) -> (r: bool)
        ensures
            r == self.providing_shown(),
    {
        self.show_providing
    }

    /// Shows the package named `name` in the centre table, focused.
    pub fn show_package(&mut self, name: &String)
        requires
            old(self).wf(),
        ensures
            final(self).wf(),
            final(self).focus_state() == Focus::Centre,
            final(self).packages() == old(self).packages(),
            final(self).centre_table().shown() == old(self).centre_table().shown(),
            (exists|j: int| 0 <= j < old(self).centre_table().shown().len() && cell(old(self).centre_table().shown()[j].0, 0) == name@)
                ==> cell(final(self).centre_table().shown()[final(self).centre_table().cursor().unwrap() as int].0, 0) == name@,
    {
        self.goto_package(name);
    }

    /// Gives the keyboard to a panel.
    pub fn set_focus(&mut self, focus: Focus)
        requires
            old(self).wf(),
            is_panel(focus),
        ensures
            final(self).wf(),
            final(self).focus_state() == focus,
            focus != old(self).focus_state() ==> final(self).previous_focus_state() == old(self).focus_state(),
            final(self).packages() == old(self).packages(),
    {
        self.change_focus(focus);
    }

    /// Goes back to the package visited before, if any.
    fn go_back(&mut self)
        requires
            old(self).wf(),
        ensures
            final(self).wf(),
            final(self).data == old(self).data,
            old(self).prev@.len() == 0 ==> *final(self) == *old(self),
            old(self).prev@.len() > 0 ==> {
                let name = old(self).prev@.last()@;
                &&& final(self).prev@ == old(self).prev@.drop_last()
                &&& final(self).focus == Focus::Centre
                &&& final(self).centre.shown() == old(self).centre.shown()
                &&& (exists|j: int| 0 <= j < old(self).centre.shown().len() && cell(old(self).centre.shown()[j].0, 0) == name)
                    ==> cell(final(self).centre.shown()[final(self).centre.cursor().unwrap() as int].0, 0) == name
                &&& !(exists|j: int| 0 <= j < old(self).centre.shown().len() && cell(old(self).centre.shown()[j].0, 0) == name)
                    ==> final(self).centre.cursor() == old(self).centre.cursor()
            },
    {
        if self.prev.len() == 0 {
            return;
        }
        let ghost last = self.prev@.last();
        match self.prev.pop() {
            Some(name) => {
                assert(name == last);
                self.goto_package(&name);
            },
            None => {},
        }
    }

    /// The package under the centre cursor.
    pub fn current_package(&self) -> (r: Option<&Package>)
        requires
            self.wf(),
        ensures
            self.current_index() < 0 ==> r.is_none(),
            self.current_index() >= 0 ==> r == Some(&self.packages()[self.current_index()]),
    {
        match self.current_position() {
            Some(p) => Some(&self.data[p]),
            None => None,
        }
    }

    /// The commands of this view.
    pub fn command_descriptions(&self) -> (r: Vec<CommandDescription>)
        ensures
            r@.len() == 9,
    {
        vec![
            command("r", "Remove selected packages", "Remove"),
            command("e", "Explicitly installed packages", "Explicit"),
            command("f", "Foreign packages", "Foreign"),
            command("o", "Orphaned packages", "Orphans"),
            command("p", "View files provided by package", "Provides"),
            command("P", "Focus providing packages table", ""),
            command("←/h", "Left dependency table", ""),
            command("→/l", "Right dependent table", ""),
            command("Backspace", "Go to previous package", ""),
        ]
    }

    /// The names of the packages selected in the centre table.
    fn selected_names(&self) -> (r: Vec<String>)
        requires
            self.wf(),
        ensures
            views(r@) == first_names(pick(self.centre.shown(), self.centre.selection())),
    {
        let selected = self.centre.get_selected();
        proof {
            lemma_selected_views(selected@, pick(self.centre.shown(), self.centre.selection()));
        }
        first_cells(&selected)
    }

    /// Handles a key press. The focused table sees it first; a key it takes
    /// is done with (the side tables follow a centre cursor move). Otherwise:
    /// `r` asks to remove the selected packages; `e`, `f`, `o` toggle the
    /// explicit, foreign and orphan filters; left/`h` and right/`l` move the
    /// focus sideways; `P` moves into or out of the provided-files table and
    /// `p` shows or hides it; Backspace goes back; Enter goes to the package
    /// named by a side table's row.
    pub fn handle_key_event(&mut self, key: &Key) -> (r: Option<EventResult>)
        requires
            old(self).wf(),
        ensures
            final(self).wf(),
            final(self).packages() == old(self).packages(),
            old(self).focus_state() == Focus::Centre && !old(self).centre_table().is_searching()
                && (key.code == KeyCode::Left || key.code == KeyCode::Char('h')) ==> {
                let i = old(self).current_index();
                &&& r.is_none()
                &&& if i >= 0 && old(self).packages()[i].dependencies@.len() > 0 {
                    &&& final(self).focus_state() == Focus::Left
                    &&& final(self).left_table().cursor() == (if final(self).left_table().shown().len() > 0 {
                        Some(0usize)
                    } else {
                        None
                    })
                } else {
                    final(self).focus_state() == Focus::Centre
                }
            },
            old(self).focus_state() == Focus::Centre && !old(self).centre_table().is_searching()
                && (key.code == KeyCode::Right || key.code == KeyCode::Char('l')) ==> {
                let i = old(self).current_index();
                &&& r.is_none()
                &&& if i >= 0 && old(self).packages()[i].required_by@.len() > 0 {
                    &&& final(self).focus_state() == Focus::Right
                    &&& final(self).right_table().cursor() == (if final(self).right_table().shown().len() > 0 {
                        Some(0usize)
                    } else {
                        None
                    })
                } else {
                    final(self).focus_state() == Focus::Centre
                }
            },
            old(self).focus_state() == Focus::Left && !old(self).left_table().is_searching()
                && (key.code == KeyCode::Right || key.code == KeyCode::Char('l')) ==> final(self).focus_state() == Focus::Centre,
            !old(self).focused_searching() && key.code == KeyCode::Char('e') ==> r.is_none() && final(self).filters() == (
                !old(self).filters().0,
                old(self).filters().1,
                old(self).filters().2,
            ) && TableWidget::rows_set(
                old(self).centre_table(),
                centre_rows(old(self).packages(), final(self).filters().0, final(self).filters().1, final(self).filters().2),
                final(self).centre_table(),
            ) && Self::sides_rebuilt(*old(self), *final(self)),
            !old(self).focused_searching() && key.code == KeyCode::Char('f') ==> r.is_none() && final(self).filters() == (
                old(self).filters().0,
                !old(self).filters().1,
                old(self).filters().2,
            ) && TableWidget::rows_set(
                old(self).centre_table(),
                centre_rows(old(self).packages(), final(self).filters().0, final(self).filters().1, final(self).filters().2),
                final(self).centre_table(),
            ) && Self::sides_rebuilt(*old(self), *final(self)),
            !old(self).focused_searching() && key.code == KeyCode::Char('o') ==> r.is_none() && final(self).filters() == (
                old(self).filters().0,
                old(self).filters().1,
                !old(self).filters().2,
            ) && TableWidget::rows_set(
                old(self).centre_table(),
                centre_rows(old(self).packages(), final(self).filters().0, final(self).filters().1, final(self).filters().2),
                final(self).centre_table(),
            ) && Self::sides_rebuilt(*old(self), *final(self)),
            !old(self).focused_searching() && global_key(*key) ==> r.is_none() && *final(self) == *old(self),
            !old(self).focused_searching() && key.code == KeyCode::Enter ==> r.is_none() && {
                let name = old(self).side_target();
                &&& name.len() == 0 ==> *final(self) == *old(self)
                &&& name.len() > 0 ==> {
                    &&& final(self).history() == old(self).history().push(old(self).current_name())
                    &&& final(self).focus_state() == Focus::Centre
                    &&& (exists|j: int| 0 <= j < old(self).centre_table().shown().len() && cell(old(self).centre_table().shown()[j].0, 0) == name)
                        ==> cell(final(self).centre_table().shown()[final(self).centre_table().cursor().unwrap() as int].0, 0) == name
                }
            },
            !old(self).focused_searching() && key.code == KeyCode::Backspace ==> r.is_none() && {
                &&& old(self).history().len() == 0 ==> *final(self) == *old(self)
                &&& old(self).history().len() > 0 ==> {
                    let name = old(self).history().last();
                    &&& final(self).history() == old(self).history().drop_last()
                    &&& final(self).focus_state() == Focus::Centre
                    &&& (exists|j: int| 0 <= j < old(self).centre_table().shown().len() && cell(old(self).centre_table().shown()[j].0, 0) == name)
                        ==> cell(final(self).centre_table().shown()[final(self).centre_table().cursor().unwrap() as int].0, 0) == name
                }
            },
            !old(self).focused_searching() && key.code == KeyCode::Char('r') ==> (r matches Some(
                EventResult::Command(EventCommand::RemoveSelected(names)),
            ) && views(names@) == first_names(pick(old(self).centre_table().shown(), old(self).centre_table().selection()))),
            old(self).focus_state() == Focus::Right && !old(self).right_table().is_searching()
                && (key.code == KeyCode::Left || key.code == KeyCode::Char('h')) ==> final(self).focus_state() == Focus::Centre,
    {
        let handled = match self.focus {
            Focus::Left => self.left.handle_key_event(key),
            Focus::Right => self.right.handle_key_event(key),
            Focus::Provides => self.provides.handle_key_event(key),
            _ => self.centre.handle_key_event(key),
        };
        if handled {
            if self.focus == Focus::Centre {
                self.update_dependency_tables();
            }
            return Some(EventResult::Continue);
        }
        match key.code {
            KeyCode::Char('r') => {
                let names = self.selected_names();
                return Some(EventResult::Command(EventCommand::RemoveSelected(names)));
            },
            KeyCode::Char('e') => {
                self.filter_explicit = !self.filter_explicit;
                self.filter_data();
            },
            KeyCode::Char('f') => {
                self.filter_foreign = !self.filter_foreign;
                self.filter_data();
            },
            KeyCode::Char('o') => {
                self.filter_orphans = !self.filter_orphans;
                self.filter_data();
            },
            KeyCode::Left | KeyCode::Char('h') => self.cycle_focus_horiz(-1),
            KeyCode::Right | KeyCode::Char('l') => self.cycle_focus_horiz(1),
            KeyCode::Char('P') => self.cycle_focus_vert(),
            KeyCode::Char('p') => {
                self.show_providing = !self.show_providing;
                if !self.show_providing && self.focus == Focus::Provides {
                    let back = if self.previous_focus != Focus::Provides {
                        self.previous_focus
                    } else {
                        Focus::Centre
                    };
                    self.change_focus(back);
                }
            },
            KeyCode::Backspace => self.go_back(),
            KeyCode::Enter => self.handle_enter(),
            _ => {},
        }
        None
    }
}

} // verus!
