//! The all-packages view: every known package, installed or not.
use vstd::prelude::*;
use crate::keys::{Key, KeyCode};
use crate::natural::decimal_string;
use crate::rows::{row_views, RowColor, RowView, TableRow};
use crate::structs::{same_package, same_packages, command, CommandDescription, EventCommand, EventResult, Package};
use crate::table::{exactly, percentage, pick, table_key, TableWidget};
use crate::text::{copy_string, views};
use crate::installed::{find_package, package_index};
use crate::rows::cell;
use crate::keys::global_key;

verus! {

/// The row of a package: name, install date (empty when not installed),
/// description; installed packages are green.
pub open spec fn package_line(p: Package) -> RowView {
    (
        seq![p.name@, match p.installed {
            Some(d) => d@,
            None => Seq::empty(),
        }, p.description@],
        if p.installed is Some {
            Some(RowColor::Green)
        } else {
            None
        },
    )
}

pub open spec fn package_lines(data: Seq<Package>) -> Seq<RowView> {
    data.map_values(|p: Package| package_line(p))
}

/// The first cell of each row that has one, in order.
pub open spec fn first_names(rows: Seq<RowView>) -> Seq<Seq<char>>
    decreases rows.len(),
{
    if rows.len() == 0 {
        Seq::empty()
    } else if rows.last().0.len() > 0 {
        first_names(rows.drop_last()).push(rows.last().0[0])
    } else {
        first_names(rows.drop_last())
    }
}

/// The names of the rows (their first cells), for those that have one.
pub fn first_cells(rows: &Vec<&TableRow>) -> (r: Vec<String>)
    ensures
        views(r@) == first_names(rows@.map_values(|x: &TableRow| x@)),
{
    let ghost all = rows@.map_values(|x: &TableRow| x@);
    let mut names: Vec<String> = Vec::new();
    let mut i: usize = 0;
    while i < rows.len()
        invariant
            all == rows@.map_values(|x: &TableRow| x@),
            i <= rows@.len(),
            views(names@) == first_names(all.take(i as int)),
        decreases rows.len() - i,
    {
        let ghost before = views(names@);
        assert(all.take(i + 1).drop_last() =~= all.take(i as int));
        assert(all.take(i + 1).last() == rows@[i as int]@);
        if rows[i].cells.len() > 0 {
            let n = copy_string(&rows[i].cells[0]);
            names.push(n);
            assert(views(names@) =~= before.push(rows@[i as int]@.0[0]));
        } else {
            assert(views(names@) =~= before);
        }
        i = i + 1;
    }
    assert(all.take(i as int) =~= all);
    names
}

/// The first package of `data` with the name `name`.
pub fn package_named<'a>(data: &'a Vec<Package>, name: &String) -> (r: Option<&'a Package>)
    ensures
        r.is_some() ==> r.unwrap().name@ == name@ && data@.contains(*r.unwrap()),
        r.is_none() ==> forall|i: int| 0 <= i < data@.len() ==> #[trigger] data@[i].name@ != name@,
{
    let mut i: usize = 0;
    while i < data.len()
        invariant
            i <= data@.len(),
            forall|k: int| 0 <= k < i ==> #[trigger] data@[k].name@ != name@,
        decreases data.len() - i,
    {
        if data[i].name == *name {
            return Some(&data[i]);
        }
        i = i + 1;
    }
    None
}

pub proof fn lemma_selected_views(rows: Seq<&TableRow>, picked: Seq<RowView>)
    requires
        rows.len() == picked.len(),
        forall|i: int| 0 <= i < rows.len() ==> (#[trigger] rows[i])@ == picked[i],
    ensures
        rows.map_values(|x: &TableRow| x@) == picked,
{
    assert(rows.map_values(|x: &TableRow| x@) =~= picked);
}

/// The package that the cursor row of `t` names (by its first cell): the
/// first one of `list` with that name.
pub open spec fn cursor_package(list: Seq<Package>, t: TableWidget) -> Option<Package> {
    match t.cursor() {
        None => None,
        Some(i) => {
            let k = package_index(list, cell(t.shown()[i as int].0, 0));
            if k < 0 {
                None
            } else {
                Some(list[k])
            }
        },
    }
}

/// The package of `list` that the cursor row of `table` names.
pub fn package_at_cursor<'a>(list: &'a Vec<Package>, table: &TableWidget) -> (r: Option<&'a Package>)
    requires
        table.wf(),
    ensures
        r.is_some() == cursor_package(list@, *table).is_some(),
        r.is_some() ==> *r.unwrap() == cursor_package(list@, *table).unwrap(),
{
    match table.get_current() {
        Some(row) => {
            let empty = String::new();
            let name = if row.cells.len() > 0 { &row.cells[0] } else { &empty };
            assert(cell(row@.0, 0) == name@);
            match find_package(list, name) {
                Some(k) => Some(&list[k]),
                None => None,
            }
        },
        None => None,
    }
}

/// The all-packages view.
#[derive(Debug)]
pub struct PackagesWidget {
    data: Vec<Package>,
    table: TableWidget,
}

impl PackagesWidget {
    pub closed spec fn wf(&self) -> bool {
        self.table.wf()
    }

    pub closed spec fn table_view(&self) -> TableWidget {
        self.table
    }

    /// The packages the view was given.
    pub closed spec fn stored(&self) -> Seq<Package> {
        self.data@
    }

    pub fn new() -> (r: PackagesWidget)
        ensures
            r.wf(),
    {
        PackagesWidget {
            data: Vec::new(),
            table: TableWidget::new(
                &["Name", "Installed", "Info"],
                vec![percentage(30), exactly(19), percentage(70)],
            ),
        }
    }

    pub fn table(&self) -> (r: &TableWidget)
        ensures
            *r == self.table_view(),
    {
        &self.table
    }

    /// Shows the packages; the table keeps its state when their rows are the
    /// same as before in any order.
    pub fn set_data(&mut self, data: &[Package])
        requires
            old(self).wf(),
        ensures
            final(self).wf(),
            TableWidget::rows_set(old(self).table_view(), package_lines(data@), final(self).table_view()),
            same_packages(final(self).stored(), data@),
    {
        let mut rows: Vec<TableRow> = Vec::new();
        let mut copies: Vec<Package> = Vec::new();
        let mut i: usize = 0;
        while i < data.len()
            invariant
                i <= data@.len(),
                row_views(rows@) == package_lines(data@.take(i as int)),
                copies@.len() == i,
                forall|k: int| 0 <= k < i ==> same_package(#[trigger] copies@[k], data@[k]),
            decreases data.len() - i,
        {
            let p = &data[i];
            let installed = match &p.installed {
                Some(d) => copy_string(d),
                None => String::new(),
            };
            let cells = vec![copy_string(&p.name), installed, copy_string(&p.description)];
            let highlight = if p.installed.is_some() { Some(RowColor::Green) } else { None };
            let row = TableRow { cells, highlight };
            let ghost before = row_views(rows@);
            assert(row@.0 =~= package_line(*p).0);
            rows.push(row);
            proof {
                assert(data@.take(i + 1) =~= data@.take(i as int).push(*p));
                assert(package_lines(data@.take(i as int).push(*p)) =~= package_lines(data@.take(i as int)).push(package_line(*p)));
                assert(row_views(rows@) =~= before.push(package_line(*p)));
            }
            copies.push(p.copy());
            i = i + 1;
        }
        assert(data@.take(i as int) =~= data@);
        self.data = copies;
        self.table.set_data(rows);
        self.update_title();
    }

    /// Titles the table with the number of packages shown and how many of
    /// them are installed.
    fn update_title(&mut self)
        requires
            old(self).wf(),
        ensures
            final(self).wf(),
            final(self).data == old(self).data,
            final(self).table.is_searching() == old(self).table.is_searching(),
            final(self).table.columns_view() == old(self).table.columns_view(),
            final(self).table.focus_level() == old(self).table.focus_level(),
            final(self).table.data_view() == old(self).table.data_view(),
            final(self).table.shown() == old(self).table.shown(),
            final(self).table.cursor() == old(self).table.cursor(),
            final(self).table.selection() == old(self).table.selection(),
            final(self).table.filter_text() == old(self).table.filter_text(),
            final(self).table.sort_key() == old(self).table.sort_key(),
    {
        let rows = self.table.rows();
        let mut installed: usize = 0;
        let mut i: usize = 0;
        while i < rows.len()
            invariant
                i <= rows@.len(),
                installed <= i,
            decreases rows.len() - i,
        {
            if rows[i].cells.len() > 1 && !rows[i].cells[1].as_str().is_empty() {
                installed = installed + 1;
            }
            i = i + 1;
        }
        let title = decimal_string(rows.len()).concat(" Packages (").concat(decimal_string(installed).as_str()).concat(
            " installed)",
        );
        self.table.set_title(title.as_str());
    }

    pub fn command_descriptions(&self) -> (r: Vec<CommandDescription>)
        ensures
            r@.len() == 1,
    {
        vec![command("u", "Update/Install package", "Update/Install")]
    }

    /// Handles a key press: the table first; otherwise `u` asks to install or
    /// update the selected packages.
    pub fn handle_key_event(&mut self, key: &Key) -> (r: Option<EventResult>)
        requires
            old(self).wf(),
        ensures
            final(self).wf(),
            (old(self).table_view().is_searching() || table_key(*key)) ==> r == Some(EventResult::Continue)
                && TableWidget::key_step(old(self).table_view(), *key, final(self).table_view(), true),
            !(old(self).table_view().is_searching() || table_key(*key)) && key.code != KeyCode::Char('u') ==> r.is_none(),
            !old(self).table_view().is_searching() && global_key(*key) ==> r.is_none() && *final(self) == *old(self),
            !(old(self).table_view().is_searching() || table_key(*key)) && key.code == KeyCode::Char('u') ==> (r matches Some(
                EventResult::Command(EventCommand::InstallOrUpdateSelected(names)),
            ) && views(names@) == first_names(pick(old(self).table_view().shown(), old(self).table_view().selection()))),
    {
        if self.table.handle_key_event(key) {
            self.update_title();
            return Some(EventResult::Continue);
        }
        if let KeyCode::Char('u') = key.code {
            let selected = self.table.get_selected();
            proof {
                lemma_selected_views(selected@, pick(self.table.shown(), self.table.selection()));
            }
            let names = first_cells(&selected);
            return Some(EventResult::Command(EventCommand::InstallOrUpdateSelected(names)));
        }
        None
    }

    /// The package under the cursor.
    pub fn current_package(&self) -> (r: Option<&Package>)
        requires
            self.wf(),
        ensures
            r.is_some() == cursor_package(self.stored(), self.table_view()).is_some(),
            r.is_some() ==> *r.unwrap() == cursor_package(self.stored(), self.table_view()).unwrap(),
    {
        package_at_cursor(&self.data, &self.table)
    }

}

} // verus!
