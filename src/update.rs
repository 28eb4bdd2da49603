//! The updates view: packages with a newer version available, filtered by the
//! magnitude of the change.
use vstd::prelude::*;
use crate::keys::{Key, KeyCode};
use crate::natural::{decimal_string, grouped, thousands};
use crate::packages::{cursor_package, first_cells, first_names, lemma_selected_views, package_at_cursor};
use crate::keys::global_key;
use crate::rows::{row_views, RowColor, RowView, TableRow};
use crate::structs::{command, same_package, same_packages, CommandDescription, EventCommand, EventResult, Package};
use crate::table::{exactly, percentage, pick, table_key, TableWidget};
use crate::text::{chars_of, copy_string, string_of, views};
use crate::version::{change_rank, ChangeType};

verus! {

/// A package passes the filter when it has a change at least as large as
/// the filter's (any package passes no filter).
pub open spec fn passes(p: Package, filter: Option<ChangeType>) -> bool {
    match filter {
        None => true,
        Some(f) => match p.change_type {
            Some(c) => change_rank(c) >= change_rank(f),
            None => false,
        },
    }
}

pub open spec fn change_name(c: ChangeType) -> Seq<char> {
    match c {
        ChangeType::Pkgver => "Pkgver"@,
        ChangeType::Revision => "Revision"@,
        ChangeType::Patch => "Patch"@,
        ChangeType::Minor => "Minor"@,
        ChangeType::Major => "Major"@,
        ChangeType::Epoch => "Epoch"@,
    }
}

/// `s` with spaces in front up to `width` characters.
pub open spec fn pad_left(s: Seq<char>, width: nat) -> Seq<char> {
    if s.len() >= width {
        s
    } else {
        Seq::new((width - s.len()) as nat, |i: int| ' ') + s
    }
}

/// The row of an update: name, installed version, new version, change
/// (Major when unknown), download size; changes of Major and up are green.
pub open spec fn update_line(p: Package) -> RowView {
    (
        seq![p.name@, p.version@, match p.new_version {
            Some(v) => v@,
            None => Seq::empty(),
        }, change_name(match p.change_type {
            Some(c) => c,
            None => ChangeType::Major,
        }), pad_left(match p.new_version_size {
            Some(n) => grouped(n as nat),
            None => Seq::empty(),
        }, 15)],
        if passes(p, Some(ChangeType::Major)) {
            Some(RowColor::Green)
        } else {
            None
        },
    )
}

/// The updates that pass the filter, in order.
pub open spec fn kept_updates(data: Seq<Package>, filter: Option<ChangeType>) -> Seq<Package>
    decreases data.len(),
{
    if data.len() == 0 {
        data
    } else if passes(data.last(), filter) {
        kept_updates(data.drop_last(), filter).push(data.last())
    } else {
        kept_updates(data.drop_last(), filter)
    }
}

/// The rows of the updates that pass the filter, in order.
pub open spec fn update_lines(data: Seq<Package>, filter: Option<ChangeType>) -> Seq<RowView>
    decreases data.len(),
{
    if data.len() == 0 {
        Seq::empty()
    } else if passes(data.last(), filter) {
        update_lines(data.drop_last(), filter).push(update_line(data.last()))
    } else {
        update_lines(data.drop_last(), filter)
    }
}

/// The rows depend only on what the packages hold.
pub proof fn lemma_update_lines_same(a: Seq<Package>, b: Seq<Package>, filter: Option<ChangeType>)
    requires
        a.len() == b.len(),
        forall|k: int| 0 <= k < a.len() ==> same_package(#[trigger] a[k], b[k]),
    ensures
        update_lines(a, filter) == update_lines(b, filter),
    decreases a.len(),
{
    if a.len() > 0 {
        assert(same_package(a[a.len() - 1], b[b.len() - 1]));
        lemma_update_lines_same(a.drop_last(), b.drop_last(), filter);
    }
}

fn change_string(c: ChangeType) -> (r: String)
    ensures
        r@ == change_name(c),
{
    match c {
        ChangeType::Pkgver => String::from_str("Pkgver"),
        ChangeType::Revision => String::from_str("Revision"),
        ChangeType::Patch => String::from_str("Patch"),
        ChangeType::Minor => String::from_str("Minor"),
        ChangeType::Major => String::from_str("Major"),
        ChangeType::Epoch => String::from_str("Epoch"),
    }
}

fn padded(s: String, width: usize) -> (r: String)
    ensures
        r@ == pad_left(s@, width as nat),
{
    let cs = chars_of(s.as_str());
    if cs.len() >= width {
        return s;
    }
    let mut out: Vec<char> = Vec::new();
    let fill = width - cs.len();
    let mut i: usize = 0;
    while i < fill
        invariant
            i <= fill,
            out@ == Seq::new(i as nat, |k: int| ' '),
        decreases fill - i,
    {
        out.push(' ');
        i = i + 1;
        assert(out@ =~= Seq::new(i as nat, |k: int| ' '));
    }
    let mut j: usize = 0;
    while j < cs.len()
        invariant
            j <= cs@.len(),
            cs@ == s@,
            out@ == Seq::new(fill as nat, |k: int| ' ') + cs@.take(j as int),
        decreases cs.len() - j,
    {
        out.push(cs[j]);
        j = j + 1;
        assert(out@ =~= Seq::new(fill as nat, |k: int| ' ') + cs@.take(j as int));
    }
    assert(cs@.take(j as int) =~= cs@);
    string_of(&out)
}

fn passes_exec(p: &Package, filter: Option<ChangeType>) -> (r: bool)
    ensures
        r == passes(*p, filter),
{
    match filter {
        None => true,
        Some(f) => match p.change_type {
            Some(c) => c.at_least(&f),
            None => false,
        },
    }
}

/// The updates view.
#[derive(Debug)]
pub struct UpdateWidget {
    data: Vec<Package>,
    filtered: Vec<Package>,
    table: TableWidget,
    filter: Option<ChangeType>,
}

impl UpdateWidget {
    pub closed spec fn wf(&self) -> bool {
        self.table.wf()
    }

    pub closed spec fn table_view(&self) -> TableWidget {
        self.table
    }

    pub closed spec fn change_filter(&self) -> Option<ChangeType> {
        self.filter
    }

    pub closed spec fn updates(&self) -> Seq<Package> {
        self.data@
    }

    /// The updates that pass the filter, as shown.
    pub closed spec fn kept(&self) -> Seq<Package> {
        self.filtered@
    }

    pub fn new() -> (r: UpdateWidget)
        ensures
            r.wf(),
            r.change_filter().is_none(),
    {
        UpdateWidget {
            data: Vec::new(),
            filtered: Vec::new(),
            filter: None,
            table: TableWidget::new(
                &["Name", "Installed", "Latest", "Type", "        Size"],
                vec![percentage(50), exactly(25), exactly(25), exactly(10), exactly(15)],
            ),
        }
    }

    pub fn table(&self) -> (r: &TableWidget)
        ensures
            *r == self.table_view(),
    {
        &self.table
    }

    /// Replaces the updates and shows those that pass the filter.
    pub fn set_data(&mut self, data: &[Package])
        requires
            old(self).wf(),
        ensures
            final(self).wf(),
            final(self).change_filter() == old(self).change_filter(),
            TableWidget::rows_set(old(self).table_view(), update_lines(data@, old(self).change_filter()), final(self).table_view()),
            same_packages(final(self).updates(), data@),
            same_packages(final(self).kept(), kept_updates(final(self).updates(), old(self).change_filter())),
    {
        let mut copies: Vec<Package> = Vec::new();
        let mut i: usize = 0;
        while i < data.len()
            invariant
                i <= data@.len(),
                copies@.len() == i,
                forall|k: int| 0 <= k < i ==> same_package(#[trigger] copies@[k], data@[k]),
            decreases data.len() - i,
        {
            copies.push(data[i].copy());
            i = i + 1;
        }
        proof {
            lemma_update_lines_same(copies@, data@, self.filter);
        }
        self.data = copies;
        self.filter_data();
    }

    /// Shows the updates that pass the filter, titled with the number of
    /// updates of each kind.
    pub fn filter_data(&mut self)
        requires
            old(self).wf(),
        ensures
            final(self).wf(),
            final(self).change_filter() == old(self).change_filter(),
            final(self).updates() == old(self).updates(),
            TableWidget::rows_set(old(self).table_view(), update_lines(old(self).updates(), old(self).change_filter()), final(self).table_view()),
            same_packages(final(self).kept(), kept_updates(old(self).updates(), old(self).change_filter())),
    {
        let mut rows: Vec<TableRow> = Vec::new();
        let mut kept: Vec<Package> = Vec::new();
        let mut i: usize = 0;
        while i < self.data.len()
            invariant
                i <= self.data@.len(),
                row_views(rows@) == update_lines(self.data@.take(i as int), self.filter),
                same_packages(kept@, kept_updates(self.data@.take(i as int), self.filter)),
            decreases self.data.len() - i,
        {
            let p = &self.data[i];
            let ghost before = row_views(rows@);
            assert(self.data@.take(i + 1).drop_last() =~= self.data@.take(i as int));
            assert(self.data@.take(i + 1).last() == *p);
            if passes_exec(p, self.filter) {
                let newv = match &p.new_version {
                    Some(v) => copy_string(v),
                    None => String::new(),
                };
                let kind = match p.change_type {
                    Some(c) => c,
                    None => ChangeType::Major,
                };
                let size = match p.new_version_size {
                    Some(n) => thousands(n),
                    None => String::new(),
                };
                let cells = vec![copy_string(&p.name), copy_string(&p.version), newv, change_string(kind), padded(size, 15)];
                let highlight = if passes_exec(p, Some(ChangeType::Major)) { Some(RowColor::Green) } else { None };
                let row = TableRow { cells, highlight };
                assert(row@.0 =~= update_line(*p).0);
                rows.push(row);
                assert(row_views(rows@) =~= before.push(update_line(*p)));
                kept.push(p.copy());
            }
            i = i + 1;
        }
        assert(self.data@.take(i as int) =~= self.data@);
        self.filtered = kept;
        self.table.set_data(rows);
        let title = self.title_text();
        self.table.set_title(title.as_str());
    }

    /// "N Updates (counts of each kind, largest kind first) Filters: >=kind".
    fn title_text(&self) -> String {
        let mut counts: [usize; 6] = [0, 0, 0, 0, 0, 0];
        let mut i: usize = 0;
        while i < self.data.len()
            invariant
                i <= self.data@.len(),
                forall|k: int| 0 <= k < 6 ==> #[trigger] counts[k] <= i,
            decreases self.data.len() - i,
        {
            if let Some(c) = self.data[i].change_type {
                let k = c.rank() as usize;
                counts.set(k, counts[k] + 1);
            }
            i = i + 1;
        }
        let kinds = [ChangeType::Pkgver, ChangeType::Revision, ChangeType::Patch, ChangeType::Minor, ChangeType::Major, ChangeType::Epoch];
        let mut parts = String::new();
        let mut k: usize = 6;
        while k > 0
            invariant
                k <= 6,
            decreases k,
        {
            k = k - 1;
            if counts[k] > 0 {
                if !parts.as_str().is_empty() {
                    parts = parts.concat(", ");
                }
                parts = parts.concat(decimal_string(counts[k]).as_str()).concat(" ").concat(kinds[k].name());
            }
        }
        let filters = match self.filter {
            Some(f) => String::from_str("Filters: >=").concat(f.name()),
            None => String::new(),
        };
        decimal_string(self.data.len()).concat(" Updates (").concat(parts.as_str()).concat(") ").concat(filters.as_str())
    }

    pub fn command_descriptions(&self) -> (r: Vec<CommandDescription>)
        ensures
            r@.len() == 6,
    {
        vec![
            command("u", "Update selected packages", "Update"),
            command("U", "Update all packages", "Update All"),
            command("m", "Show major changes and up", "Major"),
            command("n", "Show minor changes and up", "Minor"),
            command("a", "Show all changes", "All"),
            command("Enter", "View dependencies", "Dependencies"),
        ]
    }

    fn set_filter(&mut self, filter: Option<ChangeType>)
        requires
            old(self).wf(),
        ensures
            final(self).wf(),
            final(self).change_filter() == filter,
            final(self).updates() == old(self).updates(),
            TableWidget::rows_set(old(self).table_view(), update_lines(old(self).updates(), filter), final(self).table_view()),
            same_packages(final(self).kept(), kept_updates(old(self).updates(), filter)),
    {
        self.filter = filter;
        self.filter_data();
    }

    /// Handles a key press: the table first (Escape there also shows all
    /// changes again); otherwise `u` asks to update the selected packages,
    /// `U` to update everything, `m` and `n` show major and minor changes and
    /// up, `a` (without Control) shows all, and Enter asks to show the
    /// package under the cursor in the installed view.
    pub fn handle_key_event(&mut self, key: &Key) -> (r: Option<EventResult>)
        requires
            old(self).wf(),
        ensures
            final(self).wf(),
            final(self).updates() == old(self).updates(),
            (old(self).table_view().is_searching() || table_key(*key)) ==> r == Some(EventResult::Continue),
            (old(self).table_view().is_searching() || (table_key(*key) && key.code != KeyCode::Esc)) ==> {
                &&& TableWidget::key_step(old(self).table_view(), *key, final(self).table_view(), true)
                &&& final(self).change_filter() == old(self).change_filter()
                &&& final(self).kept() == old(self).kept()
            },
            !old(self).table_view().is_searching() && key.code == KeyCode::Esc ==> {
                &&& final(self).change_filter().is_none()
                &&& final(self).table_view().filter_text().len() == 0
                &&& same_packages(final(self).kept(), kept_updates(old(self).updates(), None))
            },
            !(old(self).table_view().is_searching() || table_key(*key)) ==> {
                &&& key.code == KeyCode::Char('u') ==> (r matches Some(
                    EventResult::Command(EventCommand::InstallOrUpdateSelected(names)),
                ) && views(names@) == first_names(pick(old(self).table_view().shown(), old(self).table_view().selection())))
                &&& key.code == KeyCode::Char('U') ==> r == Some(EventResult::Command(EventCommand::SyncAndUpdateAll))
                &&& (key.code == KeyCode::Char('m') || key.code == KeyCode::Char('n') || (key.code == KeyCode::Char('a') && !key.ctrl)) ==> {
                    let f = if key.code == KeyCode::Char('m') {
                        Some(ChangeType::Major)
                    } else if key.code == KeyCode::Char('n') {
                        Some(ChangeType::Minor)
                    } else {
                        None
                    };
                    &&& r.is_none()
                    &&& final(self).change_filter() == f
                    &&& TableWidget::rows_set(old(self).table_view(), update_lines(old(self).updates(), f), final(self).table_view())
                    &&& same_packages(final(self).kept(), kept_updates(old(self).updates(), f))
                }
                &&& key.code == KeyCode::Enter ==> match cursor_package(old(self).kept(), old(self).table_view()) {
                    Some(p) => (r matches Some(EventResult::GotoInstalled(name)) && name@ == p.name@),
                    None => r.is_none(),
                }
                &&& global_key(*key) ==> r.is_none() && *final(self) == *old(self)
            },
    {
        let was_searching = self.table.is_search_active();
        if self.table.handle_key_event(key) {
            if !was_searching && key.code == KeyCode::Esc {
                self.set_filter(None);
            }
            return Some(EventResult::Continue);
        }
        match key.code {
            KeyCode::Char('u') => {
                let selected = self.table.get_selected();
                proof {
                    lemma_selected_views(selected@, pick(self.table.shown(), self.table.selection()));
                }
                let names = first_cells(&selected);
                return Some(EventResult::Command(EventCommand::InstallOrUpdateSelected(names)));
            },
            KeyCode::Char('U') => {
                return Some(EventResult::Command(EventCommand::SyncAndUpdateAll));
            },
            KeyCode::Char('a') => {
                if !key.ctrl {
                    self.set_filter(None);
                }
            },
            KeyCode::Char('m') => self.set_filter(Some(ChangeType::Major)),
            KeyCode::Char('n') => self.set_filter(Some(ChangeType::Minor)),
            KeyCode::Enter => {
                if let Some(p) = self.current_package() {
                    return Some(EventResult::GotoInstalled(copy_string(&p.name)));
                }
            },
            _ => {},
        }
        None
    }

    /// The update under the cursor.
    pub fn current_package(&self) -> (r: Option<&Package>)
        requires
            self.wf(),
        ensures
            r.is_some() == cursor_package(self.kept(), self.table_view()).is_some(),
            r.is_some() ==> *r.unwrap() == cursor_package(self.kept(), self.table_view()).unwrap(),
    {
        package_at_cursor(&self.filtered, &self.table)
    }

}

} // verus!
