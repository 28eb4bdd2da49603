//! The application state: the three views, the overlay focus with its one
//! saved focus, and the global keys.
use std::time::Duration;
use vstd::prelude::*;
use crate::installed::{centre_rows, is_panel, InstalledWidget};
use crate::keys::global_key;
use crate::rows::cell;
use crate::table::pick;
use crate::keys::{Key, KeyCode};
use crate::packages::{cursor_package, first_names, package_lines, PackagesWidget};
use crate::structs::{next_tab, prev_tab, same_package, same_packages, EventCommand, EventResult, Focus, Package, Tab, TimedString};
use crate::table::TableWidget;
use crate::text::views;
use crate::update::update_lines;

verus! {

/// Relies on `Duration::from_secs`.
#[verifier::external_body]
fn seconds(s: u64) -> Duration {
    Duration::from_secs(s)
}

/// The installed packages, in order.
pub open spec fn installed_of(s: Seq<Package>) -> Seq<Package>
    decreases s.len(),
{
    if s.len() == 0 {
        s
    } else if s.last().installed is Some {
        installed_of(s.drop_last()).push(s.last())
    } else {
        installed_of(s.drop_last())
    }
}

/// The packages with an update, in order.
pub open spec fn updatable_of(s: Seq<Package>) -> Seq<Package>
    decreases s.len(),
{
    if s.len() == 0 {
        s
    } else if s.last().new_version is Some {
        updatable_of(s.drop_last()).push(s.last())
    } else {
        updatable_of(s.drop_last())
    }
}


proof fn lemma_centre_rows_same(a: Seq<Package>, b: Seq<Package>, e: bool, f: bool, o: bool)
    requires
        same_packages(a, b),
    ensures
        centre_rows(a, e, f, o) == centre_rows(b, e, f, o),
    decreases a.len(),
{
    if a.len() > 0 {
        assert(same_package(a[a.len() - 1], b[b.len() - 1]));
        assert(views(a.last().required_by@).len() == views(b.last().required_by@).len());
        assert(views(a.last().optional_for@).len() == views(b.last().optional_for@).len());
        lemma_centre_rows_same(a.drop_last(), b.drop_last(), e, f, o);
    }
}

pub struct AppState {
    pub packages: Vec<Package>,
    pub show_info: bool,
    pub message: TimedString,
    pub command: String,
    pub tab: Tab,
    pub update_widget: crate::update::UpdateWidget,
    pub packages_widget: PackagesWidget,
    pub installed_widget: InstalledWidget,
    focus: Focus,
    focus_previous: Focus,
}

impl AppState {
    pub closed spec fn wf(&self) -> bool {
        &&& self.update_widget.wf()
        &&& self.packages_widget.wf()
        &&& self.installed_widget.wf()
    }

    pub closed spec fn focus_now(&self) -> Focus {
        self.focus
    }

    pub closed spec fn installed_view(&self) -> InstalledWidget {
        self.installed_widget
    }

    pub closed spec fn packages_view(&self) -> PackagesWidget {
        self.packages_widget
    }

    pub closed spec fn updates_view(&self) -> crate::update::UpdateWidget {
        self.update_widget
    }

    pub closed spec fn all_packages(&self) -> Seq<Package> {
        self.packages@
    }

    pub closed spec fn current_tab(&self) -> Tab {
        self.tab
    }

    pub closed spec fn info_shown(&self) -> bool {
        self.show_info
    }

    pub closed spec fn saved_focus(&self) -> Focus {
        self.focus_previous
    }

    /// `b` is `a` after opening help: an overlay already open stays, any
    /// other focus is saved and help takes the keyboard.
    pub closed spec fn help_opened(a: AppState, b: AppState) -> bool {
        &&& !a.focus.is_overlay() ==> b.focus == Focus::Help && b.focus_previous == a.focus
        &&& a.focus.is_overlay() ==> b.focus == a.focus && b.focus_previous == a.focus_previous
    }

    /// `b` is `a` after closing an overlay: the saved focus comes back.
    pub closed spec fn help_closed(a: AppState, b: AppState) -> bool {
        &&& a.focus.is_overlay() ==> b.focus == a.focus_previous
        &&& !a.focus.is_overlay() ==> b.focus == a.focus
    }

    pub fn new() -> (r: AppState)
        ensures
            r.wf(),
            r.focus_now() == Focus::Centre,
            r.current_tab() == Tab::Installed,
            r.info_shown(),
    {
        AppState {
            packages: Vec::new(),
            show_info: true,
            message: TimedString::new("", seconds(5)),
            command: String::new(),
            tab: Tab::Installed,
            update_widget: crate::update::UpdateWidget::new(),
            packages_widget: PackagesWidget::new(),
            installed_widget: InstalledWidget::new(),
            focus: Focus::Centre,
            focus_previous: Focus::Centre,
        }
    }

    /// Which panel or overlay has the keyboard.
    pub fn focus(&self) -> (r: Focus)
        ensures
            r == self.focus_now(),
    {
        self.focus
    }

    /// The focus that closing an overlay returns to.
    pub fn focus_previous(&self) -> (r: Focus)
        ensures
            r == self.saved_focus(),
    {
        self.focus_previous
    }

    /// Moves the focus, saving the one it leaves.
    pub fn change_focus(&mut self, new_focus: Focus)
        requires
            old(self).wf(),
        ensures
            final(self).wf(),
            final(self).focus_now() == new_focus,
            final(self).saved_focus() == old(self).focus_now(),
            final(self).current_tab() == old(self).current_tab(),
            is_panel(new_focus) ==> final(self).installed_view().focus_state() == new_focus,
            !is_panel(new_focus) ==> final(self).installed_view() == old(self).installed_view(),
    {
        self.focus_previous = self.focus;
        self.focus = new_focus;
        if new_focus == Focus::Left || new_focus == Focus::Centre || new_focus == Focus::Right || new_focus == Focus::Provides {
            self.installed_widget.set_focus(new_focus);
        }
    }

    /// Returns to the saved focus.
    pub fn restore_focus(&mut self)
        requires
            old(self).wf(),
        ensures
            final(self).wf(),
            final(self).focus_now() == old(self).saved_focus(),
            final(self).saved_focus() == old(self).saved_focus(),
            final(self).current_tab() == old(self).current_tab(),
    {
        self.focus = self.focus_previous;
    }

    /// Whether the help overlay is open.
    pub fn show_help(&self) -> (r: bool)
        ensures
            r == (self.focus_now() == Focus::Help),
    {
        self.focus == Focus::Help
    }

    /// Opens the help overlay; an overlay already open stays as it is.
    pub fn open_help(&mut self)
        requires
            old(self).wf(),
        ensures
            final(self).wf(),
            Self::help_opened(*old(self), *final(self)),
            final(self).current_tab() == old(self).current_tab(),
    {
        if self.focus != Focus::Help && self.focus != Focus::Command {
            self.change_focus(Focus::Help);
        }
    }

    /// Closes an open overlay, returning to the focus saved when it opened.
    pub fn close_help(&mut self)
        requires
            old(self).wf(),
        ensures
            final(self).wf(),
            Self::help_closed(*old(self), *final(self)),
            final(self).current_tab() == old(self).current_tab(),
    {
        if self.focus == Focus::Help || self.focus == Focus::Command {
            self.restore_focus();
        }
    }

    /// Refreshes the three views from the packages: the installed ones, all
    /// of them, and those with an update.
    pub fn update_tables(&mut self)
        requires
            old(self).wf(),
        ensures
            final(self).wf(),
            final(self).focus_now() == old(self).focus_now(),
            final(self).current_tab() == old(self).current_tab(),
            TableWidget::rows_set(
                old(self).installed_view().centre_table(),
                centre_rows(
                    installed_of(old(self).all_packages()),
                    old(self).installed_view().filters().0,
                    old(self).installed_view().filters().1,
                    old(self).installed_view().filters().2,
                ),
                final(self).installed_view().centre_table(),
            ),
            TableWidget::rows_set(
                old(self).packages_view().table_view(),
                package_lines(old(self).all_packages()),
                final(self).packages_view().table_view(),
            ),
            TableWidget::rows_set(
                old(self).updates_view().table_view(),
                update_lines(updatable_of(old(self).all_packages()), old(self).updates_view().change_filter()),
                final(self).updates_view().table_view(),
            ),
    {
        let mut installed: Vec<Package> = Vec::new();
        let mut updates: Vec<Package> = Vec::new();
        let mut i: usize = 0;
        while i < self.packages.len()
            invariant
                i <= self.packages@.len(),
                same_packages(installed@, installed_of(self.packages@.take(i as int))),
                same_packages(updates@, updatable_of(self.packages@.take(i as int))),
            decreases self.packages.len() - i,
        {
            let p = &self.packages[i];
            assert(self.packages@.take(i + 1).drop_last() =~= self.packages@.take(i as int));
            assert(self.packages@.take(i + 1).last() == *p);
            if p.installed.is_some() {
                installed.push(p.copy());
            }
            if p.new_version.is_some() {
                updates.push(p.copy());
            }
            i = i + 1;
        }
        assert(self.packages@.take(i as int) =~= self.packages@);
        proof {
            lemma_centre_rows_same(
                installed@,
                installed_of(self.packages@),
                self.installed_widget.filters().0,
                self.installed_widget.filters().1,
                self.installed_widget.filters().2,
            );
            crate::update::lemma_update_lines_same(updates@, updatable_of(self.packages@), self.update_widget.change_filter());
        }
        self.installed_widget.set_data(installed);
        self.packages_widget.set_data(self.packages.as_slice());
        self.update_widget.set_data(updates.as_slice());
    }

    /// The package under the cursor of the current view.
    pub fn current_package(&self) -> (r: Option<&Package>)
        requires
            self.wf(),
        ensures
            self.current_tab() == Tab::Installed ==> {
                let i = self.installed_view().current_index();
                &&& i < 0 ==> r.is_none()
                &&& i >= 0 ==> r == Some(&self.installed_view().packages()[i])
            },
            self.current_tab() == Tab::Packages ==> {
                let c = cursor_package(self.packages_view().stored(), self.packages_view().table_view());
                &&& r.is_some() == c.is_some()
                &&& r.is_some() ==> *r.unwrap() == c.unwrap()
            },
            self.current_tab() == Tab::Updates ==> {
                let c = cursor_package(self.updates_view().kept(), self.updates_view().table_view());
                &&& r.is_some() == c.is_some()
                &&& r.is_some() ==> *r.unwrap() == c.unwrap()
            },
    {
        match self.tab {
            Tab::Installed => self.installed_widget.current_package(),
            Tab::Packages => self.packages_widget.current_package(),
            Tab::Updates => self.update_widget.current_package(),
        }
    }

    /// The current view's table (its focused one, for the installed view)
    /// is capturing search input.
    pub closed spec fn view_searching(&self) -> bool {
        match self.tab {
            Tab::Installed => self.installed_widget.focused_searching(),
            Tab::Packages => self.packages_widget.table_view().is_searching(),
            Tab::Updates => self.update_widget.table_view().is_searching(),
        }
    }

    /// Handles a key press. Control-C quits at any time. While help is open
    /// only `?` and Escape (which close it) do anything. Otherwise the current
    /// view sees the key first; keys it leaves are global: `?` opens help,
    /// `q` quits, Tab and Shift-Tab cycle the views, `s` asks to sync the
    /// package database, `i` shows or hides the info panel.
    pub fn handle_key(&mut self, key: &Key) -> (r: EventResult)
        requires
            old(self).wf(),
        ensures
            final(self).wf(),
            key.code == KeyCode::Char('c') && key.ctrl ==> r == EventResult::Quit,
            !(key.code == KeyCode::Char('c') && key.ctrl) && old(self).focus_now() == Focus::Help ==> {
                &&& r == EventResult::Continue
                &&& (key.code == KeyCode::Char('?') || key.code == KeyCode::Esc) ==> final(self).focus_now()
                    == old(self).saved_focus()
                &&& !(key.code == KeyCode::Char('?') || key.code == KeyCode::Esc) ==> final(self).focus_now()
                    == old(self).focus_now()
                &&& final(self).current_tab() == old(self).current_tab()
            },
            !(key.code == KeyCode::Char('c') && key.ctrl) && old(self).focus_now() != Focus::Help && !old(self).view_searching() ==> {
                &&& global_key(*key) ==> {
                    &&& key.code == KeyCode::Char('q') ==> r == EventResult::Quit
                    &&& key.code == KeyCode::Char('?') ==> r == EventResult::Continue && Self::help_opened(*old(self), *final(self))
                    &&& key.code == KeyCode::Tab ==> r == EventResult::Continue && final(self).current_tab() == next_tab(old(self).current_tab())
                    &&& key.code == KeyCode::BackTab ==> r == EventResult::Continue && final(self).current_tab() == prev_tab(old(self).current_tab())
                    &&& key.code == KeyCode::Char('s') ==> r == EventResult::Command(EventCommand::SyncDatabase)
                    &&& key.code == KeyCode::Char('i') ==> r == EventResult::Continue && final(self).info_shown() == !old(self).info_shown()
                }
                &&& (old(self).current_tab() == Tab::Installed && key.code == KeyCode::Char('r')) ==> (r matches EventResult::Command(
                    EventCommand::RemoveSelected(names),
                ) && views(names@) == first_names(pick(old(self).installed_view().centre_table().shown(), old(self).installed_view().centre_table().selection())))
                &&& (old(self).current_tab() == Tab::Packages && key.code == KeyCode::Char('u')) ==> (r matches EventResult::Command(
                    EventCommand::InstallOrUpdateSelected(names),
                ) && views(names@) == first_names(pick(old(self).packages_view().table_view().shown(), old(self).packages_view().table_view().selection())))
                &&& (old(self).current_tab() == Tab::Updates && key.code == KeyCode::Enter) ==> match cursor_package(old(self).updates_view().kept(), old(self).updates_view().table_view()) {
                    Some(p) => {
                        &&& r == EventResult::Continue
                        &&& final(self).current_tab() == Tab::Installed
                        &&& final(self).installed_view().focus_state() == Focus::Centre
                        &&& (exists|j: int| 0 <= j < old(self).installed_view().centre_table().shown().len()
                            && cell(old(self).installed_view().centre_table().shown()[j].0, 0) == p.name@)
                            ==> cell(final(self).installed_view().centre_table().shown()[final(self).installed_view().centre_table().cursor().unwrap() as int].0, 0) == p.name@
                    },
                    None => r == EventResult::Continue,
                }
            },
    {
        if key.code == KeyCode::Char('c') && key.ctrl {
            return EventResult::Quit;
        }
        if self.focus == Focus::Help {
            if key.code == KeyCode::Char('?') || key.code == KeyCode::Esc {
                self.close_help();
            }
            return EventResult::Continue;
        }
        let res = match self.tab {
            Tab::Installed => self.installed_widget.handle_key_event(key),
            Tab::Packages => self.packages_widget.handle_key_event(key),
            Tab::Updates => self.update_widget.handle_key_event(key),
        };
        match res {
            Some(EventResult::GotoInstalled(name)) => {
                self.tab = Tab::Installed;
                self.installed_widget.show_package(&name);
                return EventResult::Continue;
            },
            Some(r) => {
                return r;
            },
            None => {},
        }
        match key.code {
            KeyCode::Char('?') => self.open_help(),
            KeyCode::Char('q') => {
                return EventResult::Quit;
            },
            KeyCode::Tab => self.tab.cycle_next(),
            KeyCode::BackTab => self.tab.cycle_prev(),
            KeyCode::Char('s') => {
                return EventResult::Command(EventCommand::SyncDatabase);
            },
            KeyCode::Char('i') => self.show_info = !self.show_info,
            _ => {},
        }
        EventResult::Continue
    }
}

/// Opening help and closing it again gives the keyboard back to the panel
/// that had it, not to whatever had it before that panel.
pub proof fn law_overlay_restores_focus(a: AppState, b: AppState, c: AppState)
    requires
        !a.focus_now().is_overlay(),
        AppState::help_opened(a, b),
        AppState::help_closed(b, c),
    ensures
        c.focus_now() == a.focus_now(),
{
}

} // verus!
