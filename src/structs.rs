//! Domain records and small state types: packages, tabs, focus states,
//! outbound requests, a status message that expires, and errors.
use std::time::{Duration, Instant};
use vstd::prelude::*;
use vstd::utf8::encode_utf8;
use crate::text::{copy_strings, views};
use crate::version::ChangeType;

verus! {

/// Why a package is installed.
#[derive(Clone, Debug, Default, PartialEq, PartialOrd)]
pub enum Reason {
    #[default]
    Dependency,
    Explicit,
    Other(String),
}

impl Reason {
    pub fn is_explicit(&self) -> (r: bool)
        ensures
            r == (*self is Explicit),
    {
        match self {
            Reason::Explicit => true,
            _ => false,
        }
    }

    pub fn is_dependency(&self) -> (r: bool)
        ensures
            r == (*self is Dependency),
    {
        match self {
            Reason::Dependency => true,
            _ => false,
        }
    }
}

/// A package as the package manager reports it.
#[derive(Clone, Debug, Default, PartialEq)]
pub struct Package {
    pub name: String,
    pub required_by: Vec<String>,
    pub optional_for: Vec<String>,
    pub dependencies: Vec<String>,
    pub provides: Vec<String>,
    pub reason: Reason,
    pub version: String,
    pub description: String,
    /// Signed by a repository (not foreign).
    pub validated: bool,
    /// Install date, for installed packages.
    pub installed: Option<String>,
    /// The version an update would bring.
    pub new_version: Option<String>,
    pub change_type: Option<ChangeType>,
    /// The download size of the update, in bytes.
    pub new_version_size: Option<usize>,
}

/// The same package: equal scalar and text fields, and lists with the same texts.
pub open spec fn same_package(a: Package, b: Package) -> bool {
    &&& a.name == b.name
    &&& views(a.required_by@) == views(b.required_by@)
    &&& views(a.optional_for@) == views(b.optional_for@)
    &&& views(a.dependencies@) == views(b.dependencies@)
    &&& views(a.provides@) == views(b.provides@)
    &&& a.reason == b.reason
    &&& a.version == b.version
    &&& a.description == b.description
    &&& a.validated == b.validated
    &&& a.installed == b.installed
    &&& a.new_version == b.new_version
    &&& a.change_type == b.change_type
    &&& a.new_version_size == b.new_version_size
}

/// The same packages, one for one.
pub open spec fn same_packages(a: Seq<Package>, b: Seq<Package>) -> bool {
    a.len() == b.len() && forall|k: int| 0 <= k < a.len() ==> same_package(#[trigger] a[k], b[k])
}

fn copy_text(s: &Option<String>) -> (r: Option<String>)
    ensures
        r == *s,
{
    match s {
        Some(t) => Some(t.clone()),
        None => None,
    }
}

impl Reason {
    pub fn copy(&self) -> (r: Reason)
        ensures
            r == *self,
    {
        match self {
            Reason::Dependency => Reason::Dependency,
            Reason::Explicit => Reason::Explicit,
            Reason::Other(s) => Reason::Other(s.clone()),
        }
    }
}

impl Package {
    /// A copy of the package, field by field.
    pub fn copy(&self) -> (r: Package)
        ensures
            same_package(r, *self),
    {
        let r = Package {
            name: self.name.clone(),
            required_by: copy_strings(&self.required_by),
            optional_for: copy_strings(&self.optional_for),
            dependencies: copy_strings(&self.dependencies),
            provides: copy_strings(&self.provides),
            reason: self.reason.copy(),
            version: self.version.clone(),
            description: self.description.clone(),
            validated: self.validated,
            installed: copy_text(&self.installed),
            new_version: copy_text(&self.new_version),
            change_type: self.change_type,
            new_version_size: self.new_version_size,
        };
        assert(views(r.required_by@) =~= views(self.required_by@));
        assert(views(r.optional_for@) =~= views(self.optional_for@));
        assert(views(r.dependencies@) =~= views(self.dependencies@));
        assert(views(r.provides@) =~= views(self.provides@));
        r
    }
}

/// A pending update of one package.
#[derive(Clone, Debug, PartialEq)]
pub struct PackageUpdate {
    pub name: String,
    pub current_version: String,
    pub new_version: String,
    pub change_type: ChangeType,
}

/// The views of the application, cycled with Tab.
#[derive(Clone, Copy, Debug, Default, PartialEq, Eq, Structural)]
pub enum Tab {
    #[default]
    Installed,
    Packages,
    Updates,
}

pub open spec fn next_tab(t: Tab) -> Tab {
    match t {
        Tab::Installed => Tab::Packages,
        Tab::Packages => Tab::Updates,
        Tab::Updates => Tab::Installed,
    }
}

pub open spec fn prev_tab(t: Tab) -> Tab {
    match t {
        Tab::Installed => Tab::Updates,
        Tab::Packages => Tab::Installed,
        Tab::Updates => Tab::Packages,
    }
}

impl Tab {
    /// The tab names, in order.
    pub fn values() -> (r: Vec<String>)
        ensures
            r@.len() == 3,
            r@[0]@ == "Installed"@,
            r@[1]@ == "Packages"@,
            r@[2]@ == "Updates"@,
    {
        vec![String::from_str("Installed"), String::from_str("Packages"), String::from_str("Updates")]
    }

    pub fn cycle_next(&mut self)
        ensures
            *final(self) == match *old(self) {
                Tab::Installed => Tab::Packages,
                Tab::Packages => Tab::Updates,
                Tab::Updates => Tab::Installed,
            },
    {
        *self = match self {
            Tab::Installed => Tab::Packages,
            Tab::Packages => Tab::Updates,
            Tab::Updates => Tab::Installed,
        };
    }

    pub fn cycle_prev(&mut self)
        ensures
            *final(self) == match *old(self) {
                Tab::Installed => Tab::Updates,
                Tab::Packages => Tab::Installed,
                Tab::Updates => Tab::Packages,
            },
    {
        *self = match self {
            Tab::Installed => Tab::Updates,
            Tab::Packages => Tab::Installed,
            Tab::Updates => Tab::Packages,
        };
    }

    /// The tab's position among `values()`.
    pub fn index(&self) -> (r: usize)
        ensures
            r == match *self {
                Tab::Installed => 0usize,
                Tab::Packages => 1usize,
                Tab::Updates => 2usize,
            },
    {
        match self {
            Tab::Installed => 0,
            Tab::Packages => 1,
            Tab::Updates => 2,
        }
    }

    pub fn name(&self) -> (r: &'static str) {
        match self {
            Tab::Installed => "Installed",
            Tab::Packages => "Packages",
            Tab::Updates => "Updates",
        }
    }
}

/// Which panel or overlay has the keyboard.
#[derive(Clone, Copy, Debug, Default, PartialEq, Eq, Structural)]
pub enum Focus {
    Left,
    #[default]
    Centre,
    Right,
    Provides,
    Updates,
    Command,
    Help,
}

impl Focus {
    pub open spec fn is_overlay(self) -> bool {
        self == Focus::Help || self == Focus::Command
    }

    pub fn name(&self) -> (r: &'static str) {
        match self {
            Focus::Left => "Left",
            Focus::Centre => "Centre",
            Focus::Right => "Right",
            Focus::Provides => "Provides",
            Focus::Updates => "Updates",
            Focus::Command => "Command",
            Focus::Help => "Help",
        }
    }
}

/// A request to the package manager, for the caller to carry out.
#[derive(Clone, Debug, PartialEq)]
pub enum EventCommand {
    RemoveSelected(Vec<String>),
    InstallOrUpdateSelected(Vec<String>),
    QuerySelected(Vec<String>),
    SyncDatabase,
    SyncAndUpdateAll,
}

/// What the caller should do after a key press.
#[derive(Clone, Debug, PartialEq)]
pub enum EventResult {
    /// Nothing further for the caller to do.
    Continue,
    Quit,
    Command(EventCommand),
    NeedsUpdate,
    GotoInstalled(String),
}

/// One command of a view: its key, a long description and a short status text.
#[derive(Clone, Copy, Debug, PartialEq, Eq)]
pub struct CommandDescription {
    pub key: &'static str,
    pub description: &'static str,
    pub status: &'static str,
}

pub fn command(key: &'static str, description: &'static str, status: &'static str) -> (r: CommandDescription)
    ensures
        r.key == key,
        r.description == description,
        r.status == status,
{
    CommandDescription { key, description, status }
}

#[verifier::external_type_specification]
#[verifier::external_body]
pub struct ExInstant(Instant);

/// Relies on `Instant::now`: the current time.
#[verifier::external_body]
fn now() -> Instant {
    Instant::now()
}

/// Relies on `Instant::elapsed`: the time since `t`.
#[verifier::external_body]
fn elapsed(t: &Instant) -> Duration {
    t.elapsed()
}

/// Relies on `Duration`'s order.
#[verifier::external_body]
fn longer(a: &Duration, b: &Duration) -> bool {
    a > b
}

/// A message that is shown for a limited time.
pub struct TimedString {
    content: String,
    timestamp: Instant,
    duration: Duration,
}

impl TimedString {
    pub closed spec fn text(&self) -> Seq<char> {
        self.content@
    }

    /// The message's length in bytes.
    pub closed spec fn byte_len(&self) -> nat {
        encode_utf8(self.content@).len()
    }

    pub fn new(content: &str, duration: Duration) -> (r: TimedString)
        ensures
            r.text() == content@,
    {
        TimedString { content: String::from_str(content), duration, timestamp: now() }
    }

    /// Whether the message's time is up.
    pub fn is_expired(&self) -> bool {
        longer(&elapsed(&self.timestamp), &self.duration)
    }

    /// The length shown, given whether the message has expired: its length
    /// in bytes while it is shown, 0 after.
    pub fn length_when(&self, expired: bool) -> (r: usize)
        ensures
            r == (if expired { 0 } else { self.byte_len() as usize }),
    {
        if expired {
            0
        } else {
            self.content.as_str().len()
        }
    }

    /// The text shown, given whether the message has expired: the message
    /// while it is shown, the empty string after.
    pub fn text_when(&self, expired: bool) -> (r: &str)
        ensures
            expired ==> r@.len() == 0,
            !expired ==> r@ == self.text(),
    {
        if expired {
            proof {
                reveal_strlit("");
            }
            ""
        } else {
            self.content.as_str()
        }
    }

    /// The message's length in bytes while it is shown, 0 once it has expired.
    pub fn length(&self) -> (r: usize)
        ensures
            r == 0 || r == self.byte_len() as usize,
    {
        let expired = self.is_expired();
        self.length_when(expired)
    }

    /// The message while it is shown, the empty string once it has expired.
    pub fn as_str(&self) -> (r: &str)
        ensures
            r@ == self.text() || r@.len() == 0,
    {
        let expired = self.is_expired();
        self.text_when(expired)
    }
}

} // verus!
