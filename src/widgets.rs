//! What every package view offers: its commands, key handling, and the
//! package under its cursor.
use vstd::prelude::*;
use crate::installed::InstalledWidget;
use crate::keys::Key;
use crate::packages::PackagesWidget;
use crate::structs::{CommandDescription, EventResult, Package};
use crate::update::UpdateWidget;

verus! {

pub trait Commands {
    spec fn inv(&self) -> bool;

    /// Key, long description and short status text of each command.
    fn command_descriptions(&self) -> Vec<CommandDescription>;

    /// Handles a key press; `None` when the view left it to the caller.
    fn handle_key_event(&mut self, key: &Key) -> (r: Option<EventResult>)
        requires
            old(self).inv(),
        ensures
            final(self).inv(),
    ;
}

pub trait CurrentPackage {
    spec fn ready(&self) -> bool;

    fn current_package(&self) -> Option<&Package>
        requires
            self.ready(),
    ;
}

impl Commands for InstalledWidget {
    open spec fn inv(&self) -> bool {
        self.wf()
    }

    fn command_descriptions(&self) -> Vec<CommandDescription> {
        InstalledWidget::command_descriptions(self)
    }

    fn handle_key_event(&mut self, key: &Key) -> (r: Option<EventResult>) {
        InstalledWidget::handle_key_event(self, key)
    }
}

impl Commands for PackagesWidget {
    open spec fn inv(&self) -> bool {
        self.wf()
    }

    fn command_descriptions(&self) -> Vec<CommandDescription> {
        PackagesWidget::command_descriptions(self)
    }

    fn handle_key_event(&mut self, key: &Key) -> (r: Option<EventResult>) {
        PackagesWidget::handle_key_event(self, key)
    }
}

impl Commands for UpdateWidget {
    open spec fn inv(&self) -> bool {
        self.wf()
    }

    fn command_descriptions(&self) -> Vec<CommandDescription> {
        UpdateWidget::command_descriptions(self)
    }

    fn handle_key_event(&mut self, key: &Key) -> (r: Option<EventResult>) {
        UpdateWidget::handle_key_event(self, key)
    }
}

impl CurrentPackage for InstalledWidget {
    open spec fn ready(&self) -> bool {
        self.wf()
    }

    fn current_package(&self) -> Option<&Package> {
        InstalledWidget::current_package(self)
    }
}

impl CurrentPackage for PackagesWidget {
    open spec fn ready(&self) -> bool {
        self.wf()
    }

    fn current_package(&self) -> Option<&Package> {
        PackagesWidget::current_package(self)
    }
}

impl CurrentPackage for UpdateWidget {
    open spec fn ready(&self) -> bool {
        self.wf()
    }

    fn current_package(&self) -> Option<&Package> {
        UpdateWidget::current_package(self)
    }
}

} // verus!
