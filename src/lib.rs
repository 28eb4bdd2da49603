//! Interactive table engine and panel focus routing for a terminal package
//! browser: filterable, naturally sorted, multi-select tables; the views that
//! link them; and the readers for the package manager's reports.
pub mod text;
pub mod natural;
pub mod keys;
pub mod rows;
pub mod table;
pub mod sort_laws;
pub mod version;
pub mod structs;
pub mod error;
pub mod report;
pub mod installed;
pub mod packages;
pub mod update;
pub mod widgets;
pub mod appstate;
pub mod pman;
