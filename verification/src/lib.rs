//! Calendar tooling: date arithmetic for calendar sheets, project-plan
//! export to iCalendar, and parsing of gcalcli output.

pub mod text;
pub mod date;
pub mod sheet;
pub mod plan;
pub mod ics;
pub mod order;
pub mod agenda;
pub mod browse;
