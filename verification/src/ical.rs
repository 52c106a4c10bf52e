//! iCalendar objects as the CalDAV queries see them: collations, the
//! date-time and duration texts, calendar-query filters and calendar-data
//! pruning.
pub mod model;
pub mod collation;
pub mod parser;
pub mod query;
pub mod prune;
