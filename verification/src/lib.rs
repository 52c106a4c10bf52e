pub mod text;
pub mod dav;
pub mod ical;
pub mod bayou;
pub mod collections;
