pub mod date;
pub mod multimap;
pub mod text;
