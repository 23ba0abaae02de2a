//! Verified core of a community-range scanner: parsing of proxy lists, HTTP replies
//! and saved progress, the dashboard's state machine, and the text it renders.

pub mod console;
pub mod proxy;
pub mod scanner;
pub mod shared;
pub mod text;
pub mod types;
