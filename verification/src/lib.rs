//! Print edition and morning-delivery logic of the daily paper.

pub mod clock;
pub mod model;
pub mod page;
pub mod print;
pub mod render;
pub mod schedule;
pub mod text;
