//! Window-layout bookkeeping for a desktop organiser: the rules that decide
//! which top-level windows are listed, where remembered windows are placed,
//! how the editing form is filled and read back, and how the remembered
//! layouts are stored and listed.

pub mod text;
pub mod wide;
pub mod order;
pub mod item;
pub mod table;
pub mod window;
pub mod form;
pub mod icons;
