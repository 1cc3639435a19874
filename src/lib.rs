//! A terminal periodic-table viewer's core: the element records and their category
//! colours, the grid that places each element at its period and group, the screen
//! geometry of the drawn grid, and the cursor that moves over the occupied cells.

pub mod element;
pub mod layout;
pub mod geometry;
pub mod ui;
