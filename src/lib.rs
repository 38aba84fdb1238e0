//! Tileset model and the layout, hit-testing and shape generation behind a
//! tileset grid widget.

pub mod color;
pub mod dummy_tileset;
pub mod hit_test;
pub mod layout;
pub mod shapes;
pub mod tile;
pub mod tileset;
pub mod widget;
