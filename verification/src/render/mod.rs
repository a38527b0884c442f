pub mod axis;
pub mod colors;
pub mod path;
pub mod single;
pub mod theme;
