//! The terminal side: attributes, cells, rows and screens, and what control sequences ask for.
pub mod attrs;
pub mod cell;
pub mod cell_laws;
pub mod cursor_laws;
pub mod dump;
pub mod grid;
pub mod link_laws;
pub mod look_laws;
pub mod mode_laws;
pub mod parser;
pub mod perform;
pub mod row;
pub mod screen;
pub mod screen_laws;
pub mod sgr;
pub mod sgr_laws;
pub mod spelling;
pub mod wrapped;
