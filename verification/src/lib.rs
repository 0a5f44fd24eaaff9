//! Mirror a terminal as live HTML.
pub mod ansi;
pub mod answer_laws;
pub mod b64;
pub mod cliutil;
pub mod client;
pub mod color_laws;
pub mod config;
pub mod diff;
pub mod fonts;
pub mod hub;
pub mod image_laws;
pub mod images;
pub mod json;
pub mod listing_laws;
pub mod live;
pub mod measure_laws;
pub mod mirror;
pub mod model;
pub mod paint_laws;
pub mod painting;
pub mod parse;
pub mod placement_laws;
pub mod probe;
pub mod proto;
pub mod pty;
pub mod record;
pub mod registry;
pub mod render;
pub mod requests;
pub mod sfnt;
pub mod ssh;
pub mod text;
pub mod tmux;
pub mod transfer_laws;
pub mod vt;
pub mod wire_laws;
