//! Core logic of a desktop overlay manager: the settings model and its
//! normalisation, window labels, shortcut planning, tray menu entries and
//! the scripts that drive overlay web views.
pub mod text;
pub mod labels;
pub mod ids;
pub mod model;
pub mod overlay;
pub mod shortcuts;
pub mod tray;
pub mod config;
