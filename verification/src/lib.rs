//! Package metadata parsing, file classification and view logic of a .deb
//! installer.

pub mod i18n;
pub mod models;
pub mod text;
pub mod utils;
pub mod views;
