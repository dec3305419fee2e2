//! The display logic of the user interface: languages and translations,
//! tag colours, name checks, the syntax highlighter of the configuration
//! viewer, the import preview, alias filtering and error texts.
pub mod i18n;
pub mod utils;
pub mod config_viewer;
pub mod import_preview;
pub mod alias_filter;
pub mod command_error;
pub mod pages;
