//! Shell alias management: parsing and rewriting shell configuration files,
//! alias validation, templates, backups, settings and the display helpers of
//! the user interface, with their behaviour stated and proved in Verus.
pub mod text;
pub mod alias;
pub mod error;
pub mod alias_parser;
pub mod roundtrip;
pub mod rewrite;
pub mod paths;
pub mod shell_type;
pub mod shell_config;
pub mod template;
pub mod app_settings;
pub mod config_backup;
pub mod user_template_store;
pub mod update_checker;
pub mod commands;
pub mod ui;
