pub mod api;
pub mod bottle;
pub mod cask;
pub mod chocolatey;
pub mod commands;
pub mod discovery;
pub mod ecosystem_install;
pub mod error;
pub mod formula_parser;
pub mod install;
pub mod json;
pub mod links;
pub mod lockfile;
pub mod order;
pub mod outside;
pub mod package_spec;
pub mod paths;
pub mod remote_search;
pub mod scoop;
pub mod sudo;
pub mod system;
pub mod system_pm;
pub mod table;
pub mod text;
pub mod timing;
pub mod ui;
pub mod winget_install;
