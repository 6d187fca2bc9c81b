//! What the commands decide.
pub mod install;
pub mod install_casks;
pub mod install_steps;
pub mod upgrade;
pub mod upgrade_steps;
pub mod info;
pub mod link;
pub mod list;
pub mod lock;
pub mod pin;
pub mod reinstall;
pub mod show_deps;
pub mod sync;
pub mod uninstall;
pub mod wax_info;
pub mod bundle;
pub mod self_update;
pub mod source;
pub mod update;
pub mod doctor;
