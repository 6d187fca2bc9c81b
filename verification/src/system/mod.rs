//! Packages of the operating system.
pub mod extractor;
pub mod installer;
pub mod manager;
pub mod query;
pub mod registry;
pub mod resolver;
pub mod state;

use vstd::prelude::*;

verus! {

/// A package manager of the host, and what the platform is called.
pub struct SystemManager {
    pub platform_label: String,
}

impl SystemManager {
    pub fn distro_label(&self) -> (r: &str)
        ensures
            r@ == self.platform_label@,
    {
        self.platform_label.as_str()
    }
}

}
