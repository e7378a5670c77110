//! The package managers the generated schema module may depend on.
//!
//! Probing the current project or the system for an installed package
//! manager is I/O and lives with the callers; this module only fixes the
//! name of the runner executable belonging to each manager.

use vstd::prelude::*;

verus! {

/// A JavaScript package manager that can install the runtime validation
/// library the schema module depends on.
#[derive(Debug)]
pub enum PackageManager {
    Pnpm,
    Yarn,
    Npm,
}

impl PackageManager {
    /// The name of the package-runner executable belonging to this manager.
    pub fn into_executor_name(self) -> (r: &'static str)
        ensures
            r@ == match self {
                PackageManager::Pnpm => "pnpx"@,
                PackageManager::Yarn => "yarn"@,
                PackageManager::Npm => "npx"@,
            },
    {
        match self {
            PackageManager::Pnpm => "pnpx",
            PackageManager::Yarn => "yarn",
            PackageManager::Npm => "npx",
        }
    }
}

} // verus!
