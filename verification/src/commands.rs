//! The data each command of the tool carries. The command loops themselves
//! (prompts, process launching, the registry) are I/O and live outside the
//! library; they hand these values in and read the library's results.
use vstd::prelude::*;

verus! {

/// Migration commands.
#[derive(Debug)]
pub enum Migrate {
    Unity(Unity),
    Vpm(Vpm),
}

/// Unity-version migration commands.
#[derive(Debug)]
pub enum Unity {
    Unity2022(Unity2022),
}

/// Migrate a project to Unity 2022 in place.
#[derive(Debug, Clone)]
pub struct Unity2022 {
    /// Path of the project directory; the working directory or one of its
    /// parents is used when absent.
    pub project: Option<String>,
    /// Path of the Unity 2022 executable that finalizes the migration.
    pub unity: String,
}

/// Migrate a legacy project to the package manager's layout in place.
#[derive(Debug, Clone)]
pub struct Vpm {
    /// Path of the project directory; the working directory or one of its
    /// parents is used when absent.
    pub project: Option<String>,
}

/// Project-registry commands.
#[derive(Debug)]
pub enum Vcc {
    Project(Project),
}

/// Commands over the registry's project records.
#[derive(Debug)]
pub enum Project {
    List(ProjectList),
    Add(ProjectAdd),
    Remove(ProjectRemove),
}

/// List the registry's projects, most recently modified first.
#[derive(Debug, Clone)]
pub struct ProjectList {}

/// Add a project to the registry.
#[derive(Debug, Clone)]
pub struct ProjectAdd {
    /// Path of the project to add.
    pub path: String,
}

/// Remove a project from the registry.
#[derive(Debug, Clone)]
pub struct ProjectRemove {
    /// Path of the project to remove.
    pub path: String,
}

} // verus!
