//! The entry point: a launcher, optionally tied to a project directory.

use crate::launcher::{launch_arguments, optional_text, profile_directory, resolved_executable};
use crate::launcher::{LaunchError, LaunchOptions, LaunchPlan, Launcher};
use crate::text::texts;
use vstd::prelude::*;

verus! {

/// Holds the launcher from which browsers are started.
#[derive(Debug)]
pub struct Handle {
    project_root: Option<String>,
    pub launcher: Launcher,
}

impl Handle {
    /// The directory that the handle was made for, if any.
    pub closed spec fn root(self) -> Option<Seq<char>> {
        optional_text(self.project_root)
    }

    /// The directory of the handle's launcher, if any.
    pub closed spec fn launcher_root(self) -> Option<Seq<char>> {
        self.launcher.root()
    }

    /// A handle without a project directory.
    pub fn new() -> (r: Handle)
        ensures
            r.root() == None::<Seq<char>>,
            r.launcher_root() == None::<Seq<char>>,
    {
        Handle { project_root: None, launcher: Launcher::new() }
    }

    /// A handle for the given project directory, with a launcher for it.
    pub fn from_root(project_root: String) -> (r: Handle)
        ensures
            r.root() == Some(project_root@),
            r.launcher_root() == Some(project_root@),
    {
        Handle { project_root: Some(project_root.clone()), launcher: Launcher::from_root(project_root) }
    }

    /// Plans a launch with the default options: the bundled executable,
    /// where `bundled` says that it is there, with the baseline, a debugging
    /// port and the profile directory `generated`.
    pub fn launch(&self, bundled: Option<String>, generated: &str) -> (r: Result<
        LaunchPlan,
        LaunchError,
    >)
        ensures
            match r {
                Ok(plan) => optional_text(bundled) == Some(plan.executable@) && texts(
                    plan.arguments@,
                ) == launch_arguments(Seq::empty(), false, generated@),
                Err(e) => e == LaunchError::ExecutableNotFound && bundled is None,
            },
    {
        let options = LaunchOptions::new();
        proof {
            assert(texts(options.args@) =~= Seq::empty());
        }
        self.launcher.launch(&options, bundled, generated)
    }

    /// Plans a launch with the given options.
    pub fn launch_with_opts(
        &self,
        options: &LaunchOptions,
        bundled: Option<String>,
        generated: &str,
    ) -> (r: Result<LaunchPlan, LaunchError>)
        ensures
            match r {
                Ok(plan) => resolved_executable(
                    optional_text(options.executable_path),
                    optional_text(bundled),
                ) == Some(plan.executable@) && texts(plan.arguments@) == launch_arguments(
                    texts(options.args@),
                    options.pipe,
                    profile_directory(optional_text(options.user_data_dir), generated@),
                ),
                Err(e) => e == LaunchError::ExecutableNotFound && resolved_executable(
                    optional_text(options.executable_path),
                    optional_text(bundled),
                ) is None,
            },
    {
        self.launcher.launch(options, bundled, generated)
    }
}

} // verus!
