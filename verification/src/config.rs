//! The configuration and its default values.
use vstd::prelude::*;
use crate::variables::token::text;

verus! {

/// The main configuration.
pub struct Config {
    pub cache_dir: String,
    pub system: ConfigShell,
    pub security: ConfigSecurity,
}

/// The current system and shell.
pub struct ConfigShell {
    /// How a command is run as root; `%COMMAND%` stands for the command.
    pub root_elevator: String,
    /// How a file is shown; `%FILE%` stands for the file.
    pub file_previewer: String,
    pub package_manager: ConfigPackage,
}

/// The package manager.
pub struct ConfigPackage {
    pub root: bool,
    pub install: String,
    pub remove: String,
}

/// When changes to the system are confirmed.
#[derive(Clone, Copy, PartialEq, Eq)]
pub enum ConfirmStrategy {
    No,
    Yes,
    Root,
}

/// When a script is shown before it runs.
#[derive(Clone, Copy, PartialEq, Eq)]
pub enum PreviewStrategy {
    Always,
    Root,
    Never,
    Ask,
    AskRoot,
}

/// Which actions on the system are confirmed.
pub struct ConfigSecurity {
    pub extra_confirm_everything: bool,
    pub preview_scripts: PreviewStrategy,
    pub confirm_packages: bool,
    pub confirm_execution: ConfirmStrategy,
    pub confirm_files: ConfirmStrategy,
}

/// The command a package manager that is not configured runs: it says so and fails.
pub open spec fn unconfigured_package_command() -> Seq<char> {
    "echo \"Package manager is not configured yet\"; exit 1"@
}

impl ConfigShell {
    /// The default root elevator: `sudo`.
    pub fn root_elevator_default() -> (r: String)
        ensures
            r@ == "sudo %COMMAND%"@,
    {
        text("sudo %COMMAND%")
    }

    /// The default file previewer: `less`.
    pub fn file_previewer_default() -> (r: String)
        ensures
            r@ == "less %FILE%"@,
    {
        text("less %FILE%")
    }
}

impl Default for ConfigShell {
    fn default() -> (r: Self)
        ensures
            r.root_elevator@ == "sudo %COMMAND%"@,
            r.file_previewer@ == "less %FILE%"@,
            !r.package_manager.root,
            r.package_manager.install@ == unconfigured_package_command(),
            r.package_manager.remove@ == unconfigured_package_command(),
    {
        ConfigShell {
            root_elevator: ConfigShell::root_elevator_default(),
            file_previewer: ConfigShell::file_previewer_default(),
            package_manager: ConfigPackage::default(),
        }
    }
}

impl Default for ConfigPackage {
    fn default() -> (r: Self)
        ensures
            !r.root,
            r.install@ == unconfigured_package_command(),
            r.remove@ == unconfigured_package_command(),
    {
        ConfigPackage {
            install: text("echo \"Package manager is not configured yet\"; exit 1"),
            remove: text("echo \"Package manager is not configured yet\"; exit 1"),
            root: false,
        }
    }
}

impl Default for ConfirmStrategy {
    fn default() -> (r: Self)
        ensures
            r == ConfirmStrategy::Root,
    {
        ConfirmStrategy::Root
    }
}

impl Default for PreviewStrategy {
    fn default() -> (r: Self)
        ensures
            r == PreviewStrategy::AskRoot,
    {
        PreviewStrategy::AskRoot
    }
}

impl ConfigSecurity {
    /// Package installs are confirmed by default.
    pub fn confirm_packages_default() -> (r: bool)
        ensures
            r,
    {
        true
    }
}

impl Default for ConfigSecurity {
    fn default() -> (r: Self)
        ensures
            r.confirm_packages,
            !r.extra_confirm_everything,
            r.preview_scripts == PreviewStrategy::AskRoot,
            r.confirm_execution == ConfirmStrategy::Root,
            r.confirm_files == ConfirmStrategy::Root,
    {
        ConfigSecurity {
            confirm_packages: ConfigSecurity::confirm_packages_default(),
            extra_confirm_everything: false,
            preview_scripts: PreviewStrategy::default(),
            confirm_execution: ConfirmStrategy::default(),
            confirm_files: ConfirmStrategy::default(),
        }
    }
}

impl Config {
    /// The default configuration, with its cache in `cache_dir` (where the environment puts it).
    pub fn with_cache_dir(cache_dir: String) -> (r: Self)
        ensures
            r.cache_dir == cache_dir,
            r.system.root_elevator@ == "sudo %COMMAND%"@,
            r.system.file_previewer@ == "less %FILE%"@,
            !r.system.package_manager.root,
            r.system.package_manager.install@ == unconfigured_package_command(),
            r.system.package_manager.remove@ == unconfigured_package_command(),
            r.security.confirm_packages,
            !r.security.extra_confirm_everything,
            r.security.preview_scripts == PreviewStrategy::AskRoot,
            r.security.confirm_execution == ConfirmStrategy::Root,
            r.security.confirm_files == ConfirmStrategy::Root,
    {
        Config { cache_dir, system: ConfigShell::default(), security: ConfigSecurity::default() }
    }
}

} // verus!
