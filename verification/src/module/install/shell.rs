//! The commands that installing runs on the user's shell, and the confirmations asked first.
//!
//! Running a command and asking the user is done by the program around this library; this
//! module decides which command runs and which question is asked.
use vstd::prelude::*;
use crate::config::{Config, ConfigShell, ConfigPackage, ConfigSecurity, ConfirmStrategy, PreviewStrategy};
use crate::jobs::{join_texts, joined_with};
use crate::text::{chars_of, copy_string, push_text};
use crate::variables::evaluate::texts;
use crate::variables::token::text;

verus! {

/// `s` with each occurrence of `p`, from left to right, replaced by `r`, as `str::replace` does.
pub open spec fn replace_all(s: Seq<char>, p: Seq<char>, r: Seq<char>) -> Seq<char>
    decreases s.len(),
{
    if s.len() == 0 || p.len() == 0 {
        s
    } else if p.is_prefix_of(s) {
        r + replace_all(s.skip(p.len() as int), p, r)
    } else {
        seq![s[0]] + replace_all(s.drop_first(), p, r)
    }
}

/// Replaces each occurrence of `p` in `s` by `r`.
pub fn replace_text(s: &str, p: &str, r: &str) -> (out: String)
    requires
        p@.len() > 0,
    ensures
        out@ == replace_all(s@, p@, r@),
{
    let c = chars_of(s);
    let pc = chars_of(p);
    let mut out = String::new();
    let mut i: usize = 0;
    assert(c@.skip(0) =~= c@);
    assert(out@ + replace_all(c@.skip(0), pc@, r@) =~= replace_all(s@, p@, r@));
    while i < c.len()
        invariant
            c@ == s@,
            pc@ == p@,
            pc@.len() > 0,
            i <= c@.len(),
            out@ + replace_all(c@.skip(i as int), pc@, r@) == replace_all(s@, p@, r@),
        decreases c@.len() - i,
    {
        let ghost rest = c@.skip(i as int);
        let total = c.len();
        let mut matches = c.len() - i >= pc.len();
        let mut k: usize = 0;
        while matches && k < pc.len()
            invariant
                total == c@.len(),
                c@ == s@,
                pc@ == p@,
                i < c@.len(),
                k <= pc@.len(),
                matches ==> c@.len() - i >= pc@.len(),
                matches ==> forall|t: int| 0 <= t < k ==> c@[i + t] == pc@[t],
                !matches ==> !pc@.is_prefix_of(c@.skip(i as int)),
            decreases pc@.len() - k,
        {
            if c[i + k] != pc[k] {
                matches = false;
                assert(c@.skip(i as int)[k as int] == c@[i + k]);
            }
            k = k + 1;
        }
        let ghost before = out@;
        if matches {
            proof {
                assert forall|t: int| 0 <= t < pc@.len() implies rest[t] == pc@[t] by {
                    assert(rest[t] == c@[i + t]);
                }
                assert(pc@.is_prefix_of(rest));
                assert(rest.skip(pc@.len() as int) =~= c@.skip(i + pc@.len()));
            }
            push_text(&mut out, r);
            i = i + pc.len();
        } else {
            proof {
                assert(rest.drop_first() =~= c@.skip(i + 1));
                assert(rest[0] == c@[i as int]);
            }
            crate::text::push_char(&mut out, c[i]);
            i = i + 1;
        }
        assert(out@ + replace_all(c@.skip(i as int), pc@, r@) =~= before + replace_all(rest, pc@, r@));
    }
    assert(c@.skip(c@.len() as int) =~= Seq::<char>::empty());
    assert(out@ + Seq::<char>::empty() =~= out@);
    out
}

/// A command to run on the shell.
pub struct ShellCommand {
    /// The command line, elevated to root when asked.
    pub line: String,
    /// Whether the user sees its output and can interact.
    pub output: bool,
    /// Where it runs, relative to the home directory.
    pub running_directory: Option<String>,
    /// Whether the user confirms it once more before it runs.
    pub confirm: bool,
}

/// The command line of `command`, run as root through the root elevator when asked.
pub open spec fn elevated(elevator: Seq<char>, command: Seq<char>, root: bool) -> Seq<char> {
    if root {
        replace_all(elevator, "%COMMAND%"@, command)
    } else {
        command
    }
}

/// Copies an optional text.
fn copy_opt(o: &Option<String>) -> (r: Option<String>)
    ensures
        crate::jobs::opt_text(r) == crate::jobs::opt_text(*o),
{
    match o {
        Some(s) => Some(copy_string(s)),
        None => None,
    }
}

/// Copies the shell configuration.
pub fn copy_shell_config(c: &ConfigShell) -> (r: ConfigShell)
    ensures
        r.root_elevator@ == c.root_elevator@,
        r.file_previewer@ == c.file_previewer@,
        r.package_manager.root == c.package_manager.root,
        r.package_manager.install@ == c.package_manager.install@,
        r.package_manager.remove@ == c.package_manager.remove@,
{
    ConfigShell {
        root_elevator: copy_string(&c.root_elevator),
        file_previewer: copy_string(&c.file_previewer),
        package_manager: ConfigPackage {
            root: c.package_manager.root,
            install: copy_string(&c.package_manager.install),
            remove: copy_string(&c.package_manager.remove),
        },
    }
}

/// Plans the commands run on the user's shell.
pub struct Shell {
    pub shell_config: ConfigShell,
    pub extra_confirm: bool,
}

impl Shell {
    pub fn new(config: &Config) -> (r: Self)
        ensures
            r.shell_config.root_elevator@ == config.system.root_elevator@,
            r.shell_config.file_previewer@ == config.system.file_previewer@,
            r.shell_config.package_manager.root == config.system.package_manager.root,
            r.shell_config.package_manager.install@ == config.system.package_manager.install@,
            r.shell_config.package_manager.remove@ == config.system.package_manager.remove@,
            r.extra_confirm == config.security.extra_confirm_everything,
    {
        Shell { shell_config: copy_shell_config(&config.system), extra_confirm: config.security.extra_confirm_everything }
    }

    /// The command that runs `command`, as root when asked.
    pub fn run(&self, command: &str, root: bool, output: bool, running_directory: Option<String>) -> (r: ShellCommand)
        ensures
            r.line@ == elevated(self.shell_config.root_elevator@, command@, root),
            r.output == output,
            r.running_directory == running_directory,
            r.confirm == self.extra_confirm,
    {
        proof {
            reveal_strlit("%COMMAND%");
        }
        let line = if root {
            replace_text(self.shell_config.root_elevator.as_str(), "%COMMAND%", command)
        } else {
            text(command)
        };
        ShellCommand { line, output, running_directory, confirm: self.extra_confirm }
    }

    /// The command that installs packages with the package manager.
    pub fn install(&self, packages: &Vec<String>) -> (r: ShellCommand)
        ensures
            r.line@ == elevated(self.shell_config.root_elevator@, replace_all(self.shell_config.package_manager.install@,
                "%PACKAGE%"@, joined_with(texts(packages@), " "@)), self.shell_config.package_manager.root),
            r.output,
            r.running_directory is None,
    {
        proof {
            reveal_strlit("%PACKAGE%");
            reveal_strlit(" ");
        }
        let names = join_texts(packages, " ");
        let command = replace_text(self.shell_config.package_manager.install.as_str(), "%PACKAGE%", names.as_str());
        self.run(command.as_str(), self.shell_config.package_manager.root, true, None)
    }

    /// The command that removes packages with the package manager.
    pub fn uninstall(&self, packages: &Vec<String>) -> (r: ShellCommand)
        ensures
            r.line@ == elevated(self.shell_config.root_elevator@, replace_all(self.shell_config.package_manager.remove@,
                "%PACKAGE%"@, joined_with(texts(packages@), " "@)), self.shell_config.package_manager.root),
            r.output,
            r.running_directory is None,
    {
        proof {
            reveal_strlit("%PACKAGE%");
            reveal_strlit(" ");
        }
        let names = join_texts(packages, " ");
        let command = replace_text(self.shell_config.package_manager.remove.as_str(), "%PACKAGE%", names.as_str());
        self.run(command.as_str(), self.shell_config.package_manager.root, true, None)
    }

    /// The command that makes a directory and its parents.
    pub fn make_dir(&self, path: &str, root: bool, running_directory: Option<String>) -> (r: ShellCommand)
        ensures
            r.line@ == elevated(self.shell_config.root_elevator@, "mkdir -p "@ + path@, root),
            !r.output,
    {
        proof {
            reveal_strlit("mkdir -p ");
        }
        let mut c = text("mkdir -p ");
        push_text(&mut c, path);
        self.run(c.as_str(), root, false, running_directory)
    }

    /// The command that removes a file or directory.
    pub fn remove(&self, path: &str, root: bool, running_directory: Option<String>) -> (r: ShellCommand)
        ensures
            r.line@ == elevated(self.shell_config.root_elevator@, "rm -r "@ + path@, root),
            !r.output,
    {
        proof {
            reveal_strlit("rm -r ");
        }
        let mut c = text("rm -r ");
        push_text(&mut c, path);
        self.run(c.as_str(), root, false, running_directory)
    }

    /// The command that copies a file or directory.
    pub fn copy(&self, source: &str, destination: &str, root: bool, running_directory: Option<String>) -> (r: ShellCommand)
        ensures
            r.line@ == elevated(self.shell_config.root_elevator@, "cp -r "@ + source@ + " "@ + destination@, root),
            !r.output,
    {
        proof {
            reveal_strlit("cp -r ");
            reveal_strlit(" ");
        }
        let mut c = text("cp -r ");
        push_text(&mut c, source);
        push_text(&mut c, " ");
        push_text(&mut c, destination);
        self.run(c.as_str(), root, false, running_directory)
    }

    /// The command that links a file or directory.
    pub fn link(&self, source: &str, destination: &str, root: bool, running_directory: Option<String>) -> (r: ShellCommand)
        ensures
            r.line@ == elevated(self.shell_config.root_elevator@, "ln -s "@ + source@ + " "@ + destination@, root),
            !r.output,
    {
        proof {
            reveal_strlit("ln -s ");
            reveal_strlit(" ");
        }
        let mut c = text("ln -s ");
        push_text(&mut c, source);
        push_text(&mut c, " ");
        push_text(&mut c, destination);
        self.run(c.as_str(), root, false, running_directory)
    }

    /// The command that makes a file executable.
    pub fn make_executable(&self, path: &str, root: bool, running_directory: Option<String>) -> (r: ShellCommand)
        ensures
            r.line@ == elevated(self.shell_config.root_elevator@, "chmod +x "@ + path@, root),
            !r.output,
    {
        proof {
            reveal_strlit("chmod +x ");
        }
        let mut c = text("chmod +x ");
        push_text(&mut c, path);
        self.run(c.as_str(), root, false, running_directory)
    }

    /// The command that shows a file with the file previewer.
    pub fn preview(&self, path: &str, running_directory: Option<String>) -> (r: ShellCommand)
        ensures
            r.line@ == replace_all(self.shell_config.file_previewer@, "%FILE%"@, path@),
            r.output,
    {
        proof {
            reveal_strlit("%FILE%");
        }
        let command = replace_text(self.shell_config.file_previewer.as_str(), "%FILE%", path);
        self.run(command.as_str(), false, true, running_directory)
    }
}

/// Whether an action is confirmed under a strategy.
pub open spec fn confirmed_by(strategy: ConfirmStrategy, root: bool) -> bool {
    match strategy {
        ConfirmStrategy::No => false,
        ConfirmStrategy::Yes => true,
        ConfirmStrategy::Root => root,
    }
}

/// What happens before an action: it goes ahead, or the user is asked first.
pub enum Check {
    Proceed,
    /// Ask the question; the action goes ahead when the user agrees, which is the default.
    Ask(String),
}

/// Whether a script is shown before it runs.
pub enum Preview {
    Yes,
    No,
    /// Ask the question; the script is shown when the user agrees, which is not the default.
    Ask(String),
}

/// `" as root"` for an action as root, nothing otherwise.
pub open spec fn as_root(root: bool) -> Seq<char> {
    if root { " as root"@ } else { ""@ }
}

fn as_root_text(root: bool) -> (r: &'static str)
    ensures
        r@ == as_root(root),
{
    proof {
        reveal_strlit(" as root");
        reveal_strlit("");
    }
    if root { " as root" } else { "" }
}

/// Runs the commands of an installation after asking what the security settings ask for.
pub struct CheckedShell {
    pub security: ConfigSecurity,
    pub unchecked: Shell,
}

impl CheckedShell {
    pub fn new(config: &Config) -> (r: Self)
        ensures
            r.security.extra_confirm_everything == config.security.extra_confirm_everything,
            r.security.preview_scripts == config.security.preview_scripts,
            r.security.confirm_packages == config.security.confirm_packages,
            r.security.confirm_execution == config.security.confirm_execution,
            r.security.confirm_files == config.security.confirm_files,
            r.unchecked.extra_confirm == config.security.extra_confirm_everything,
    {
        CheckedShell {
            security: ConfigSecurity {
                extra_confirm_everything: config.security.extra_confirm_everything,
                preview_scripts: config.security.preview_scripts,
                confirm_packages: config.security.confirm_packages,
                confirm_execution: config.security.confirm_execution,
                confirm_files: config.security.confirm_files,
            },
            unchecked: Shell::new(config),
        }
    }

    fn confirm_execution(&self, root: bool) -> (r: bool)
        ensures
            r == confirmed_by(self.security.confirm_execution, root),
    {
        match self.security.confirm_execution {
            ConfirmStrategy::No => false,
            ConfirmStrategy::Yes => true,
            ConfirmStrategy::Root => root,
        }
    }

    fn confirm_files(&self, root: bool) -> (r: bool)
        ensures
            r == confirmed_by(self.security.confirm_files, root),
    {
        match self.security.confirm_files {
            ConfirmStrategy::No => false,
            ConfirmStrategy::Yes => true,
            ConfirmStrategy::Root => root,
        }
    }

    /// What happens before a file action: the user confirms `action` when the settings ask for it.
    pub fn check_file(&self, root: bool, action: &str) -> (r: Check)
        ensures
            confirmed_by(self.security.confirm_files, root) <==> r is Ask,
            r matches Check::Ask(q) ==> q@ == "Do you want to "@ + action@ + as_root(root) + "?"@,
    {
        if !self.confirm_files(root) {
            return Check::Proceed;
        }
        proof {
            reveal_strlit("Do you want to ");
            reveal_strlit("?");
        }
        let mut q = text("Do you want to ");
        push_text(&mut q, action);
        push_text(&mut q, as_root_text(root));
        push_text(&mut q, "?");
        Check::Ask(q)
    }

    /// Whether a script is shown before it runs.
    pub fn check_preview(&self, root: bool, script: &str) -> (r: Preview)
        ensures
            match self.security.preview_scripts {
                PreviewStrategy::Always => r is Yes,
                PreviewStrategy::Root => if root { r is Yes } else { r is No },
                PreviewStrategy::Never => r is No,
                PreviewStrategy::Ask => r is Ask,
                PreviewStrategy::AskRoot => if root { r is Ask } else { r is No },
            },
            r matches Preview::Ask(q) ==> q@ == "Do you want to preview the to be run"@ + as_root(root) + " script '"@
                + script@ + "'?"@,
    {
        let ask = match self.security.preview_scripts {
            PreviewStrategy::Always => {
                return Preview::Yes;
            },
            PreviewStrategy::Root => {
                return if root { Preview::Yes } else { Preview::No };
            },
            PreviewStrategy::Never => {
                return Preview::No;
            },
            PreviewStrategy::Ask => true,
            PreviewStrategy::AskRoot => root,
        };
        if !ask {
            return Preview::No;
        }
        proof {
            reveal_strlit("Do you want to preview the to be run");
            reveal_strlit(" script '");
            reveal_strlit("'?");
        }
        let mut q = text("Do you want to preview the to be run");
        push_text(&mut q, as_root_text(root));
        push_text(&mut q, " script '");
        push_text(&mut q, script);
        push_text(&mut q, "'?");
        Preview::Ask(q)
    }

    /// What happens before a script runs, once it was shown or not: a shown script is always
    /// confirmed, another one when the settings ask for it.
    pub fn check_script(&self, root: bool, script: &str, previewed: bool) -> (r: Check)
        ensures
            (previewed || confirmed_by(self.security.confirm_execution, root)) <==> r is Ask,
            r matches Check::Ask(q) ==> q@ == "Do you want to run the script '"@ + script@ + "'"@ + as_root(root) + "?"@,
    {
        if !previewed && !self.confirm_execution(root) {
            return Check::Proceed;
        }
        proof {
            reveal_strlit("Do you want to run the script '");
            reveal_strlit("'");
            reveal_strlit("?");
        }
        let mut q = text("Do you want to run the script '");
        push_text(&mut q, script);
        push_text(&mut q, "'");
        push_text(&mut q, as_root_text(root));
        push_text(&mut q, "?");
        Check::Ask(q)
    }

    /// What happens before a command runs.
    pub fn check_command(&self, root: bool, command: &str) -> (r: Check)
        ensures
            confirmed_by(self.security.confirm_execution, root) <==> r is Ask,
            r matches Check::Ask(q) ==> q@ == "Do you want to run the command '"@ + command@ + "'"@ + as_root(root)
                + " on your shell?"@,
    {
        if !self.confirm_execution(root) {
            return Check::Proceed;
        }
        proof {
            reveal_strlit("Do you want to run the command '");
            reveal_strlit("'");
            reveal_strlit(" on your shell?");
        }
        let mut q = text("Do you want to run the command '");
        push_text(&mut q, command);
        push_text(&mut q, "'");
        push_text(&mut q, as_root_text(root));
        push_text(&mut q, " on your shell?");
        Check::Ask(q)
    }

    /// What happens before packages are installed or removed.
    pub fn check_package(&self, packages: &Vec<String>) -> (r: Check)
        ensures
            self.security.confirm_packages <==> r is Ask,
            r matches Check::Ask(q) ==> q@ == "Do you want to manipulate the package(s) '"@ + joined_with(texts(packages@), " "@) + "'"@,
    {
        if !self.security.confirm_packages {
            return Check::Proceed;
        }
        proof {
            reveal_strlit("Do you want to manipulate the package(s) '");
            reveal_strlit(" ");
            reveal_strlit("'");
        }
        let mut q = text("Do you want to manipulate the package(s) '");
        push_text(&mut q, join_texts(packages, " ").as_str());
        push_text(&mut q, "'");
        Check::Ask(q)
    }

    /// Installing packages: what is asked first, and the command that runs.
    pub fn install(&self, packages: &Vec<String>) -> (r: (Check, ShellCommand))
        ensures
            self.security.confirm_packages <==> r.0 is Ask,
            r.1.line@ == elevated(self.unchecked.shell_config.root_elevator@, replace_all(self.unchecked.shell_config.package_manager.install@,
                "%PACKAGE%"@, joined_with(texts(packages@), " "@)), self.unchecked.shell_config.package_manager.root),
    {
        (self.check_package(packages), self.unchecked.install(packages))
    }

    /// Removing packages: what is asked first, and the command that runs.
    pub fn uninstall(&self, packages: &Vec<String>) -> (r: (Check, ShellCommand))
        ensures
            self.security.confirm_packages <==> r.0 is Ask,
            r.1.line@ == elevated(self.unchecked.shell_config.root_elevator@, replace_all(self.unchecked.shell_config.package_manager.remove@,
                "%PACKAGE%"@, joined_with(texts(packages@), " "@)), self.unchecked.shell_config.package_manager.root),
    {
        (self.check_package(packages), self.unchecked.uninstall(packages))
    }

    /// Making a directory: what is asked first, and the command that runs.
    pub fn make_dir(&self, path: &str, root: bool, running_directory: Option<String>) -> (r: (Check, ShellCommand))
        ensures
            confirmed_by(self.security.confirm_files, root) <==> r.0 is Ask,
            r.0 matches Check::Ask(q) ==> q@ == "Do you want to make the directory '"@ + path@ + "'"@ + as_root(root) + "?"@,
            r.1.line@ == elevated(self.unchecked.shell_config.root_elevator@, "mkdir -p "@ + path@, root),
    {
        proof {
            reveal_strlit("make the directory '");
            reveal_strlit("'");
            reveal_strlit("Do you want to ");
            reveal_strlit("Do you want to make the directory '");
            reveal_strlit("?");
        }
        let mut action = text("make the directory '");
        push_text(&mut action, path);
        push_text(&mut action, "'");
        let check = self.check_file(root, action.as_str());
        proof {
            if let Check::Ask(q) = &check {
                assert(q@ =~= "Do you want to make the directory '"@ + path@ + "'"@ + as_root(root) + "?"@);
            }
        }
        (check, self.unchecked.make_dir(path, root, running_directory))
    }

    /// Removing a file: what is asked first, and the command that runs.
    pub fn remove(&self, path: &str, root: bool, running_directory: Option<String>) -> (r: (Check, ShellCommand))
        ensures
            confirmed_by(self.security.confirm_files, root) <==> r.0 is Ask,
            r.0 matches Check::Ask(q) ==> q@ == "Do you want to delete the file '"@ + path@ + "'"@ + as_root(root) + "?"@,
            r.1.line@ == elevated(self.unchecked.shell_config.root_elevator@, "rm -r "@ + path@, root),
    {
        proof {
            reveal_strlit("delete the file '");
            reveal_strlit("'");
            reveal_strlit("Do you want to ");
            reveal_strlit("Do you want to delete the file '");
            reveal_strlit("?");
        }
        let mut action = text("delete the file '");
        push_text(&mut action, path);
        push_text(&mut action, "'");
        let check = self.check_file(root, action.as_str());
        proof {
            if let Check::Ask(q) = &check {
                assert(q@ =~= "Do you want to delete the file '"@ + path@ + "'"@ + as_root(root) + "?"@);
            }
        }
        (check, self.unchecked.remove(path, root, running_directory))
    }

    /// Copying a file: what is asked first, and the command that runs.
    pub fn copy(&self, source: &str, destination: &str, root: bool, running_directory: Option<String>) -> (r: (Check, ShellCommand))
        ensures
            confirmed_by(self.security.confirm_files, root) <==> r.0 is Ask,
            r.0 matches Check::Ask(q) ==> q@ == "Do you want to copy the file from '"@ + source@ + "' to '"@ + destination@
                + "'"@ + as_root(root) + "?"@,
            r.1.line@ == elevated(self.unchecked.shell_config.root_elevator@, "cp -r "@ + source@ + " "@ + destination@, root),
    {
        proof {
            reveal_strlit("copy the file from '");
            reveal_strlit("' to '");
            reveal_strlit("'");
            reveal_strlit("Do you want to ");
            reveal_strlit("Do you want to copy the file from '");
            reveal_strlit("?");
        }
        let mut action = text("copy the file from '");
        push_text(&mut action, source);
        push_text(&mut action, "' to '");
        push_text(&mut action, destination);
        push_text(&mut action, "'");
        let check = self.check_file(root, action.as_str());
        proof {
            if let Check::Ask(q) = &check {
                assert(q@ =~= "Do you want to copy the file from '"@ + source@ + "' to '"@ + destination@ + "'"@ + as_root(root) + "?"@);
            }
        }
        (check, self.unchecked.copy(source, destination, root, running_directory))
    }

    /// Linking a file: what is asked first, and the command that runs.
    pub fn link(&self, source: &str, destination: &str, root: bool, running_directory: Option<String>) -> (r: (Check, ShellCommand))
        ensures
            confirmed_by(self.security.confirm_files, root) <==> r.0 is Ask,
            r.0 matches Check::Ask(q) ==> q@ == "Do you want to symlink the file from '"@ + source@ + "' to '"@ + destination@
                + "'"@ + as_root(root) + "?"@,
            r.1.line@ == elevated(self.unchecked.shell_config.root_elevator@, "ln -s "@ + source@ + " "@ + destination@, root),
    {
        proof {
            reveal_strlit("symlink the file from '");
            reveal_strlit("' to '");
            reveal_strlit("'");
            reveal_strlit("Do you want to ");
            reveal_strlit("Do you want to symlink the file from '");
            reveal_strlit("?");
        }
        let mut action = text("symlink the file from '");
        push_text(&mut action, source);
        push_text(&mut action, "' to '");
        push_text(&mut action, destination);
        push_text(&mut action, "'");
        let check = self.check_file(root, action.as_str());
        proof {
            if let Check::Ask(q) = &check {
                assert(q@ =~= "Do you want to symlink the file from '"@ + source@ + "' to '"@ + destination@ + "'"@ + as_root(root) + "?"@);
            }
        }
        (check, self.unchecked.link(source, destination, root, running_directory))
    }

    /// Making a file executable: what is asked first, and the command that runs.
    pub fn make_executable(&self, path: &str, root: bool, running_directory: Option<String>) -> (r: (Check, ShellCommand))
        ensures
            confirmed_by(self.security.confirm_files, root) <==> r.0 is Ask,
            r.0 matches Check::Ask(q) ==> q@ == "Do you want to make the file '"@ + path@ + "' executable"@ + as_root(root) + "?"@,
            r.1.line@ == elevated(self.unchecked.shell_config.root_elevator@, "chmod +x "@ + path@, root),
    {
        proof {
            reveal_strlit("make the file '");
            reveal_strlit("' executable");
            reveal_strlit("Do you want to ");
            reveal_strlit("Do you want to make the file '");
            reveal_strlit("?");
        }
        let mut action = text("make the file '");
        push_text(&mut action, path);
        push_text(&mut action, "' executable");
        let check = self.check_file(root, action.as_str());
        proof {
            if let Check::Ask(q) = &check {
                assert(q@ =~= "Do you want to make the file '"@ + path@ + "' executable"@ + as_root(root) + "?"@);
            }
        }
        (check, self.unchecked.make_executable(path, root, running_directory))
    }

    /// Running a script: whether it is shown first, and the command that runs it.
    pub fn run_script(&self, path: &str, root: bool, output: bool, running_directory: Option<String>) -> (r: (Preview, ShellCommand))
        ensures
            r.1.line@ == elevated(self.unchecked.shell_config.root_elevator@, path@, root),
            r.1.output == output,
    {
        (self.check_preview(root, path), self.unchecked.run(path, root, output, running_directory))
    }

    /// Running a command: what is asked first, and the command that runs.
    pub fn run_command(&self, command: &str, root: bool, output: bool, running_directory: Option<String>) -> (r: (Check, ShellCommand))
        ensures
            confirmed_by(self.security.confirm_execution, root) <==> r.0 is Ask,
            r.1.line@ == elevated(self.unchecked.shell_config.root_elevator@, command@, root),
            r.1.output == output,
    {
        (self.check_command(root, command), self.unchecked.run(command, root, output, running_directory))
    }
}

} // verus!
