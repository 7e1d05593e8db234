//! Atomic changes to the system, which jobs are built into, and their errors.
//!
//! Applying and reverting a change touches the filesystem and runs commands; that is done by the
//! program around this library. This module holds the changes themselves, what they describe,
//! and the decisions taken on the outcome of a command or script.
use vstd::prelude::*;
use crate::text::{copy_string, push_text, decimal};
use crate::variables::token::text;
use crate::module::qualifier::{copy_option, opt_view};
use crate::jobs::construct::{push_path, pushed_path};
use chksum::{hash, SHA1};

verus! {

/// What `chksum::hash::<SHA1>` gives for a text, written in lowercase hex by `to_hex_lowercase`:
/// the SHA-1 digest of the text's UTF-8 bytes.
pub uninterp spec fn sha1_text(text: Seq<char>) -> Seq<char>;

/// `chksum::hash::<SHA1>` on a text, in lowercase hex. Hashing a text in memory cannot fail.
#[verifier::external_body]
fn sha1_text_hex(text: &str) -> (r: String)
    ensures
        r@ == sha1_text(text@),
{
    hash::<SHA1>(text).to_hex_lowercase()
}

/// Where a change keeps something in the directory `dir`: a copy of the file at a path, or a
/// text it stores, under the SHA-1 of that path or text.
pub fn keeping_path(dir: &str, key: &str) -> (r: String)
    ensures
        r@ == pushed_path(dir@, sha1_text(key@)),
{
    let name = sha1_text_hex(key);
    push_path(dir, name.as_str())
}

/// An error while applying or reverting a change.
pub enum ChangeError {
    WorkerFatal { message: String },
    Filesystem { path: String, message: String, cause: String },
    Cache { path: String, target_path: String, message: String },
    Temp { content: String, target_path: String, message: String },
    CommandFatal { command: String, message: String },
    /// `exit_code` is `i32::MAX` when the process was ended by a signal.
    Command { command: String, output: String, error: String, exit_code: i32 },
    ScriptFatal { script: String, message: String },
    /// `exit_code` is `i32::MAX` when the script was ended by a signal.
    Script { script: String, output: String, error: String, exit_code: i32 },
}

/// A number in decimal, with a minus sign when it is negative.
pub open spec fn signed_decimal(n: int) -> Seq<char> {
    if n < 0 {
        "-"@ + decimal((-n) as nat)
    } else {
        decimal(n as nat)
    }
}

/// Writes an `i32` in decimal.
pub fn signed_decimal_text(n: i32) -> (r: String)
    ensures
        r@ == signed_decimal(n as int),
{
    proof {
        reveal_strlit("-");
    }
    if n < 0 {
        let m: i64 = -(n as i64);
        assert(m <= 2147483648);
        let mut r = text("-");
        let d = crate::text::decimal_text(m as usize);
        push_text(&mut r, d.as_str());
        r
    } else {
        crate::text::decimal_text(n as usize)
    }
}

/// The message of a change error.
pub open spec fn error_message(e: ChangeError) -> Seq<char> {
    match e {
        ChangeError::WorkerFatal { message } => "Fatal error occurred: "@ + message@,
        ChangeError::Filesystem { path, message, cause } => "Could not use filesystem at '"@ + path@ + "', "@
            + message@ + ", caused by: "@ + cause@,
        ChangeError::Cache { path, target_path, message } => "Could not cache file '"@ + path@ + "' to '"@
            + target_path@ + "', because of: "@ + message@,
        ChangeError::Temp { target_path, message, .. } => "Could not store file temporarily at '"@
            + target_path@ + "', because of "@ + message@,
        ChangeError::CommandFatal { command, message } => "Fatal error occurred when running command: "@
            + message@ + "\nCommand run was '"@ + command@ + "'"@,
        ChangeError::Command { command, output, error, exit_code } =>
            "Command did not run successfully and exited with code "@ + signed_decimal(exit_code as int)
            + "\nCommand was: "@ + command@ + "\nConsole output was:\n"@ + output@ + "\nError output was:\n"@
            + error@,
        ChangeError::ScriptFatal { message, .. } => "Fatal error occurred when running script: "@ + message@,
        ChangeError::Script { script, output, error, exit_code } =>
            "Script did not run successfully and exited with code "@ + signed_decimal(exit_code as int)
            + "\nScript was:\n"@ + script@ + "\nConsole output was:\n"@ + output@ + "\nError output was:\n"@
            + error@,
    }
}

impl ChangeError {
    pub fn filesystem(path: String, message: String, cause: String) -> (r: Self)
        ensures
            r == (ChangeError::Filesystem { path, message, cause }),
    {
        ChangeError::Filesystem { path, message, cause }
    }

    pub fn command(command: String, output: String, error: String, exit_code: i32) -> (r: Self)
        ensures
            r == (ChangeError::Command { command, output, error, exit_code }),
    {
        ChangeError::Command { command, output, error, exit_code }
    }

    pub fn script(script: String, output: String, error: String, exit_code: i32) -> (r: Self)
        ensures
            r == (ChangeError::Script { script, output, error, exit_code }),
    {
        ChangeError::Script { script, output, error, exit_code }
    }

    pub fn command_fatal(command: String, message: String) -> (r: Self)
        ensures
            r == (ChangeError::CommandFatal { command, message }),
    {
        ChangeError::CommandFatal { command, message }
    }

    pub fn script_fatal(script: String, message: String) -> (r: Self)
        ensures
            r == (ChangeError::ScriptFatal { script, message }),
    {
        ChangeError::ScriptFatal { script, message }
    }

    pub fn temp(content: String, target_path: String, message: String) -> (r: Self)
        ensures
            r == (ChangeError::Temp { content, target_path, message }),
    {
        ChangeError::Temp { content, target_path, message }
    }

    pub fn cache(path: String, target_path: String, message: String) -> (r: Self)
        ensures
            r == (ChangeError::Cache { path, target_path, message }),
    {
        ChangeError::Cache { path, target_path, message }
    }

    pub fn fatal(message: String) -> (r: Self)
        ensures
            r == (ChangeError::WorkerFatal { message }),
    {
        ChangeError::WorkerFatal { message }
    }

    /// The message that explains the error.
    pub fn message(&self) -> (r: String)
        ensures
            r@ == error_message(*self),
    {
        proof {
            reveal_strlit("Fatal error occurred: ");
            reveal_strlit("Could not use filesystem at '");
            reveal_strlit("', ");
            reveal_strlit(", caused by: ");
            reveal_strlit("Could not cache file '");
            reveal_strlit("' to '");
            reveal_strlit("', because of: ");
            reveal_strlit("Could not store file temporarily at '");
            reveal_strlit("', because of ");
            reveal_strlit("Fatal error occurred when running command: ");
            reveal_strlit("\nCommand run was '");
            reveal_strlit("'");
            reveal_strlit("Command did not run successfully and exited with code ");
            reveal_strlit("\nCommand was: ");
            reveal_strlit("\nConsole output was:\n");
            reveal_strlit("\nError output was:\n");
            reveal_strlit("Fatal error occurred when running script: ");
            reveal_strlit("Script did not run successfully and exited with code ");
            reveal_strlit("\nScript was:\n");
        }
        match self {
            ChangeError::WorkerFatal { message } => {
                let mut r = text("Fatal error occurred: ");
                push_text(&mut r, message.as_str());
                r
            },
            ChangeError::Filesystem { path, message, cause } => {
                let mut r = text("Could not use filesystem at '");
                push_text(&mut r, path.as_str());
                push_text(&mut r, "', ");
                push_text(&mut r, message.as_str());
                push_text(&mut r, ", caused by: ");
                push_text(&mut r, cause.as_str());
                r
            },
            ChangeError::Cache { path, target_path, message } => {
                let mut r = text("Could not cache file '");
                push_text(&mut r, path.as_str());
                push_text(&mut r, "' to '");
                push_text(&mut r, target_path.as_str());
                push_text(&mut r, "', because of: ");
                push_text(&mut r, message.as_str());
                r
            },
            ChangeError::Temp { target_path, message, .. } => {
                let mut r = text("Could not store file temporarily at '");
                push_text(&mut r, target_path.as_str());
                push_text(&mut r, "', because of ");
                push_text(&mut r, message.as_str());
                r
            },
            ChangeError::CommandFatal { command, message } => {
                let mut r = text("Fatal error occurred when running command: ");
                push_text(&mut r, message.as_str());
                push_text(&mut r, "\nCommand run was '");
                push_text(&mut r, command.as_str());
                push_text(&mut r, "'");
                r
            },
            ChangeError::Command { command, output, error, exit_code } => {
                let mut r = text("Command did not run successfully and exited with code ");
                push_text(&mut r, signed_decimal_text(*exit_code).as_str());
                push_text(&mut r, "\nCommand was: ");
                push_text(&mut r, command.as_str());
                push_text(&mut r, "\nConsole output was:\n");
                push_text(&mut r, output.as_str());
                push_text(&mut r, "\nError output was:\n");
                push_text(&mut r, error.as_str());
                r
            },
            ChangeError::ScriptFatal { message, .. } => {
                let mut r = text("Fatal error occurred when running script: ");
                push_text(&mut r, message.as_str());
                r
            },
            ChangeError::Script { script, output, error, exit_code } => {
                let mut r = text("Script did not run successfully and exited with code ");
                push_text(&mut r, signed_decimal_text(*exit_code).as_str());
                push_text(&mut r, "\nScript was:\n");
                push_text(&mut r, script.as_str());
                push_text(&mut r, "\nConsole output was:\n");
                push_text(&mut r, output.as_str());
                push_text(&mut r, "\nError output was:\n");
                push_text(&mut r, error.as_str());
                r
            },
        }
    }
}

/// The exit code recorded for a process: its code, or `i32::MAX` when a signal ended it.
pub open spec fn recorded_code(code: Option<i32>) -> i32 {
    match code {
        Some(c) => c,
        None => i32::MAX,
    }
}

/// What running the command of a change gives: nothing when it succeeded or may fail, and
/// otherwise an error with its output.
pub fn command_outcome(command: &String, failable: bool, success: bool, output: String, error: String, code: Option<i32>) -> (r: Result<(), ChangeError>)
    ensures
        r is Ok <==> (failable || success),
        r matches Err(e) ==> e matches ChangeError::Command { command: c, output: o, error: x, exit_code }
            && c@ == command@ && o == output && x == error && exit_code == recorded_code(code),
{
    if !failable && !success {
        let exit_code = match code {
            Some(c) => c,
            None => i32::MAX,
        };
        return Err(ChangeError::command(copy_string(command), output, error, exit_code));
    }
    Ok(())
}

/// What running a script of a change gives: nothing when it succeeded or may fail, and otherwise
/// an error with its output.
pub fn script_outcome(script: &String, failable: bool, success: bool, output: String, error: String, code: Option<i32>) -> (r: Result<(), ChangeError>)
    ensures
        r is Ok <==> (failable || success),
        r matches Err(e) ==> e matches ChangeError::Script { script: c, output: o, error: x, exit_code }
            && c@ == script@ && o == output && x == error && exit_code == recorded_code(code),
{
    if !failable && !success {
        let exit_code = match code {
            Some(c) => c,
            None => i32::MAX,
        };
        return Err(ChangeError::script(copy_string(script), output, error, exit_code));
    }
    Ok(())
}

/// Clears the spot where a file is going to be put.
pub struct ClearChange {
    pub file: String,
    /// Whether to keep what earlier runs cached.
    pub inherit: bool,
}

/// Creates a directory.
pub struct DirectoryChange {
    pub directory: String,
}

/// Writes text into a file.
pub struct WriteChange {
    pub text: String,
    /// The mode of the written file.
    pub permissions: u32,
    pub file: String,
}

/// Copies a file or directory.
pub struct CopyChange {
    pub file: String,
    pub source: String,
}

/// Links a file to a location.
pub struct LinkChange {
    pub file: String,
    pub source: String,
}

/// Runs a command on the shell.
pub struct RunChange {
    pub apply: String,
    pub revert: Option<String>,
    pub dir: String,
    /// Whether the user sees the output and can interact.
    pub interactive: bool,
    /// Whether the command may fail.
    pub failable: bool,
}

/// Runs a script.
pub struct ScriptChange {
    pub apply: String,
    pub revert: Option<String>,
    pub dir: String,
    pub interactive: bool,
    pub failable: bool,
}

impl ClearChange {
    pub fn new(file: String, inherit: bool) -> (r: Self)
        ensures
            r == (ClearChange { file, inherit }),
    {
        ClearChange { file, inherit }
    }
}

impl DirectoryChange {
    pub fn new(directory: String) -> (r: Self)
        ensures
            r == (DirectoryChange { directory }),
    {
        DirectoryChange { directory }
    }
}

/// The mode of files written by earlier versions, which did not record one: `0o644`.
pub open spec fn default_permissions() -> u32 {
    0o644
}

impl WriteChange {
    pub fn new(text: String, permissions: u32, file: String) -> (r: Self)
        ensures
            r == (WriteChange { text, permissions, file }),
    {
        WriteChange { text, permissions, file }
    }

    /// The mode of files written by earlier versions, which did not record one.
    pub fn permissions_default() -> (r: u32)
        ensures
            r == default_permissions(),
    {
        0o644
    }
}

impl CopyChange {
    pub fn new(file: String, source: String) -> (r: Self)
        ensures
            r == (CopyChange { file, source }),
    {
        CopyChange { file, source }
    }
}

impl LinkChange {
    pub fn new(file: String, source: String) -> (r: Self)
        ensures
            r == (LinkChange { file, source }),
    {
        LinkChange { file, source }
    }
}

impl RunChange {
    pub fn new(apply: String, revert: Option<String>, dir: String, interactive: bool, failable: bool) -> (r: Self)
        ensures
            r == (RunChange { apply, revert, dir, interactive, failable }),
    {
        RunChange { apply, revert, dir, interactive, failable }
    }
}

impl ScriptChange {
    pub fn new(apply: String, revert: Option<String>, dir: String, interactive: bool, failable: bool) -> (r: Self)
        ensures
            r == (ScriptChange { apply, revert, dir, interactive, failable }),
    {
        ScriptChange { apply, revert, dir, interactive, failable }
    }
}

/// An atomic change of any kind.
pub enum Change {
    Clear(ClearChange),
    Directory(DirectoryChange),
    Write(WriteChange),
    Copy(CopyChange),
    Link(LinkChange),
    Run(RunChange),
    Script(ScriptChange),
}

/// The description of a change.
pub open spec fn description(c: Change) -> Seq<char> {
    match c {
        Change::Clear(x) => "cleans out the directory '"@ + x.file@ + "'"@,
        Change::Directory(x) => "creating the directory if it doesn't exist '"@ + x.directory@ + "'"@,
        Change::Write(x) => "writes a file to '"@ + x.file@ + "'"@,
        Change::Copy(x) => "copies the file file '"@ + x.source@ + "' to '"@ + x.file@ + "'"@,
        Change::Link(x) => "links the file file '"@ + x.source@ + "' to '"@ + x.file@ + "'"@,
        Change::Run(x) => "runs a"@ + (if x.interactive { "n interactive"@ } else { ""@ })
            + " command on the shell in '"@ + x.dir@ + "'"@,
        Change::Script(x) => "runs a"@ + (if x.interactive { "n interactive"@ } else { ""@ }) + " script in '"@
            + x.dir@ + "'"@,
    }
}

/// The texts of labelled files.
pub open spec fn labelled(v: Seq<(String, String)>) -> Seq<(Seq<char>, Seq<char>)> {
    Seq::new(v.len(), |i: int| (v[i].0@, v[i].1@))
}

/// The critical data a change uses, labelled.
pub open spec fn critical_files(c: Change) -> Seq<(Seq<char>, Seq<char>)> {
    match c {
        Change::Write(x) => seq![("content"@, x.text@)],
        Change::Run(x) => match x.revert {
            Some(r) => seq![("install"@, x.apply@), ("uninstall"@, r@)],
            None => seq![("install"@, x.apply@)],
        },
        Change::Script(x) => match x.revert {
            Some(r) => seq![("script"@, x.apply@), ("revert script"@, r@)],
            None => seq![("script"@, x.apply@)],
        },
        _ => Seq::empty(),
    }
}

/// What a change can say about itself without touching the system.
pub trait AtomicChange {
    /// A description of the change.
    fn describe(&self) -> String;

    /// The critical data the change uses, labelled.
    fn files(&self) -> Vec<(String, String)>;
}

impl AtomicChange for Change {
    fn describe(&self) -> (r: String)
        ensures
            r@ == description(*self),
    {
        proof {
            reveal_strlit("cleans out the directory '");
            reveal_strlit("'");
            reveal_strlit("creating the directory if it doesn't exist '");
            reveal_strlit("writes a file to '");
            reveal_strlit("copies the file file '");
            reveal_strlit("' to '");
            reveal_strlit("links the file file '");
            reveal_strlit("runs a");
            reveal_strlit("n interactive");
            reveal_strlit("");
            reveal_strlit(" command on the shell in '");
            reveal_strlit(" script in '");
        }
        match self {
            Change::Clear(x) => {
                let mut r = text("cleans out the directory '");
                push_text(&mut r, x.file.as_str());
                push_text(&mut r, "'");
                r
            },
            Change::Directory(x) => {
                let mut r = text("creating the directory if it doesn't exist '");
                push_text(&mut r, x.directory.as_str());
                push_text(&mut r, "'");
                r
            },
            Change::Write(x) => {
                let mut r = text("writes a file to '");
                push_text(&mut r, x.file.as_str());
                push_text(&mut r, "'");
                r
            },
            Change::Copy(x) => {
                let mut r = text("copies the file file '");
                push_text(&mut r, x.source.as_str());
                push_text(&mut r, "' to '");
                push_text(&mut r, x.file.as_str());
                push_text(&mut r, "'");
                r
            },
            Change::Link(x) => {
                let mut r = text("links the file file '");
                push_text(&mut r, x.source.as_str());
                push_text(&mut r, "' to '");
                push_text(&mut r, x.file.as_str());
                push_text(&mut r, "'");
                r
            },
            Change::Run(x) => {
                let mut r = text("runs a");
                push_text(&mut r, if x.interactive { "n interactive" } else { "" });
                push_text(&mut r, " command on the shell in '");
                push_text(&mut r, x.dir.as_str());
                push_text(&mut r, "'");
                r
            },
            Change::Script(x) => {
                let mut r = text("runs a");
                push_text(&mut r, if x.interactive { "n interactive" } else { "" });
                push_text(&mut r, " script in '");
                push_text(&mut r, x.dir.as_str());
                push_text(&mut r, "'");
                r
            },
        }
    }

    fn files(&self) -> (r: Vec<(String, String)>)
        ensures
            labelled(r@) == critical_files(*self),
    {
        proof {
            reveal_strlit("content");
            reveal_strlit("install");
            reveal_strlit("uninstall");
            reveal_strlit("script");
            reveal_strlit("revert script");
        }
        let mut v: Vec<(String, String)> = Vec::new();
        match self {
            Change::Write(x) => {
                v.push((text("content"), copy_string(&x.text)));
            },
            Change::Run(x) => {
                v.push((text("install"), copy_string(&x.apply)));
                if let Some(r) = &x.revert {
                    v.push((text("uninstall"), copy_string(r)));
                }
            },
            Change::Script(x) => {
                v.push((text("script"), copy_string(&x.apply)));
                if let Some(r) = &x.revert {
                    v.push((text("revert script"), copy_string(r)));
                }
            },
            _ => {},
        }
        assert(labelled(v@) =~= critical_files(*self));
        v
    }
}

/// Whether two changes are the same: the same kind, with the same texts and flags.
pub open spec fn same_change(a: Change, b: Change) -> bool {
    match (a, b) {
        (Change::Clear(x), Change::Clear(y)) => x.file@ == y.file@ && x.inherit == y.inherit,
        (Change::Directory(x), Change::Directory(y)) => x.directory@ == y.directory@,
        (Change::Write(x), Change::Write(y)) => x.text@ == y.text@ && x.permissions == y.permissions && x.file@ == y.file@,
        (Change::Copy(x), Change::Copy(y)) => x.file@ == y.file@ && x.source@ == y.source@,
        (Change::Link(x), Change::Link(y)) => x.file@ == y.file@ && x.source@ == y.source@,
        (Change::Run(x), Change::Run(y)) => x.apply@ == y.apply@ && opt_view(x.revert) == opt_view(y.revert)
            && x.dir@ == y.dir@ && x.interactive == y.interactive && x.failable == y.failable,
        (Change::Script(x), Change::Script(y)) => x.apply@ == y.apply@ && opt_view(x.revert) == opt_view(y.revert)
            && x.dir@ == y.dir@ && x.interactive == y.interactive && x.failable == y.failable,
        _ => false,
    }
}

impl Change {
    /// A copy of the change.
    pub fn copy(&self) -> (r: Change)
        ensures
            same_change(r, *self),
    {
        match self {
            Change::Clear(x) => Change::Clear(ClearChange { file: copy_string(&x.file), inherit: x.inherit }),
            Change::Directory(x) => Change::Directory(DirectoryChange { directory: copy_string(&x.directory) }),
            Change::Write(x) => Change::Write(
                WriteChange { text: copy_string(&x.text), permissions: x.permissions, file: copy_string(&x.file) },
            ),
            Change::Copy(x) => Change::Copy(CopyChange { file: copy_string(&x.file), source: copy_string(&x.source) }),
            Change::Link(x) => Change::Link(LinkChange { file: copy_string(&x.file), source: copy_string(&x.source) }),
            Change::Run(x) => Change::Run(
                RunChange {
                    apply: copy_string(&x.apply),
                    revert: copy_option(&x.revert),
                    dir: copy_string(&x.dir),
                    interactive: x.interactive,
                    failable: x.failable,
                },
            ),
            Change::Script(x) => Change::Script(
                ScriptChange {
                    apply: copy_string(&x.apply),
                    revert: copy_option(&x.revert),
                    dir: copy_string(&x.dir),
                    interactive: x.interactive,
                    failable: x.failable,
                },
            ),
        }
    }
}

} // verus!
