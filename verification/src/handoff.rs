//! The hand-off to herdr, for the few actions that exist only inside it:
//! linear-tui leaves a request for the herdr plugin and asks it to pick it
//! up; the plugin does the herdr work.

use vstd::prelude::*;
use crate::callback::{lossy, utf8_lossy};
use crate::text::{chars_of, decimal, push_decimal, push_str, trim, trimmed};

verus! {

/// The plugin action that delivers what is in the outbox.
pub const DELIVER: &'static str = "k1-c.linear-tui.deliver";

/// What linear-tui asks the plugin to do.
#[derive(Debug, Clone, PartialEq, Eq)]
pub enum Handoff {
    /// Send the user's notes to the agent working next to linear-tui.
    Prompt {
        /// The whole prompt, ready to send as it is.
        text: String,
        /// Its parts, for a prompt template: the notes as a Markdown list,
        /// where the user is, and how to read more.
        notes: String,
        view: String,
        hint: String,
    },
}

impl Handoff {
    /// What the status line says once the plugin has it.
    pub fn done(&self) -> (s: &'static str)
        ensures
            s@ == "Notes handed to herdr for your agent"@,
    {
        match self {
            Handoff::Prompt { .. } => "Notes handed to herdr for your agent",
        }
    }
}


/// Whether linear-tui runs inside herdr: herdr names its binary in
/// `HERDR_BIN_PATH`, and an empty value names none.
pub fn available(bin_path: Option<&str>) -> (b: bool)
    ensures
        b == (match bin_path {
            Some(p) => p@.len() > 0,
            None => false,
        }),
{
    match bin_path {
        Some(p) => chars_of(p).len() > 0,
        None => false,
    }
}

/// `dir` with `name` below it, as `PathBuf::join` writes a relative name:
/// a separator between them unless `dir` is empty or already ends in one.
pub open spec fn joined_path(dir: Seq<char>, name: Seq<char>) -> Seq<char> {
    if dir.len() == 0 {
        name
    } else if dir.last() == '/' {
        dir + name
    } else {
        dir + "/"@ + name
    }
}

fn push_below(path: &mut String, name: &str)
    ensures
        final(path)@ == joined_path(old(path)@, name@),
{
    let v = chars_of(path.as_str());
    if v.len() > 0 && v[v.len() - 1] != '/' {
        push_str(path, "/");
    }
    push_str(path, name);
    proof {
        if v@.len() == 0 {
            assert(old(path)@.len() == 0);
        }
    }
}

/// Where requests for the plugin wait: `herdr/outbox` in linear-tui's
/// state directory.
pub fn outbox_dir(state_dir: &str) -> (dir: String)
    ensures
        dir@ == joined_path(joined_path(state_dir@, "herdr"@), "outbox"@),
{
    let mut dir = String::new();
    push_str(&mut dir, state_dir);
    push_below(&mut dir, "herdr");
    push_below(&mut dir, "outbox");
    dir
}

/// The plugin's list of herdr agents: `herdr/agents.json` in linear-tui's
/// state directory.
pub fn agents_file(state_dir: &str) -> (file: String)
    ensures
        file@ == joined_path(joined_path(state_dir@, "herdr"@), "agents.json"@),
{
    let mut file = String::new();
    push_str(&mut file, state_dir);
    push_below(&mut file, "herdr");
    push_below(&mut file, "agents.json");
    file
}

/// The name a request is left in the outbox under: when it was written, in
/// milliseconds, and the process that wrote it.
pub open spec fn outbox_file_name_text(millis: nat, pid: nat) -> Seq<char> {
    decimal(millis) + "-"@ + decimal(pid) + ".json"@
}

/// The name a request is left in the outbox under.
pub fn outbox_file_name(millis: u64, pid: u32) -> (name: String)
    ensures
        name@ == outbox_file_name_text(millis as nat, pid as nat),
{
    let mut name = String::new();
    push_decimal(&mut name, millis);
    push_str(&mut name, "-");
    push_decimal(&mut name, pid as u64);
    push_str(&mut name, ".json");
    assert(name@ =~= outbox_file_name_text(millis as nat, pid as nat));
    name
}

/// Why the plugin did not run, from what it printed: its error output, or
/// its standard output when the error output is blank.
pub open spec fn plugin_failure_text(stderr: Seq<u8>, stdout: Seq<u8>) -> Seq<char> {
    let err = utf8_lossy(stderr);
    let reason = if trimmed(err).len() == 0 { utf8_lossy(stdout) } else { err };
    "the linear-tui herdr plugin did not run: "@ + trimmed(reason)
}

/// The error a failed hand-off reports, from what the plugin printed.
pub fn plugin_failure(stderr: &[u8], stdout: &[u8]) -> (message: String)
    ensures
        message@ == plugin_failure_text(stderr@, stdout@),
{
    let err = lossy(stderr);
    let reason = if trim(err.as_str()).is_empty() {
        lossy(stdout)
    } else {
        err
    };
    let mut message = String::new();
    push_str(&mut message, "the linear-tui herdr plugin did not run: ");
    push_str(&mut message, trim(reason.as_str()));
    message
}

}
