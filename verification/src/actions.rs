//! What activating a workflow or extension item runs: which action, which
//! command, and whether the window stays open. Spawning the command is done
//! by the application.

use vstd::prelude::*;

use crate::provider::{ActivationResult, Item, ItemAction, ItemActionView};
use crate::text::{chars_of, first_index_of, opt_view, string_of_range};

verus! {

/// The extension of the file a path names, as `Path::extension` gives it.
pub uninterp spec fn path_ext(p: Seq<char>) -> Option<Seq<char>>;

/// Calls `std::path::Path::extension` and converts the result to a string.
/// The contract claims only that the result is a function of the path (the
/// rules for the last component and its dots are std's).
#[verifier::external_body]
fn path_extension(p: &str) -> (r: Option<String>)
    ensures
        opt_view(r) == path_ext(p@),
{
    std::path::Path::new(p).extension().map(|e| e.to_string_lossy().to_string())
}

/// Position of the first action named `name`, or -1.
pub open spec fn action_named(actions: Seq<ItemActionView>, name: Seq<char>) -> int
    decreases actions.len(),
{
    if actions.len() == 0 {
        -1
    } else {
        let r = action_named(actions.drop_last(), name);
        if r >= 0 {
            r
        } else if actions.last().name == name {
            actions.len() - 1
        } else {
            -1
        }
    }
}

pub proof fn lemma_action_named(actions: Seq<ItemActionView>, name: Seq<char>)
    ensures
        -1 <= action_named(actions, name) < actions.len(),
        action_named(actions, name) >= 0 ==> actions[action_named(actions, name)].name == name,
    decreases actions.len(),
{
    if actions.len() > 0 {
        lemma_action_named(actions.drop_last(), name);
    }
}

proof fn lemma_action_named_extend(actions: Seq<ItemActionView>, name: Seq<char>, k: int)
    requires
        0 <= k <= actions.len(),
    ensures
        action_named(actions.take(k), name) >= 0 ==> action_named(actions, name) == action_named(
            actions.take(k),
            name,
        ),
    decreases actions.len() - k,
{
    if k < actions.len() {
        lemma_action_named_extend(actions, name, k + 1);
        assert(actions.take(k + 1).drop_last() =~= actions.take(k));
    } else {
        assert(actions.take(k) =~= actions);
    }
}

/// Position of the first action of `item` named `name`.
pub fn find_action(item: &Item, name: &str) -> (r: Option<usize>)
    ensures
        match r {
            Some(i) => i == action_named(item@.actions, name@),
            None => action_named(item@.actions, name@) == -1,
        },
{
    let ghost acts = item@.actions;
    let mut i: usize = 0;
    while i < item.actions.len()
        invariant
            acts == item@.actions,
            i <= acts.len(),
            action_named(acts.take(i as int), name@) == -1,
        decreases acts.len() - i,
    {
        assert(acts.take(i + 1).drop_last() =~= acts.take(i as int));
        if crate::text::str_eq(item.actions[i].name.as_str(), name) {
            proof {
                lemma_action_named_extend(acts, name@, i + 1);
            }
            return Some(i);
        }
        i = i + 1;
    }
    assert(acts.take(i as int) =~= acts);
    None
}

/// What a workflow command runs, by its protocol prefix.
#[derive(Debug, Clone, PartialEq)]
pub enum WorkflowCommand {
    /// `sh:<command>`, or no protocol: a shell command.
    Shell(String),
    /// `script:<path>`: a script, run by the interpreter its extension names.
    Script { interpreter: String, path: String },
    /// `reaper:<action>`: a REAPER action, only noted.
    Reaper(String),
    /// `ipc:<socket>:<message>`: a message to a Unix socket.
    Ipc { socket: String, message: String },
    /// `ipc:` without a message: nothing is sent.
    IpcIncomplete,
    /// `internal:<action>`: only noted.
    Internal(String),
    /// Any other protocol: only noted.
    Unknown(String),
}

/// The content of a workflow command.
pub enum WorkflowCommandView {
    Shell(Seq<char>),
    Script { interpreter: Seq<char>, path: Seq<char> },
    Reaper(Seq<char>),
    Ipc { socket: Seq<char>, message: Seq<char> },
    IpcIncomplete,
    Internal(Seq<char>),
    Unknown(Seq<char>),
}

impl View for WorkflowCommand {
    type V = WorkflowCommandView;

    open spec fn view(&self) -> WorkflowCommandView {
        match self {
            WorkflowCommand::Shell(s) => WorkflowCommandView::Shell(s@),
            WorkflowCommand::Script { interpreter, path } => WorkflowCommandView::Script {
                interpreter: interpreter@,
                path: path@,
            },
            WorkflowCommand::Reaper(s) => WorkflowCommandView::Reaper(s@),
            WorkflowCommand::Ipc { socket, message } => WorkflowCommandView::Ipc {
                socket: socket@,
                message: message@,
            },
            WorkflowCommand::IpcIncomplete => WorkflowCommandView::IpcIncomplete,
            WorkflowCommand::Internal(s) => WorkflowCommandView::Internal(s@),
            WorkflowCommand::Unknown(s) => WorkflowCommandView::Unknown(s@),
        }
    }
}

/// `s` split at its first `c`, if it has one.
pub open spec fn split_once(s: Seq<char>, c: char) -> Option<(Seq<char>, Seq<char>)> {
    let i = first_index_of(s, c);
    if i >= 0 {
        Some((s.take(i), s.skip(i + 1)))
    } else {
        None
    }
}

/// The interpreter of a script: by its file extension, `sh` by default.
pub open spec fn interpreter_for(ext: Option<Seq<char>>) -> Seq<char> {
    match ext {
        Some(e) => if e == "lua"@ {
            "lua"@
        } else if e == "py"@ {
            "python3"@
        } else if e == "rb"@ {
            "ruby"@
        } else if e == "js"@ {
            "node"@
        } else {
            "sh"@
        },
        None => "sh"@,
    }
}

/// What a workflow command string runs: `<protocol>:<payload>`, or a shell
/// command when there is no `:`.
pub open spec fn workflow_command_spec(command: Seq<char>) -> WorkflowCommandView {
    let (protocol, payload) = match split_once(command, ':') {
        Some((p, rest)) => (p, rest),
        None => ("sh"@, command),
    };
    if protocol == "sh"@ || protocol.len() == 0 {
        WorkflowCommandView::Shell(payload)
    } else if protocol == "script"@ {
        WorkflowCommandView::Script { interpreter: interpreter_for(path_ext(payload)), path: payload }
    } else if protocol == "reaper"@ {
        WorkflowCommandView::Reaper(payload)
    } else if protocol == "ipc"@ {
        match split_once(payload, ':') {
            Some((a, m)) => WorkflowCommandView::Ipc { socket: a, message: m },
            None => WorkflowCommandView::IpcIncomplete,
        }
    } else if protocol == "internal"@ {
        WorkflowCommandView::Internal(payload)
    } else {
        WorkflowCommandView::Unknown(protocol)
    }
}

/// Splits `s` at its first `c`.
pub fn split_once_char(s: &str, c: char) -> (r: Option<(String, String)>)
    ensures
        match split_once(s@, c) {
            Some((a, b)) => r matches Some((x, y)) && x@ == a && y@ == b,
            None => r is None,
        },
{
    let v = chars_of(s);
    let mut i: usize = 0;
    while i < v.len()
        invariant
            v@ == s@,
            i <= v@.len(),
            forall|j: int| 0 <= j < i ==> v@[j] != c,
        decreases v@.len() - i,
    {
        if v[i] == c {
            proof {
                crate::query::lemma_first_index_of(s@, c);
            }
            let a = string_of_range(v.as_slice(), 0, i);
            let b = string_of_range(v.as_slice(), i + 1, v.len());
            assert(a@ =~= s@.take(i as int));
            assert(b@ =~= s@.skip(i + 1));
            return Some((a, b));
        }
        i = i + 1;
    }
    proof {
        crate::query::lemma_first_index_of(s@, c);
    }
    None
}

/// What a workflow command string runs.
pub fn workflow_command(command: &str) -> (r: WorkflowCommand)
    ensures
        r@ == workflow_command_spec(command@),
{
    let (protocol, payload) = match split_once_char(command, ':') {
        Some(p) => p,
        None => ("sh".to_owned(), command.to_owned()),
    };
    if protocol == "sh".to_owned() || protocol.as_str().is_empty() {
        WorkflowCommand::Shell(payload)
    } else if protocol == "script".to_owned() {
        let ext = path_extension(payload.as_str());
        let interpreter = match ext {
            Some(e) => if e == "lua".to_owned() {
                "lua".to_owned()
            } else if e == "py".to_owned() {
                "python3".to_owned()
            } else if e == "rb".to_owned() {
                "ruby".to_owned()
            } else if e == "js".to_owned() {
                "node".to_owned()
            } else {
                "sh".to_owned()
            },
            None => "sh".to_owned(),
        };
        WorkflowCommand::Script { interpreter, path: payload }
    } else if protocol == "reaper".to_owned() {
        WorkflowCommand::Reaper(payload)
    } else if protocol == "ipc".to_owned() {
        match split_once_char(payload.as_str(), ':') {
            Some((a, m)) => WorkflowCommand::Ipc { socket: a, message: m },
            None => WorkflowCommand::IpcIncomplete,
        }
    } else if protocol == "internal".to_owned() {
        WorkflowCommand::Internal(payload)
    } else {
        WorkflowCommand::Unknown(protocol)
    }
}

/// What activating a workflow item runs, and what happens after.
#[derive(Debug)]
pub struct WorkflowActivation {
    /// The command to run; none if the item has no action.
    pub command: Option<WorkflowCommand>,
    pub result: ActivationResult,
}

/// Activating a workflow item: the action named `action`, else the first
/// one; its command runs; the window stays open if the action says so.
/// An item without actions just closes the window.
pub fn workflow_activation(item: &Item, action: &str) -> (r: WorkflowActivation)
    ensures
        ({
            let acts = item@.actions;
            let i = action_named(acts, action@);
            let k = if i >= 0 { i } else { 0 };
            if acts.len() == 0 {
                r.command is None && r.result == ActivationResult::Close
            } else {
                &&& r.command matches Some(c) && c@ == workflow_command_spec(acts[k].command)
                &&& r.result == if acts[k].keep_open {
                    ActivationResult::KeepOpen
                } else {
                    ActivationResult::Close
                }
            }
        }),
{
    proof {
        lemma_action_named(item@.actions, action@);
    }
    let k = match find_action(item, action) {
        Some(i) => i,
        None => {
            if item.actions.len() == 0 {
                return WorkflowActivation { command: None, result: ActivationResult::Close };
            }
            0
        },
    };
    let a = &item.actions[k];
    let command = workflow_command(a.command.as_str());
    let result = if a.keep_open {
        ActivationResult::KeepOpen
    } else {
        ActivationResult::Close
    };
    WorkflowActivation { command: Some(command), result }
}

/// What an extension command runs, by its first `:`-separated part.
#[derive(Debug, Clone, PartialEq)]
pub enum ExtensionCommand {
    /// `ext:<extension>:<command>`: the extension's own command, only noted.
    Extension,
    /// `sh:<command>`: a shell command.
    Shell(String),
    /// `open:<target>`: opened with the default application.
    Open(String),
    /// `copy:<text>`: copied to the clipboard.
    Copy(String),
    /// Anything else: the whole string as a shell command.
    ShellLine(String),
}

/// The content of an extension command.
pub enum ExtensionCommandView {
    Extension,
    Shell(Seq<char>),
    Open(Seq<char>),
    Copy(Seq<char>),
    ShellLine(Seq<char>),
}

impl View for ExtensionCommand {
    type V = ExtensionCommandView;

    open spec fn view(&self) -> ExtensionCommandView {
        match self {
            ExtensionCommand::Extension => ExtensionCommandView::Extension,
            ExtensionCommand::Shell(s) => ExtensionCommandView::Shell(s@),
            ExtensionCommand::Open(s) => ExtensionCommandView::Open(s@),
            ExtensionCommand::Copy(s) => ExtensionCommandView::Copy(s@),
            ExtensionCommand::ShellLine(s) => ExtensionCommandView::ShellLine(s@),
        }
    }
}

/// The first part of a command string up to `:`, and the second part: up
/// to the next `:` (the rest is not used), or empty if there is none.
pub open spec fn first_two_parts(s: Seq<char>) -> (Seq<char>, Seq<char>) {
    match split_once(s, ':') {
        Some((a, rest)) => (
            a,
            match split_once(rest, ':') {
                Some((b, _)) => b,
                None => rest,
            },
        ),
        None => (s, Seq::empty()),
    }
}

/// What an extension command string runs.
pub open spec fn extension_command_spec(command: Seq<char>) -> ExtensionCommandView {
    let (first, second) = first_two_parts(command);
    if first == "ext"@ {
        ExtensionCommandView::Extension
    } else if first == "sh"@ {
        ExtensionCommandView::Shell(second)
    } else if first == "open"@ {
        ExtensionCommandView::Open(second)
    } else if first == "copy"@ {
        ExtensionCommandView::Copy(second)
    } else {
        ExtensionCommandView::ShellLine(command)
    }
}

/// What an extension command string runs.
pub fn extension_command(command: &str) -> (r: ExtensionCommand)
    ensures
        r@ == extension_command_spec(command@),
{
    let (first, second) = match split_once_char(command, ':') {
        Some((a, rest)) => {
            let b = match split_once_char(rest.as_str(), ':') {
                Some((b, _)) => b,
                None => rest,
            };
            (a, b)
        },
        None => (command.to_owned(), String::new()),
    };
    if first == "ext".to_owned() {
        ExtensionCommand::Extension
    } else if first == "sh".to_owned() {
        ExtensionCommand::Shell(second)
    } else if first == "open".to_owned() {
        ExtensionCommand::Open(second)
    } else if first == "copy".to_owned() {
        ExtensionCommand::Copy(second)
    } else {
        ExtensionCommand::ShellLine(command.to_owned())
    }
}

/// What activating an extension item runs, and what happens after.
#[derive(Debug)]
pub struct ExtensionActivation {
    /// The command to run; none if the action is missing or has no command.
    pub command: Option<ExtensionCommand>,
    pub result: ActivationResult,
}

/// Activating an extension item: the command of the action named `action`
/// runs, and the window stays open if that action says so; with no such
/// action or an empty command, nothing runs and the window closes.
pub fn extension_activation(item: &Item, action: &str) -> (r: ExtensionActivation)
    ensures
        ({
            let acts = item@.actions;
            let i = action_named(acts, action@);
            if i < 0 || acts[i].command.len() == 0 {
                r.command is None && r.result == ActivationResult::Close
            } else {
                &&& r.command matches Some(c) && c@ == extension_command_spec(acts[i].command)
                &&& r.result == if acts[i].keep_open {
                    ActivationResult::KeepOpen
                } else {
                    ActivationResult::Close
                }
            }
        }),
{
    proof {
        lemma_action_named(item@.actions, action@);
    }
    match find_action(item, action) {
        Some(i) => {
            let a = &item.actions[i];
            if a.command.as_str().is_empty() {
                return ExtensionActivation { command: None, result: ActivationResult::Close };
            }
            let command = extension_command(a.command.as_str());
            let result = if a.keep_open {
                ActivationResult::KeepOpen
            } else {
                ActivationResult::Close
            };
            ExtensionActivation { command: Some(command), result }
        },
        None => ExtensionActivation { command: None, result: ActivationResult::Close },
    }
}

} // verus!
