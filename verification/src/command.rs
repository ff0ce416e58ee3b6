//! The atomic unit handed to an executor: an immutable command string, the
//! contract an executor must meet when it runs one, and a table-backed
//! executor for exercising the dispatcher without a live connection.

use vstd::prelude::*;

use crate::text::str_eq;

verus! {

/// An immutable shell command to run remotely: either a fixed literal or a
/// value assembled per call. Opaque to the executor, which never interprets
/// its contents.
pub enum CommandString {
    Static(&'static str),
    Dynamic(String),
}

impl View for CommandString {
    type V = Seq<char>;

    open spec fn view(&self) -> Seq<char> {
        match self {
            CommandString::Static(s) => s@,
            CommandString::Dynamic(s) => s@,
        }
    }
}

impl CommandString {
    /// The command text itself, independent of which flavor holds it.
    pub fn as_str(&self) -> (r: &str)
        ensures
            r@ == self@,
    {
        match self {
            CommandString::Static(s) => s,
            CommandString::Dynamic(s) => s.as_str(),
        }
    }
}

/// Why one remote command execution failed.
#[derive(Debug, Clone, PartialEq, Eq)]
pub enum ExecutionFailure {
    /// The remote process completed with a non-zero exit code.
    NonZeroExit { command: String, code: u32 },
    /// The channel closed before any exit code was delivered.
    ChannelClosedPrematurely,
    /// The captured output was not valid text.
    Undecodable,
}

/// The mathematical shape of an execution failure.
pub enum ExecutionFailureSpec {
    NonZeroExit { command: Seq<char>, code: u32 },
    ChannelClosedPrematurely,
    Undecodable,
}

impl View for ExecutionFailure {
    type V = ExecutionFailureSpec;

    open spec fn view(&self) -> ExecutionFailureSpec {
        match self {
            ExecutionFailure::NonZeroExit { command, code } => ExecutionFailureSpec::NonZeroExit {
                command: command@,
                code: *code,
            },
            ExecutionFailure::ChannelClosedPrematurely => ExecutionFailureSpec::ChannelClosedPrematurely,
            ExecutionFailure::Undecodable => ExecutionFailureSpec::Undecodable,
        }
    }
}

/// The capability to run one command string on a remote host and collect its
/// captured output, or a typed failure.
///
/// `response` models what running a given command text returns, and `log`
/// the trace of every command issued so far, in order. An implementation
/// promises that `execute` appends exactly one entry to the log, leaves the
/// response model unchanged, and returns exactly what the model says.
pub trait CommandExecutor {
    /// The defaults model an executor whose behavior is unknown: every
    /// command fails and nothing is recorded. A transport implemented
    /// outside the verifier's view may leave them in place; an executor
    /// whose callers reason about it overrides both.
    open spec fn response(&self, command: Seq<char>) -> Result<Seq<char>, ExecutionFailureSpec> {
        Err(ExecutionFailureSpec::ChannelClosedPrematurely)
    }

    open spec fn log(&self) -> Seq<Seq<char>> {
        Seq::empty()
    }

    fn execute(&mut self, command: &str) -> (r: Result<String, ExecutionFailure>)
        ensures
            final(self).log() == old(self).log().push(command@),
            forall|c: Seq<char>| final(self).response(c) == old(self).response(c),
            match old(self).response(command@) {
                Ok(out) => r matches Ok(s) && s@ == out,
                Err(f) => r matches Err(e) && e@ == f,
            },
    ;
}

/// First value in `entries` at or after `i` whose key reads `c`.
pub open spec fn table_lookup_from(
    entries: Seq<(String, String)>,
    c: Seq<char>,
    i: int,
) -> Option<Seq<char>>
    decreases entries.len() - i
    when 0 <= i <= entries.len()
{
    if i >= entries.len() {
        None
    } else if entries[i].0@ == c {
        Some(entries[i].1@)
    } else {
        table_lookup_from(entries, c, i + 1)
    }
}

/// What a table executor answers: the mapped output for a known command, and
/// the failure an unknown command produces on a remote shell for any other.
pub open spec fn table_response(
    entries: Seq<(String, String)>,
    c: Seq<char>,
) -> Result<Seq<char>, ExecutionFailureSpec> {
    match table_lookup_from(entries, c, 0) {
        Some(out) => Ok(out),
        None => Err(ExecutionFailureSpec::NonZeroExit { command: c, code: 127 }),
    }
}

/// An executor backed by a fixed table of command-to-output mappings. It
/// answers each command from the table, fails commands absent from it, and
/// records every command issued, in order.
pub struct TableCommandExecutor {
    entries: Vec<(String, String)>,
    issued: Vec<String>,
}

fn table_get(entries: &Vec<(String, String)>, command: &str, i: usize) -> (r: Option<String>)
    requires
        i <= entries@.len(),
    ensures
        match r {
            Some(s) => table_lookup_from(entries@, command@, i as int) == Some(s@),
            None => table_lookup_from(entries@, command@, i as int) is None,
        },
    decreases entries@.len() - i,
{
    if i >= entries.len() {
        None
    } else if str_eq(entries[i].0.as_str(), command) {
        Some(entries[i].1.clone())
    } else {
        table_get(entries, command, i + 1)
    }
}

impl TableCommandExecutor {
    pub closed spec fn entries_view(self) -> Seq<(String, String)> {
        self.entries@
    }

    pub fn new(entries: Vec<(String, String)>) -> (r: TableCommandExecutor)
        ensures
            r.log() == Seq::<Seq<char>>::empty(),
            r.entries_view() == entries@,
    {
        let r = TableCommandExecutor { entries, issued: Vec::new() };
        proof {
            assert(r.issued.deep_view() =~= Seq::<Seq<char>>::empty());
        }
        r
    }

    /// The commands issued so far, in order.
    pub fn issued_commands(&self) -> (r: &Vec<String>)
        ensures
            r.deep_view() == self.log(),
    {
        &self.issued
    }
}

impl CommandExecutor for TableCommandExecutor {
    closed spec fn response(&self, command: Seq<char>) -> Result<Seq<char>, ExecutionFailureSpec> {
        table_response(self.entries@, command)
    }

    closed spec fn log(&self) -> Seq<Seq<char>> {
        self.issued.deep_view()
    }

    fn execute(&mut self, command: &str) -> (r: Result<String, ExecutionFailure>)
        ensures
            final(self).log() == old(self).log().push(command@),
            forall|c: Seq<char>| final(self).response(c) == old(self).response(c),
            match old(self).response(command@) {
                Ok(out) => r matches Ok(s) && s@ == out,
                Err(f) => r matches Err(e) && e@ == f,
            },
    {
        let ghost prev = self.issued.deep_view();
        self.issued.push(String::from_str(command));
        proof {
            assert(self.issued.deep_view() =~= prev.push(command@));
        }
        match table_get(&self.entries, command, 0) {
            Some(out) => Ok(out),
            None => Err(
                ExecutionFailure::NonZeroExit { command: String::from_str(command), code: 127 },
            ),
        }
    }
}

} // verus!
