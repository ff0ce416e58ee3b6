//! Session metadata, the registry-lookup decision, caller-facing errors,
//! and the decision core of running one command over a live channel:
//! collecting streamed output chunks and deciding on each channel event.

use vstd::prelude::*;
use vstd::utf8::{decode_utf8, valid_utf8};

use rand::Rng;

use crate::command::ExecutionFailure;

verus! {

// ---------------------------------------------------------------------------
// Hosts and session metadata
// ---------------------------------------------------------------------------

/// A remote endpoint: host address and port.
#[derive(Debug, Clone, PartialEq, Eq)]
pub struct Host {
    pub address: String,
    pub port: u16,
}

impl Host {
    pub fn new(address: String, port: u16) -> (r: Host)
        ensures
            r.address@ == address@,
            r.port == port,
    {
        Host { address, port }
    }

    /// The endpoint as a plain pair.
    pub fn into_pair(self) -> (r: (String, u16))
        ensures
            r.0@ == self.address@,
            r.1 == self.port,
    {
        (self.address, self.port)
    }
}

/// What a caller sends to open a session: endpoint and credentials.
pub struct SessionStartRequest {
    pub host: Host,
    pub user: String,
    pub password: String,
}

/// Relies on rand's `thread_rng().gen()`: a machine-word value drawn from
/// the thread-local generator. Nothing is promised of the value.
#[verifier::external_body]
fn random_id() -> usize {
    rand::thread_rng().gen()
}

/// One live session's metadata: numeric identifier, remote user, endpoint.
/// The identifier is assigned at creation and immutable thereafter.
#[derive(Debug)]
pub struct SessionInfo {
    pub id: usize,
    pub user: String,
    pub addrs: (String, u16),
}

impl SessionInfo {
    /// Fresh metadata under a randomly drawn identifier.
    pub fn new(user: String, addrs: (String, u16)) -> (r: SessionInfo)
        ensures
            r.user@ == user@,
            r.addrs.0@ == addrs.0@,
            r.addrs.1 == addrs.1,
    {
        SessionInfo { id: random_id(), user, addrs }
    }
}

// ---------------------------------------------------------------------------
// Registry lookup
// ---------------------------------------------------------------------------

/// Find a session identifier among the identifiers of the live sessions:
/// the first position holding it, or nothing when it is absent.
pub fn find_session_index(ids: &Vec<usize>, id: usize) -> (r: Option<usize>)
    ensures
        match r {
            Some(i) => i < ids@.len() && ids@[i as int] == id && forall|j: int|
                0 <= j < i ==> ids@[j] != id,
            None => forall|j: int| 0 <= j < ids@.len() ==> ids@[j] != id,
        },
{
    let mut i: usize = 0;
    while i < ids.len()
        invariant
            0 <= i <= ids@.len(),
            forall|j: int| 0 <= j < i ==> ids@[j] != id,
        decreases ids@.len() - i,
    {
        if ids[i] == id {
            return Some(i);
        }
        i = i + 1;
    }
    None
}

/// An error reported to the caller of a request, as one human-readable
/// message.
#[derive(Debug, Clone, PartialEq, Eq)]
pub struct CmdError {
    pub message: String,
}

impl CmdError {
    /// The error a request against an unknown session identifier yields:
    /// the request fails cleanly instead of panicking or hanging.
    pub fn session_not_found() -> (r: CmdError)
        ensures
            r.message@ == "session not found"@,
    {
        CmdError { message: String::from_str("session not found") }
    }
}

/// The decision on a registry lookup: a found index passes through, an
/// absent session identifier yields the "session not found" error.
pub fn require_session(found: Option<usize>) -> (r: Result<usize, CmdError>)
    ensures
        match found {
            Some(i) => r matches Ok(k) && k == i,
            None => r matches Err(e) && e.message@ == "session not found"@,
        },
{
    match found {
        Some(i) => Ok(i),
        None => Err(CmdError::session_not_found()),
    }
}

// ---------------------------------------------------------------------------
// Channel-event collection
// ---------------------------------------------------------------------------

/// One event observed on a remote execution channel.
pub enum ChannelEvent {
    /// A chunk of output bytes arrived.
    Data(Vec<u8>),
    /// The remote process completed with this exit code.
    ExitStatus(u32),
    /// The channel closed without delivering an exit code.
    Closed,
    /// Any other channel message: informational noise, not a failure.
    Other,
}

/// Relies on String::from_utf8: decodes the bytes as UTF-8 text exactly
/// when they are valid UTF-8, and rejects them otherwise.
#[verifier::external_body]
fn bytes_to_text(bytes: &Vec<u8>) -> (r: Option<String>)
    ensures
        match r {
            Some(s) => valid_utf8(bytes@) && s@ == decode_utf8(bytes@),
            None => !valid_utf8(bytes@),
        },
{
    String::from_utf8(bytes.clone()).ok()
}

/// Collects the streamed output of one remote command and decides on each
/// channel event; the decision core of an executor over a live channel.
/// Output chunks accumulate in arrival order; only an exit code of zero
/// completes successfully, with all chunks concatenated and decoded.
pub struct OutputCollector {
    command: String,
    buffer: Vec<u8>,
}

impl OutputCollector {
    /// The command whose output is being collected.
    pub closed spec fn command_text(self) -> Seq<char> {
        self.command@
    }

    /// Every output byte received so far, in arrival order.
    pub closed spec fn buffered(self) -> Seq<u8> {
        self.buffer@
    }

    pub fn new(command: String) -> (r: OutputCollector)
        ensures
            r.command_text() == command@,
            r.buffered() == Seq::<u8>::empty(),
    {
        OutputCollector { command, buffer: Vec::new() }
    }

    /// Decide on one channel event. Data extends the buffer in arrival
    /// order and noise changes nothing; neither completes the command. A
    /// zero exit code completes with the decoded output, or `Undecodable`;
    /// a non-zero code completes with `NonZeroExit` carrying the command
    /// and the code; a close without an exit code completes with
    /// `ChannelClosedPrematurely`.
    pub fn on_event(&mut self, event: ChannelEvent) -> (r: Option<
        Result<String, ExecutionFailure>,
    >)
        ensures
            final(self).command_text() == old(self).command_text(),
            match event {
                ChannelEvent::Data(d) => r is None && final(self).buffered() == old(
                    self,
                ).buffered() + d@,
                ChannelEvent::Other => r is None && final(self).buffered() == old(
                    self,
                ).buffered(),
                ChannelEvent::Closed => r matches Some(Err(e)) && e@
                    == crate::command::ExecutionFailureSpec::ChannelClosedPrematurely,
                ChannelEvent::ExitStatus(code) => if code == 0 {
                    if valid_utf8(old(self).buffered()) {
                        r matches Some(Ok(s)) && s@ == decode_utf8(old(self).buffered())
                    } else {
                        r matches Some(Err(e)) && e@
                            == crate::command::ExecutionFailureSpec::Undecodable
                    }
                } else {
                    r matches Some(Err(e)) && e@
                        == (crate::command::ExecutionFailureSpec::NonZeroExit {
                        command: old(self).command_text(),
                        code,
                    })
                },
            },
    {
        match event {
            ChannelEvent::Data(d) => {
                let mut chunk = d;
                self.buffer.append(&mut chunk);
                None
            },
            ChannelEvent::Other => None,
            ChannelEvent::Closed => Some(Err(ExecutionFailure::ChannelClosedPrematurely)),
            ChannelEvent::ExitStatus(code) => {
                if code != 0 {
                    Some(
                        Err(
                            ExecutionFailure::NonZeroExit {
                                command: self.command.clone(),
                                code,
                            },
                        ),
                    )
                } else {
                    match bytes_to_text(&self.buffer) {
                        Some(s) => Some(Ok(s)),
                        None => Some(Err(ExecutionFailure::Undecodable)),
                    }
                }
            },
        }
    }
}

} // verus!
