//! Adaptive remote-command abstraction: a transport-agnostic contract for
//! running a command on a remote host, a dispatcher that selects the first
//! applicable tool-specific implementation for a requested fact, and the
//! parsers that turn raw tool output into typed interface records.

pub mod command;
pub mod dispatch;
pub mod interface;
pub mod ip;
pub mod mac;
pub mod session;
pub mod text;

pub use command::{CommandExecutor, CommandString, ExecutionFailure, TableCommandExecutor};
pub use dispatch::{
    resolve_and_run, ConcreteCommand, DispatchFailure, FactKind, ListInterfaces, VirtualCommand,
};
pub use interface::{Interface, ParseFailure, ParseReason};
pub use ip::{IpAddress, V4Addr, V6Addr, CIDR};
pub use mac::MAC;
pub use session::{
    find_session_index, require_session, ChannelEvent, CmdError, Host, OutputCollector,
    SessionInfo, SessionStartRequest,
};
