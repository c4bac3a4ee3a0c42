//! Control channel between the configuration tool and the daemon.
use vstd::prelude::*;

verus! {

/// A command sent to the daemon.
#[derive(Debug, Clone, Copy, PartialEq, Eq, Structural)]
pub enum IpcCommand {
    Reload,
    Status,
    Quit,
}

/// The daemon's answer to a command.
#[derive(Debug, Clone, PartialEq, Eq)]
pub enum IpcResponse {
    Accepted,
    Status(String),
    Error(String),
}

/// Starts the command server; the pipe is not wired yet, so no command is
/// ever received and the handler is never called.
pub fn start_ipc_server<F>(_on_cmd: F) where F: FnMut(IpcCommand) -> IpcResponse + Send + 'static {
}

/// Sends a reload command to the daemon. The pipe is not wired yet, so this
/// always fails with a message saying so.
pub fn send_reload_command() -> (r: Result<IpcResponse, String>)
    ensures
        r matches Err(m) && m@ == "IPC pipe not wired in this prototype build (tray Reload and file watch still work)"@,
{
    Err("IPC pipe not wired in this prototype build (tray Reload and file watch still work)".to_string())
}

} // verus!
