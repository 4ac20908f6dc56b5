//! Trusted boundary to the operating system: terminal handover, group
//! signalling, child reaping, directory changes, and diagnostics output.
//! Each item wraps one outside call; everything around them is verified.

use vstd::prelude::*;
use nix::errno::Errno;
use nix::sys::signal::killpg;
use nix::sys::signal::Signal;
use nix::sys::wait::waitpid;
use nix::sys::wait::WaitPidFlag;
use nix::sys::wait::WaitStatus as WS;
use nix::unistd::chdir;
use nix::unistd::tcgetpgrp;
use nix::unistd::tcsetpgrp;
use nix::unistd::Pid;
use std::io::Write;

verus! {

/// One state change of some child process, as the kernel reports it.
#[derive(Debug, Clone, Copy, PartialEq, Eq, Structural)]
pub enum ChildEvent {
    /// The process exited with the given status.
    Exited(i32, i32),
    /// The process was terminated by the given signal; the flag tells
    /// whether a core was dumped.
    Signaled(i32, i32, bool),
    /// The process was stopped.
    Stopped(i32),
    /// The process was resumed.
    Continued(i32),
    /// No pending state change is left (or there is no child at all).
    Drained,
    /// The wait call failed in a way the shell cannot recover from.
    Broken,
}

/// Relies on `nix::unistd::tcgetpgrp`: the process group that owns the
/// terminal on standard input, or `None` when there is no terminal.
#[verifier::external_body]
pub fn stdin_fg_pgid() -> (r: Option<i32>) {
    match tcgetpgrp(0) {
        Ok(pid) => Some(pid.as_raw()),
        Err(_) => None,
    }
}

/// Relies on `nix::unistd::tcsetpgrp`: makes `pgid` the owning process
/// group of the terminal on standard input; reports success.
#[verifier::external_body]
pub fn set_stdin_fg(pgid: i32) -> (r: bool) {
    tcsetpgrp(0, Pid::from_raw(pgid)).is_ok()
}

/// Relies on `nix::sys::signal::killpg` with `SIGCONT`: resumes every
/// process of the group; reports success.
#[verifier::external_body]
pub fn send_cont(pgid: i32) -> (r: bool) {
    killpg(Pid::from_raw(pgid), Signal::SIGCONT).is_ok()
}

/// Relies on `nix::unistd::chdir`: changes the working directory.
#[verifier::external_body]
pub fn change_dir(path: &str) -> (r: bool) {
    chdir(path).is_ok()
}

/// Relies on `nix::sys::wait::waitpid` over all children, non-blocking,
/// tracing stops and resumptions.  Retries on `EINTR`; ptrace stops count
/// as stops.  The signal of a `Signaled` event is one of the named POSIX
/// signals, whose numbers lie in `1..=64`.
#[verifier::external_body]
pub fn wait_next_event() -> (ev: ChildEvent)
    ensures
        ev matches ChildEvent::Signaled(_, sig, _) ==> 1 <= sig <= 64,
{
    let flags = WaitPidFlag::WUNTRACED | WaitPidFlag::WNOHANG | WaitPidFlag::WCONTINUED;
    loop {
        return match waitpid(Pid::from_raw(-1), Some(flags)) {
            Ok(WS::Exited(p, st)) => ChildEvent::Exited(p.as_raw(), st),
            Ok(WS::Signaled(p, sig, core)) => ChildEvent::Signaled(p.as_raw(), sig as i32, core),
            Ok(WS::Stopped(p, _)) | Ok(WS::PtraceEvent(p, _, _)) | Ok(WS::PtraceSyscall(p)) => ChildEvent::Stopped(p.as_raw()),
            Ok(WS::Continued(p)) => ChildEvent::Continued(p.as_raw()),
            Ok(WS::StillAlive) | Err(Errno::ECHILD) => ChildEvent::Drained,
            Err(Errno::EINTR) => continue,
            Err(_) => ChildEvent::Broken,
        };
    }
}

/// Relies on `std::io::Write` via `writeln` to standard error.
#[verifier::external_body]
pub fn eprint_line(s: &str) {
    let _ = writeln!(std::io::stderr(), "{}", s);
}

/// Relies on `std::io::Write` via `writeln` to standard output.
#[verifier::external_body]
pub fn print_line(s: &str) {
    let _ = writeln!(std::io::stdout(), "{}", s);
}

} // verus!
