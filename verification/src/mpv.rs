//! Starting mpv and waiting for it: the arguments it is started with, and
//! the decisions taken while it starts and while its window is looked for.
use vstd::prelude::*;

use crate::text::{joined, views};

verus! {

/// The ways starting mpv can fail.
#[derive(Debug)]
pub enum Error {
    /// mpv could not be started; the text describes the system error.
    SpawnFailed(String),
    /// mpv exited before its pipe server came up.
    Exited,
    StartupTimedOut,
}

/// The mpv option that names the pipe it serves commands on.
pub const IPC_SERVER_OPTION_PREFIX: &'static str = "--input-ipc-server=";

/// The arguments mpv is started with: its pipe, the end-of-options marker,
/// and the file.
pub open spec fn spec_launch_arguments(pipe_path: Seq<char>, file: Seq<char>) -> Seq<Seq<char>> {
    seq![IPC_SERVER_OPTION_PREFIX@ + pipe_path, "--"@, file]
}

/// The arguments that start mpv with its pipe server on `pipe_path` and
/// `file` to play; the file follows `--`, so mpv never reads it as an
/// option.
pub fn launch_arguments(pipe_path: &str, file: &str) -> (arguments: Vec<String>)
    ensures
        views(arguments@) == spec_launch_arguments(pipe_path@, file@),
{
    let mut arguments: Vec<String> = Vec::new();
    arguments.push(joined(IPC_SERVER_OPTION_PREFIX, pipe_path));
    arguments.push("--".to_owned());
    arguments.push(file.to_owned());
    assert(views(arguments@) =~= spec_launch_arguments(pipe_path@, file@));
    arguments
}

/// What to do while waiting for a started mpv to open its pipe.
#[derive(Debug)]
pub enum WaitStep {
    Ready,
    Fail(Error),
    /// Sleep a moment and look again.
    Poll,
}

/// The next step while waiting for mpv: ready once its pipe server exists;
/// failed when mpv has exited, or else when the deadline has passed;
/// otherwise poll again.
pub open spec fn spec_wait_for_ipc_server(server_exists: bool, exited: bool, timed_out: bool) -> WaitStep {
    if server_exists {
        WaitStep::Ready
    } else if exited {
        WaitStep::Fail(Error::Exited)
    } else if timed_out {
        WaitStep::Fail(Error::StartupTimedOut)
    } else {
        WaitStep::Poll
    }
}

/// The next step while waiting for a started mpv to open its pipe.
pub fn wait_for_ipc_server(server_exists: bool, exited: bool, timed_out: bool) -> (step: WaitStep)
    ensures
        step == spec_wait_for_ipc_server(server_exists, exited, timed_out),
{
    if server_exists {
        WaitStep::Ready
    } else if exited {
        WaitStep::Fail(Error::Exited)
    } else if timed_out {
        WaitStep::Fail(Error::StartupTimedOut)
    } else {
        WaitStep::Poll
    }
}

/// What to do with the next mpv window in the search for the window of a
/// process.
#[derive(PartialEq, Eq, Structural, Clone, Copy, Debug)]
pub enum FindStep {
    Found,
    /// There are no more mpv windows.
    NotFound,
    Next,
}

/// The next step of the window search: `window_pid` is the process id that
/// owns the next mpv window, or `None` when there is no next window.
pub open spec fn spec_find_window(window_pid: Option<u32>, pid: u32) -> FindStep {
    match window_pid {
        None => FindStep::NotFound,
        Some(w) => if w == pid {
            FindStep::Found
        } else {
            FindStep::Next
        },
    }
}

/// The next step of the window search.
pub fn find_window(window_pid: Option<u32>, pid: u32) -> (step: FindStep)
    ensures
        step == spec_find_window(window_pid, pid),
{
    match window_pid {
        None => FindStep::NotFound,
        Some(w) => if w == pid {
            FindStep::Found
        } else {
            FindStep::Next
        },
    }
}

/// What to do with the window of an mpv process to bring it forward.
#[derive(PartialEq, Eq, Structural, Clone, Copy, Debug)]
pub enum ActivateStep {
    /// The process has no mpv window.
    NoWindow,
    /// Bring the window to the front.
    Focus,
    /// Restore the minimized window, then bring it to the front.
    RestoreAndFocus,
}

/// How to bring the mpv window forward: `window_minimized` is whether the
/// process's window is minimized, or `None` when it has no window.
pub open spec fn spec_activate_window(window_minimized: Option<bool>) -> ActivateStep {
    match window_minimized {
        None => ActivateStep::NoWindow,
        Some(true) => ActivateStep::RestoreAndFocus,
        Some(false) => ActivateStep::Focus,
    }
}

/// How to bring the mpv window forward.
pub fn activate_window(window_minimized: Option<bool>) -> (step: ActivateStep)
    ensures
        step == spec_activate_window(window_minimized),
{
    match window_minimized {
        None => ActivateStep::NoWindow,
        Some(true) => ActivateStep::RestoreAndFocus,
        Some(false) => ActivateStep::Focus,
    }
}

/// mpv is started with exactly three arguments: `--input-ipc-server=`
/// followed by the pipe path, then `--`, then the file itself, unchanged.
pub proof fn lemma_launch_arguments_layout(pipe_path: Seq<char>, file: Seq<char>)
    ensures
        spec_launch_arguments(pipe_path, file).len() == 3,
        spec_launch_arguments(pipe_path, file)[0] == seq![
            '-',
            '-',
            'i',
            'n',
            'p',
            'u',
            't',
            '-',
            'i',
            'p',
            'c',
            '-',
            's',
            'e',
            'r',
            'v',
            'e',
            'r',
            '=',
        ] + pipe_path,
        spec_launch_arguments(pipe_path, file)[1] == seq!['-', '-'],
        spec_launch_arguments(pipe_path, file)[2] == file,
{
    reveal_strlit("--input-ipc-server=");
    reveal_strlit("--");
    assert(IPC_SERVER_OPTION_PREFIX@ =~= seq![
        '-',
        '-',
        'i',
        'n',
        'p',
        'u',
        't',
        '-',
        'i',
        'p',
        'c',
        '-',
        's',
        'e',
        'r',
        'v',
        'e',
        'r',
        '=',
    ]);
    assert("--"@ =~= seq!['-', '-']);
}

/// Waiting for mpv: its pipe server takes precedence over everything else;
/// an exited mpv fails the wait before the deadline is looked at; only
/// while mpv runs without a pipe and the deadline has not passed does the
/// wait go on.
pub proof fn lemma_wait_cases(server_exists: bool, exited: bool, timed_out: bool)
    ensures
        server_exists ==> spec_wait_for_ipc_server(server_exists, exited, timed_out) is Ready,
        !server_exists && exited ==> (spec_wait_for_ipc_server(server_exists, exited, timed_out) matches WaitStep::Fail(Error::Exited)),
        !server_exists && !exited && timed_out ==> (spec_wait_for_ipc_server(
            server_exists,
            exited,
            timed_out,
        ) matches WaitStep::Fail(Error::StartupTimedOut)),
        (spec_wait_for_ipc_server(server_exists, exited, timed_out) is Poll) == (!server_exists
            && !exited && !timed_out),
{
}

/// The window search stops at the first mpv window owned by the process,
/// goes on past windows of other processes, and gives up when there are no
/// more windows.
pub proof fn lemma_find_window_cases(window_pid: Option<u32>, pid: u32)
    ensures
        (spec_find_window(window_pid, pid) == FindStep::Found) == (window_pid == Some(pid)),
        (spec_find_window(window_pid, pid) == FindStep::NotFound) == (window_pid is None),
{
}

/// A window is restored first exactly when it is minimized, and brought to
/// the front whenever there is one.
pub proof fn lemma_activate_window_cases(window_minimized: Option<bool>)
    ensures
        (spec_activate_window(window_minimized) == ActivateStep::RestoreAndFocus) == (
        window_minimized == Some(true)),
        (spec_activate_window(window_minimized) == ActivateStep::NoWindow) == (
        window_minimized is None),
{
}

} // verus!
