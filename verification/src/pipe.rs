//! The named pipe through which umpv hands files to a running mpv: its
//! path, how a failed connection attempt is read, and the command text that
//! is written to it.
use vstd::prelude::*;

use crate::text::{
    chars_of, decimal, decimal_string, encode_wide, lemma_decimal_injective, push_char, utf16,
};

verus! {

/// The ways handing a file to a running mpv can fail.
#[derive(PartialEq, Eq, Structural, Clone, Copy, Debug)]
pub enum Error {
    /// No mpv listens on the pipe.
    NoServer,
    ConnectFailed,
    WriteFailed,
}

/// Windows error code: the pipe does not exist.
pub const ERROR_FILE_NOT_FOUND: u32 = 2;

/// Windows error code: every instance of the pipe is busy.
pub const ERROR_PIPE_BUSY: u32 = 231;

/// Windows error code: a wait timed out.
pub const ERROR_SEM_TIMEOUT: u32 = 121;

/// The pipe path up to the session id.
pub const PIPE_PATH_PREFIX: &'static str = "\\\\.\\pipe\\umpv-";

/// The pipe path of a Windows session.
pub open spec fn spec_path(session_id: u32) -> Seq<char> {
    PIPE_PATH_PREFIX@ + decimal(session_id as nat)
}

/// The path of the pipe that the mpv of this session listens on.
pub fn path(session_id: u32) -> (p: String)
    ensures
        p@ == spec_path(session_id),
{
    let mut p = PIPE_PATH_PREFIX.to_owned();
    p.append(decimal_string(session_id as u64).as_str());
    p
}

/// The pipe path as a zero-terminated UTF-16 string.
pub fn path_wide(session_id: u32) -> (p: Vec<u16>)
    ensures
        p@ == utf16(spec_path(session_id)).push(0u16),
{
    encode_wide(path(session_id).as_str())
}

/// A raw OS error code, read as the unsigned Windows error code.
pub open spec fn spec_error_code(raw: Option<i32>) -> Option<u32> {
    match raw {
        Some(r) => Some((if r >= 0 { r as int } else { r + 0x1_0000_0000 }) as u32),
        None => None,
    }
}

/// The Windows error code of a raw OS error code (same bits, unsigned).
pub fn error_code(raw: Option<i32>) -> (code: Option<u32>)
    ensures
        code == spec_error_code(raw),
{
    match raw {
        Some(r) => {
            if r >= 0 {
                Some(r as u32)
            } else {
                Some((r as i64 + 0x1_0000_0000i64) as u32)
            }
        },
        None => None,
    }
}

/// An mpv pipe server exists when a non-waiting wait on the pipe
/// succeeded, or failed only because every instance is busy (the wait timed
/// out).
pub open spec fn spec_server_exists(wait_succeeded: bool, last_error: Option<u32>) -> bool {
    wait_succeeded || last_error == Some(ERROR_SEM_TIMEOUT)
}

/// Whether an mpv pipe server exists, from a non-waiting wait on the pipe.
pub fn server_exists(wait_succeeded: bool, last_error: Option<u32>) -> (r: bool)
    ensures
        r == spec_server_exists(wait_succeeded, last_error),
{
    if wait_succeeded {
        return true;
    }
    match last_error {
        Some(code) => code == ERROR_SEM_TIMEOUT,
        None => false,
    }
}

/// What to do after one attempt to open the pipe.
#[derive(PartialEq, Eq, Structural, Clone, Copy, Debug)]
pub enum ConnectStep {
    Connected,
    /// Wait for a free pipe instance, then try again.
    Retry,
    Fail(Error),
}

/// The next step after an attempt to open the pipe: connected when it
/// succeeded; no server when the pipe does not exist; try again when every
/// instance is busy and the deadline has not passed; otherwise failed.
pub open spec fn spec_connect(attempt: Result<(), Option<u32>>, timed_out: bool) -> ConnectStep {
    match attempt {
        Ok(()) => ConnectStep::Connected,
        Err(code) => if code == Some(ERROR_FILE_NOT_FOUND) {
            ConnectStep::Fail(Error::NoServer)
        } else if code == Some(ERROR_PIPE_BUSY) && !timed_out {
            ConnectStep::Retry
        } else {
            ConnectStep::Fail(Error::ConnectFailed)
        },
    }
}

/// The next step after an attempt to open the pipe, which either succeeded
/// or failed with an error code; `timed_out` says whether the connection
/// deadline has passed.
pub fn connect(attempt: Result<(), Option<u32>>, timed_out: bool) -> (step: ConnectStep)
    ensures
        step == spec_connect(attempt, timed_out),
{
    match attempt {
        Ok(()) => ConnectStep::Connected,
        Err(Some(code)) => {
            if code == ERROR_FILE_NOT_FOUND {
                ConnectStep::Fail(Error::NoServer)
            } else if code == ERROR_PIPE_BUSY && !timed_out {
                ConnectStep::Retry
            } else {
                ConnectStep::Fail(Error::ConnectFailed)
            }
        },
        Err(None) => ConnectStep::Fail(Error::ConnectFailed),
    }
}

/// The escaped form of one character inside a quoted mpv argument.
pub open spec fn escape_char(c: char) -> Seq<char> {
    if c == '\\' {
        seq!['\\', '\\']
    } else if c == '"' {
        seq!['\\', '"']
    } else if c == '\n' {
        seq!['\\', 'n']
    } else {
        seq![c]
    }
}

/// The escaped form of a text inside a quoted mpv argument: backslashes,
/// double quotes and newlines are escaped with a backslash.
pub open spec fn escape(s: Seq<char>) -> Seq<char>
    decreases s.len(),
{
    if s.len() == 0 {
        Seq::empty()
    } else {
        escape_char(s[0]) + escape(s.drop_first())
    }
}

/// The character that a backslash escape stands for, for the escapes mpv
/// reads as themselves or as a newline; other escapes (such as `\t`, read
/// as a tab) are not among them.
pub open spec fn unescape_char(c: char) -> Option<char> {
    if c == 'n' {
        Some('\n')
    } else if c == '\\' || c == '"' {
        Some(c)
    } else {
        None
    }
}

/// How mpv reads a quoted argument whose opening quote has been consumed:
/// the text up to the first unescaped double quote, and what follows that
/// quote; `None` when the quote is never closed or an escape other than
/// `\\`, `\"` and `\n` occurs.
pub open spec fn read_quoted(s: Seq<char>) -> Option<(Seq<char>, Seq<char>)>
    decreases s.len(),
{
    if s.len() == 0 {
        None
    } else if s[0] == '"' {
        Some((Seq::empty(), s.drop_first()))
    } else if s[0] == '\\' {
        if s.len() < 2 {
            None
        } else {
            match (unescape_char(s[1]), read_quoted(s.skip(2))) {
                (Some(c), Some((text, rest))) => Some((seq![c] + text, rest)),
                _ => None,
            }
        }
    } else {
        match read_quoted(s.drop_first()) {
            Some((text, rest)) => Some((seq![s[0]] + text, rest)),
            None => None,
        }
    }
}

/// The command that tells mpv to load `file` with the given flags.
pub open spec fn spec_loadfile_command(file: Seq<char>, loadfile_flags: Seq<char>) -> Seq<char> {
    "raw loadfile \""@ + escape(file) + "\" "@ + loadfile_flags + "\n"@
}

/// Escaping distributes over concatenation.
pub proof fn lemma_escape_append(a: Seq<char>, b: Seq<char>)
    ensures
        escape(a + b) == escape(a) + escape(b),
    decreases a.len(),
{
    if a.len() == 0 {
        assert(a + b =~= b);
    } else {
        assert((a + b).drop_first() =~= a.drop_first() + b);
        lemma_escape_append(a.drop_first(), b);
        assert(escape(a + b) =~= escape_char(a[0]) + (escape(a.drop_first()) + escape(b)));
    }
}

/// The escaped text holds no newline.
pub proof fn lemma_escape_has_no_newline(s: Seq<char>)
    ensures
        forall|i: int| 0 <= i < escape(s).len() ==> escape(s)[i] != '\n',
    decreases s.len(),
{
    if s.len() > 0 {
        lemma_escape_has_no_newline(s.drop_first());
        let e = escape_char(s[0]);
        let r = escape(s.drop_first());
        assert forall|i: int| 0 <= i < escape(s).len() implies escape(s)[i] != '\n' by {
            assert(escape(s) == e + r);
            if i >= e.len() {
                assert(escape(s)[i] == r[i - e.len()]);
            }
        }
    }
}

/// mpv reads back exactly the escaped text, up to the closing quote, and
/// leaves what follows the quote.
pub proof fn lemma_read_quoted_escape(file: Seq<char>, rest: Seq<char>)
    ensures
        read_quoted(escape(file) + seq!['"'] + rest) == Some((file, rest)),
    decreases file.len(),
{
    let s = escape(file) + seq!['"'] + rest;
    if file.len() == 0 {
        assert(s =~= seq!['"'] + rest);
        assert(s.drop_first() =~= rest);
    } else {
        let c = file[0];
        let tail = file.drop_first();
        lemma_read_quoted_escape(tail, rest);
        let t = escape(tail) + seq!['"'] + rest;
        assert(s =~= escape_char(c) + t);
        if c == '\\' || c == '"' || c == '\n' {
            assert(s.skip(2) =~= t);
            assert(seq![unescape_char(s[1])->0] + tail =~= file);
        } else {
            assert(s.drop_first() =~= t);
            assert(seq![c] + tail =~= file);
        }
    }
}

/// The escaped form of `file`.
fn escaped(file: &str) -> (e: String)
    ensures
        e@ == escape(file@),
{
    let chars = chars_of(file);
    let mut e = String::new();
    let mut i: usize = 0;
    while i < chars.len()
        invariant
            chars@ == file@,
            i <= chars@.len(),
            e@ == escape(file@.take(i as int)),
        decreases chars@.len() - i,
    {
        let c = chars[i];
        proof {
            assert(file@.take(i + 1) =~= file@.take(i as int) + seq![c]);
            lemma_escape_append(file@.take(i as int), seq![c]);
            assert(escape(seq![c]) =~= escape_char(c)) by {
                assert(seq![c].drop_first() =~= Seq::<char>::empty());
                assert(escape(Seq::<char>::empty()) =~= Seq::<char>::empty());
                assert(escape_char(c) + Seq::<char>::empty() =~= escape_char(c));
            }
        }
        if c == '\\' {
            push_char(&mut e, '\\');
            push_char(&mut e, '\\');
        } else if c == '"' {
            push_char(&mut e, '\\');
            push_char(&mut e, '"');
        } else if c == '\n' {
            push_char(&mut e, '\\');
            push_char(&mut e, 'n');
        } else {
            push_char(&mut e, c);
        }
        assert(e@ =~= escape(file@.take((i + 1) as int)));
        i = i + 1;
    }
    assert(file@.take(chars@.len() as int) =~= file@);
    e
}

/// The command that tells mpv to load `file` with the given loadfile flags.
pub fn loadfile_command(file: &str, loadfile_flags: &str) -> (command: String)
    ensures
        command@ == spec_loadfile_command(file@, loadfile_flags@),
{
    let mut command = "raw loadfile \"".to_owned();
    command.append(escaped(file).as_str());
    command.append("\" ");
    command.append(loadfile_flags);
    command.append("\n");
    command
}

/// The outcome of handing a file to mpv, once connected: the server's pid
/// (when known) if the command was written, a write failure otherwise.
pub open spec fn spec_send_file(server_pid: Option<u32>, written: bool) -> Result<Option<u32>, Error> {
    if written {
        Ok(server_pid)
    } else {
        Err(Error::WriteFailed)
    }
}

/// The outcome of handing a file to mpv, once connected: the pid of the
/// mpv that owns the pipe (when it could be read), unless the write failed.
pub fn send_file(server_pid: Option<u32>, written: bool) -> (r: Result<Option<u32>, Error>)
    ensures
        r == spec_send_file(server_pid, written),
{
    if written {
        Ok(server_pid)
    } else {
        Err(Error::WriteFailed)
    }
}

/// Each session has its own pipe: distinct session ids give distinct pipe
/// paths.
pub proof fn lemma_path_per_session(a: u32, b: u32)
    requires
        spec_path(a) == spec_path(b),
    ensures
        a == b,
{
    let prefix = PIPE_PATH_PREFIX@;
    assert(spec_path(a).skip(prefix.len() as int) =~= decimal(a as nat));
    assert(spec_path(b).skip(prefix.len() as int) =~= decimal(b as nat));
    lemma_decimal_injective(a as nat, b as nat);
}

/// mpv reads the loadfile command back as the file that was sent: after
/// `raw loadfile "`, the quoted argument is exactly `file`, followed by a
/// space and the flags. The command is one line, ended by its only
/// newline, when the flags hold no newline.
pub proof fn lemma_loadfile_command_round_trip(file: Seq<char>, loadfile_flags: Seq<char>)
    requires
        forall|i: int| 0 <= i < loadfile_flags.len() ==> loadfile_flags[i] != '\n',
    ensures
        read_quoted(spec_loadfile_command(file, loadfile_flags).skip(14)) == Some(
            (file, seq![' '] + loadfile_flags + seq!['\n']),
        ),
        spec_loadfile_command(file, loadfile_flags).last() == '\n',
        forall|i: int|
            0 <= i < spec_loadfile_command(file, loadfile_flags).len() - 1
                ==> spec_loadfile_command(file, loadfile_flags)[i] != '\n',
{
    reveal_strlit("raw loadfile \"");
    reveal_strlit("\" ");
    reveal_strlit("\n");
    let command = spec_loadfile_command(file, loadfile_flags);
    let head = "raw loadfile \""@;
    let rest = seq![' '] + loadfile_flags + seq!['\n'];
    assert(command.skip(14) =~= escape(file) + seq!['"'] + rest);
    lemma_read_quoted_escape(file, rest);
    lemma_escape_has_no_newline(file);
    let e = escape(file);
    assert forall|i: int| 0 <= i < command.len() - 1 implies command[i] != '\n' by {
        if i < 14 {
            assert(command[i] == head[i]);
        } else if i < 14 + e.len() {
            assert(command[i] == e[i - 14]);
        } else if i < 16 + e.len() {
        } else {
            assert(command[i] == loadfile_flags[i - 16 - e.len()]);
        }
    }
}

/// Only backslashes, double quotes and newlines are escaped, each by a
/// backslash followed by the character itself or, for a newline, by `n`;
/// every other character is kept as it is.
pub proof fn lemma_escape_char_cases(c: char)
    ensures
        c == '\\' ==> escape_char(c) == seq!['\\', '\\'],
        c == '"' ==> escape_char(c) == seq!['\\', '"'],
        c == '\n' ==> escape_char(c) == seq!['\\', 'n'],
        c != '\\' && c != '"' && c != '\n' ==> escape_char(c) == seq![c],
{
}

/// A text without backslashes, double quotes or newlines is sent as it is.
pub proof fn lemma_escape_keeps_plain_text(s: Seq<char>)
    requires
        forall|i: int| 0 <= i < s.len() ==> s[i] != '\\' && s[i] != '"' && s[i] != '\n',
    ensures
        escape(s) == s,
    decreases s.len(),
{
    if s.len() > 0 {
        let t = s.drop_first();
        assert forall|i: int| 0 <= i < t.len() implies t[i] != '\\' && t[i] != '"' && t[i] != '\n' by {
            assert(t[i] == s[i + 1]);
        }
        lemma_escape_keeps_plain_text(t);
        assert(seq![s[0]] + t =~= s);
    }
}

/// The loadfile command begins with `raw loadfile "`, then the escaped
/// file, a closing quote, a space, the flags and a newline.
pub proof fn lemma_loadfile_command_layout(file: Seq<char>, loadfile_flags: Seq<char>)
    ensures
        spec_loadfile_command(file, loadfile_flags) == seq![
            'r',
            'a',
            'w',
            ' ',
            'l',
            'o',
            'a',
            'd',
            'f',
            'i',
            'l',
            'e',
            ' ',
            '"',
        ] + escape(file) + seq!['"', ' '] + loadfile_flags + seq!['\n'],
{
    reveal_strlit("raw loadfile \"");
    reveal_strlit("\" ");
    reveal_strlit("\n");
    assert("raw loadfile \""@ =~= seq!['r', 'a', 'w', ' ', 'l', 'o', 'a', 'd', 'f', 'i', 'l', 'e', ' ', '"']);
    assert("\" "@ =~= seq!['"', ' ']);
    assert("\n"@ =~= seq!['\n']);
}

/// The Windows error codes umpv reads: the pipe does not exist (2), every
/// pipe instance is busy (231), a wait timed out (121).
pub proof fn lemma_windows_error_codes()
    ensures
        ERROR_FILE_NOT_FOUND == 2,
        ERROR_PIPE_BUSY == 231,
        ERROR_SEM_TIMEOUT == 121,
{
}

/// The pipe of a session is `\\.\pipe\umpv-` followed by the session id
/// in decimal.
pub proof fn lemma_path_layout(session_id: u32)
    ensures
        spec_path(session_id) == seq!['\\', '\\', '.', '\\', 'p', 'i', 'p', 'e', '\\', 'u', 'm', 'p', 'v', '-']
            + decimal(session_id as nat),
{
    reveal_strlit("\\\\.\\pipe\\umpv-");
    assert(PIPE_PATH_PREFIX@ =~= seq!['\\', '\\', '.', '\\', 'p', 'i', 'p', 'e', '\\', 'u', 'm', 'p', 'v', '-']);
}

/// A raw OS error code is read with the same 32 bits: unchanged when it is
/// not negative, and 2^32 above it when it is.
pub proof fn lemma_error_code_bits(raw: i32)
    ensures
        raw >= 0 ==> spec_error_code(Some(raw)) == Some(raw as u32) && raw as u32 == raw,
        raw < 0 ==> (spec_error_code(Some(raw)) matches Some(code) && code as int == raw + 0x1_0000_0000),
        spec_error_code(None) == None::<u32>,
{
}

/// A pipe server exists exactly when the wait succeeded or timed out
/// (error 121) because every instance is busy.
pub proof fn lemma_server_exists_cases(wait_succeeded: bool, last_error: Option<u32>)
    ensures
        spec_server_exists(wait_succeeded, last_error) == (wait_succeeded || last_error == Some(
            121u32,
        )),
{
}

/// Connecting: an open pipe is connected; a missing pipe (error 2) means no
/// mpv is running; busy instances (error 231) are waited for until the
/// deadline, and then, like any other error, the connection fails.
pub proof fn lemma_connect_cases(attempt: Result<(), Option<u32>>, timed_out: bool)
    ensures
        attempt is Ok ==> spec_connect(attempt, timed_out) == ConnectStep::Connected,
        attempt == Err::<(), Option<u32>>(Some(2u32)) ==> spec_connect(attempt, timed_out)
            == ConnectStep::Fail(Error::NoServer),
        attempt == Err::<(), Option<u32>>(Some(231u32)) ==> spec_connect(attempt, timed_out) == (
        if timed_out {
            ConnectStep::Fail(Error::ConnectFailed)
        } else {
            ConnectStep::Retry
        }),
        (attempt matches Err(code) && code != Some(2u32) && code != Some(231u32)) ==> spec_connect(
            attempt,
            timed_out,
        ) == ConnectStep::Fail(Error::ConnectFailed),
{
}

/// Once connected, the outcome is the server's pid when the command was
/// written, and a write failure otherwise.
pub proof fn lemma_send_file_cases(server_pid: Option<u32>, written: bool)
    ensures
        written ==> spec_send_file(server_pid, written) == Ok::<Option<u32>, Error>(server_pid),
        !written ==> spec_send_file(server_pid, written) == Err::<Option<u32>, Error>(
            Error::WriteFailed,
        ),
{
}

} // verus!
