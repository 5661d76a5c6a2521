//! Command-line handling: which options are known, how the arguments split
//! into options and files, and what an invocation asks for.
use vstd::prelude::*;

use crate::mpv;
use crate::pipe;
use crate::registry;
use crate::text::{
    decimal, decimal_string, find_first, is_prefix, joined, lemma_find_first, starts_with,
    str_equals, strip_prefix, views,
};

verus! {

/// The option that chooses the loadfile flags.
pub const LOADFILE_OPTION_PREFIX: &'static str = "--loadfile=";

/// The loadfile flags used when no `--loadfile=` option is given.
pub const DEFAULT_LOADFILE_FLAGS: &'static str = "replace";

/// What umpv is asked to do besides opening files.
#[derive(PartialEq, Eq, Structural, Clone, Copy, Debug)]
pub enum Command {
    Register,
    Unregister,
}

/// The command an option names, if any.
pub open spec fn spec_parse_command(option: Seq<char>) -> Option<Command> {
    if option == "--register"@ {
        Some(Command::Register)
    } else if option == "--unregister"@ {
        Some(Command::Unregister)
    } else {
        None
    }
}

/// The command that an option names, if any.
pub fn parse_command(option: &str) -> (r: Option<Command>)
    ensures
        r == spec_parse_command(option@),
{
    if str_equals(option, "--register") {
        Some(Command::Register)
    } else if str_equals(option, "--unregister") {
        Some(Command::Unregister)
    } else {
        None
    }
}

/// Options that name a command.
pub open spec fn names_command() -> spec_fn(Seq<char>) -> bool {
    |option: Seq<char>| spec_parse_command(option) is Some
}

/// The command named by the first option that names one.
pub open spec fn spec_find_command(options: Seq<Seq<char>>) -> Option<Command> {
    match find_first(options, names_command()) {
        Some(i) => spec_parse_command(options[i]),
        None => None,
    }
}

/// The command named by the first option that names one, if any.
pub fn find_command(options: &[String]) -> (r: Option<Command>)
    ensures
        r == spec_find_command(views(options@)),
{
    let ghost s = views(options@);
    let mut i: usize = 0;
    while i < options.len()
        invariant
            s == views(options@),
            i <= options@.len(),
            forall|j: int| 0 <= j < i ==> !(names_command())(#[trigger] s[j]),
        decreases options@.len() - i,
    {
        let c = parse_command(options[i].as_str());
        if c.is_some() {
            proof {
                lemma_find_first(s, names_command(), i as int);
            }
            return c;
        }
        i = i + 1;
    }
    proof {
        lemma_find_first(s, names_command(), i as int);
    }
    None
}

/// Options that umpv knows: commands and the loadfile option.
pub open spec fn spec_is_known_option(option: Seq<char>) -> bool {
    spec_parse_command(option) is Some || is_prefix(LOADFILE_OPTION_PREFIX@, option)
}

/// Whether umpv knows the option.
pub fn is_known_option(option: &str) -> (r: bool)
    ensures
        r == spec_is_known_option(option@),
{
    parse_command(option).is_some() || starts_with(option, LOADFILE_OPTION_PREFIX)
}

/// Options that umpv does not know.
pub open spec fn unknown_option() -> spec_fn(Seq<char>) -> bool {
    |option: Seq<char>| !spec_is_known_option(option)
}

/// The first option that umpv does not know, if any.
pub fn find_unknown_option(options: &[String]) -> (r: Option<&str>)
    ensures
        r is Some <==> find_first(views(options@), unknown_option()) is Some,
        r matches Some(option) ==> option@ == views(options@)[find_first(
            views(options@),
            unknown_option(),
        )->0],
{
    let ghost s = views(options@);
    let mut i: usize = 0;
    while i < options.len()
        invariant
            s == views(options@),
            i <= options@.len(),
            forall|j: int| 0 <= j < i ==> !(unknown_option())(#[trigger] s[j]),
        decreases options@.len() - i,
    {
        let option = options[i].as_str();
        if !is_known_option(option) {
            proof {
                lemma_find_first(s, unknown_option(), i as int);
            }
            return Some(option);
        }
        i = i + 1;
    }
    proof {
        lemma_find_first(s, unknown_option(), i as int);
    }
    None
}

/// The arguments, split into options and files.
pub struct Arguments {
    pub options: Vec<String>,
    pub files: Vec<String>,
}

/// One step of the scan over the arguments: the options and files so far,
/// and whether the end-of-options marker `--` has been passed.
pub open spec fn split_step(
    acc: (Seq<Seq<char>>, Seq<Seq<char>>, bool),
    argument: Seq<char>,
) -> (Seq<Seq<char>>, Seq<Seq<char>>, bool) {
    let (options, files, past_end_of_options) = acc;
    if past_end_of_options || !is_prefix("--"@, argument) {
        (options, files.push(argument), past_end_of_options)
    } else if argument == "--"@ {
        (options, files, true)
    } else {
        (options.push(argument), files, past_end_of_options)
    }
}

/// The options and files of an argument list, read from left to right:
/// before `--`, an argument that begins with `--` is an option and any other
/// is a file; the first `--` itself is dropped, and everything after it is a
/// file.
pub open spec fn spec_split(arguments: Seq<Seq<char>>) -> (Seq<Seq<char>>, Seq<Seq<char>>, bool)
    decreases arguments.len(),
{
    if arguments.len() == 0 {
        (Seq::empty(), Seq::empty(), false)
    } else {
        split_step(spec_split(arguments.drop_last()), arguments.last())
    }
}

/// Splits the arguments into options and files.
pub fn split_arguments(arguments: Vec<String>) -> (r: Arguments)
    ensures
        views(r.options@) == spec_split(views(arguments@)).0,
        views(r.files@) == spec_split(views(arguments@)).1,
{
    let ghost s = views(arguments@);
    let mut options: Vec<String> = Vec::new();
    let mut files: Vec<String> = Vec::new();
    let mut past_end_of_options = false;
    let mut i: usize = 0;
    while i < arguments.len()
        invariant
            s == views(arguments@),
            i <= arguments@.len(),
            spec_split(s.take(i as int)) == (views(options@), views(files@), past_end_of_options),
        decreases arguments@.len() - i,
    {
        let argument = arguments[i].clone();
        proof {
            assert(s.take(i + 1).drop_last() == s.take(i as int));
            assert(s.take(i + 1).last() == argument@);
        }
        if past_end_of_options || !starts_with(argument.as_str(), "--") {
            files.push(argument);
            proof {
                assert(views(files@) =~= views(files@.drop_last()).push(argument@));
            }
        } else if str_equals(argument.as_str(), "--") {
            past_end_of_options = true;
        } else {
            options.push(argument);
            proof {
                assert(views(options@) =~= views(options@.drop_last()).push(argument@));
            }
        }
        i = i + 1;
    }
    assert(s.take(s.len() as int) == s);
    Arguments { options, files }
}

/// `://` begins at index `k` of `s`.
pub open spec fn scheme_separator_at(s: Seq<char>, k: int) -> bool {
    0 <= k && k + 3 <= s.len() && s[k] == ':' && s[k + 1] == '/' && s[k + 2] == '/'
}

/// An ASCII letter.
pub open spec fn is_ascii_alphabetic(c: char) -> bool {
    ('a' <= c && c <= 'z') || ('A' <= c && c <= 'Z')
}

/// A character that may stand in a URL scheme: an ASCII letter or digit,
/// `+`, `-` or `.`.
pub open spec fn is_scheme_char(c: char) -> bool {
    is_ascii_alphabetic(c) || ('0' <= c && c <= '9') || c == '+' || c == '-' || c == '.'
}

/// The text before the first `://` of `s` is a URL scheme: it begins with an
/// ASCII letter and holds only scheme characters.
pub open spec fn spec_has_url_scheme(s: Seq<char>) -> bool {
    exists|k: int|
        #![trigger scheme_separator_at(s, k)]
        scheme_separator_at(s, k) && (forall|j: int| 0 <= j < k ==> !scheme_separator_at(s, j))
            && k >= 1 && is_ascii_alphabetic(s[0]) && (forall|j: int|
            0 <= j < k ==> is_scheme_char(#[trigger] s[j]))
}

/// Whether the argument begins with a URL scheme followed by `://`.
pub fn has_url_scheme(argument: &str) -> (r: bool)
    ensures
        r == spec_has_url_scheme(argument@),
{
    let s = crate::text::chars_of(argument);
    let n: usize = s.len();
    let mut all_scheme_chars = true;
    let mut i: usize = 0;
    while n >= 3 && i <= n - 3
        invariant
            s@ == argument@,
            i <= n,
            n == s@.len(),
            forall|j: int| 0 <= j < i ==> !scheme_separator_at(s@, j),
            all_scheme_chars == (forall|j: int| 0 <= j < i ==> is_scheme_char(#[trigger] s@[j])),
        decreases n - i,
    {
        if s[i] == ':' && s[i + 1] == '/' && s[i + 2] == '/' {
            assert(scheme_separator_at(s@, i as int));
            let r = i >= 1 && all_scheme_chars && is_ascii_alphabetic_char(s[0]);
            proof {
                if !r {
                    assert forall|k: int|
                        scheme_separator_at(s@, k) && (forall|j: int|
                            0 <= j < k ==> !scheme_separator_at(s@, j)) implies k == i by {
                        if k > i {
                            assert(!scheme_separator_at(s@, i as int));
                        }
                    }
                }
            }
            return r;
        }
        assert(!scheme_separator_at(s@, i as int));
        all_scheme_chars = all_scheme_chars && is_scheme_char_exec(s[i]);
        i = i + 1;
    }
    assert(forall|k: int| !scheme_separator_at(s@, k));
    false
}

fn is_ascii_alphabetic_char(c: char) -> (r: bool)
    ensures
        r == is_ascii_alphabetic(c),
{
    ('a' <= c && c <= 'z') || ('A' <= c && c <= 'Z')
}

fn is_scheme_char_exec(c: char) -> (r: bool)
    ensures
        r == is_scheme_char(c),
{
    is_ascii_alphabetic_char(c) || ('0' <= c && c <= '9') || c == '+' || c == '-' || c == '.'
}

/// Non-empty arguments.
pub open spec fn non_empty() -> spec_fn(Seq<char>) -> bool {
    |file: Seq<char>| file.len() > 0
}

/// The first file argument that is not empty, if any.
pub fn first_non_empty_file(files: &[String]) -> (r: Option<&str>)
    ensures
        r is Some <==> find_first(views(files@), non_empty()) is Some,
        r matches Some(file) ==> file@ == views(files@)[find_first(views(files@), non_empty())->0],
{
    let ghost s = views(files@);
    let mut i: usize = 0;
    while i < files.len()
        invariant
            s == views(files@),
            i <= files@.len(),
            forall|j: int| 0 <= j < i ==> !(non_empty())(#[trigger] s[j]),
        decreases files@.len() - i,
    {
        let file = files[i].as_str();
        if !file.is_empty() {
            proof {
                lemma_find_first(s, non_empty(), i as int);
            }
            return Some(file);
        }
        i = i + 1;
    }
    proof {
        lemma_find_first(s, non_empty(), i as int);
    }
    None
}

/// Options that give the loadfile flags.
pub open spec fn gives_loadfile_flags() -> spec_fn(Seq<char>) -> bool {
    |option: Seq<char>| is_prefix(LOADFILE_OPTION_PREFIX@, option)
}

/// The loadfile flags of the first `--loadfile=` option, or `replace`.
pub open spec fn spec_loadfile_flags(options: Seq<Seq<char>>) -> Seq<char> {
    match find_first(options, gives_loadfile_flags()) {
        Some(i) => options[i].skip(LOADFILE_OPTION_PREFIX@.len() as int),
        None => DEFAULT_LOADFILE_FLAGS@,
    }
}

/// The loadfile flags of the first `--loadfile=` option, or the default.
pub fn loadfile_flags_or_default(options: &[String]) -> (r: &str)
    ensures
        r@ == spec_loadfile_flags(views(options@)),
{
    let ghost s = views(options@);
    let mut i: usize = 0;
    while i < options.len()
        invariant
            s == views(options@),
            i <= options@.len(),
            forall|j: int| 0 <= j < i ==> !(gives_loadfile_flags())(#[trigger] s[j]),
        decreases options@.len() - i,
    {
        if let Some(flags) = strip_prefix(options[i].as_str(), LOADFILE_OPTION_PREFIX) {
            proof {
                lemma_find_first(s, gives_loadfile_flags(), i as int);
            }
            return flags;
        }
        i = i + 1;
    }
    proof {
        lemma_find_first(s, gives_loadfile_flags(), i as int);
    }
    DEFAULT_LOADFILE_FLAGS
}

/// The loadfile flags that umpv hands to mpv: those that need no playlist
/// index, and the deprecated spellings `append-play` and `insert-next-play`.
pub open spec fn spec_is_supported_loadfile_flags(flags: Seq<char>) -> bool {
    flags == "replace"@ || flags == "append"@ || flags == "append+play"@ || flags
        == "insert-next"@ || flags == "insert-next+play"@ || flags == "append-play"@ || flags
        == "insert-next-play"@
}

/// Whether umpv accepts these loadfile flags.
pub fn is_supported_loadfile_flags(loadfile_flags: &str) -> (r: bool)
    ensures
        r == spec_is_supported_loadfile_flags(loadfile_flags@),
{
    str_equals(loadfile_flags, "replace") || str_equals(loadfile_flags, "append")
        || str_equals(loadfile_flags, "append+play") || str_equals(loadfile_flags, "insert-next")
        || str_equals(loadfile_flags, "insert-next+play") || str_equals(
        loadfile_flags,
        "append-play",
    ) || str_equals(loadfile_flags, "insert-next-play")
}

/// The text shown for information.
pub fn show_information(text: &str) -> (message: String)
    ensures
        message@ == "Info\n"@ + text@,
{
    joined("Info\n", text)
}

/// The text shown for an error, before umpv exits.
pub fn error_text(text: &str) -> (message: String)
    ensures
        message@ == "Error\n"@ + text@,
{
    joined("Error\n", text)
}

/// What an invocation asks for, as character sequences.
pub enum InvocationView {
    /// Show this error and exit.
    Fail(Seq<char>),
    /// Register umpv with these loadfile flags.
    Register(Seq<char>),
    Unregister,
    /// Open the first of these files with these loadfile flags.
    Open(Seq<Seq<char>>, Seq<char>),
}

/// What an invocation asks for.
#[derive(Debug)]
pub enum Invocation {
    Fail(String),
    Register(String),
    Unregister,
    Open(Vec<String>, String),
}

impl View for Invocation {
    type V = InvocationView;

    open spec fn view(&self) -> InvocationView {
        match self {
            Invocation::Fail(m) => InvocationView::Fail(m@),
            Invocation::Register(f) => InvocationView::Register(f@),
            Invocation::Unregister => InvocationView::Unregister,
            Invocation::Open(files, f) => InvocationView::Open(views(files@), f@),
        }
    }
}

/// What the command-line arguments ask for: an unknown option or
/// unsupported loadfile flags is an error; otherwise the first command
/// option decides, and without one the files are opened.
pub open spec fn spec_invocation(arguments: Seq<Seq<char>>) -> InvocationView {
    let (options, files, _) = spec_split(arguments);
    match find_first(options, unknown_option()) {
        Some(i) => InvocationView::Fail("Unknown option: "@ + options[i]),
        None => {
            let flags = spec_loadfile_flags(options);
            if !spec_is_supported_loadfile_flags(flags) {
                InvocationView::Fail("Unsupported loadfile flags: "@ + flags)
            } else {
                match spec_find_command(options) {
                    Some(Command::Register) => InvocationView::Register(flags),
                    Some(Command::Unregister) => InvocationView::Unregister,
                    None => InvocationView::Open(files, flags),
                }
            }
        },
    }
}

/// What the command-line arguments (without the program name) ask for.
pub fn parse_invocation(arguments: Vec<String>) -> (r: Invocation)
    ensures
        r@ == spec_invocation(views(arguments@)),
{
    let arguments = split_arguments(arguments);
    if let Some(option) = find_unknown_option(arguments.options.as_slice()) {
        return Invocation::Fail(joined("Unknown option: ", option));
    }
    let flags = loadfile_flags_or_default(arguments.options.as_slice());
    if !is_supported_loadfile_flags(flags) {
        return Invocation::Fail(joined("Unsupported loadfile flags: ", flags));
    }
    let flags = flags.to_owned();
    match find_command(arguments.options.as_slice()) {
        Some(Command::Register) => Invocation::Register(flags),
        Some(Command::Unregister) => Invocation::Unregister,
        None => Invocation::Open(arguments.files, flags),
    }
}

/// The command that the shell runs to open a file with umpv: the quoted
/// umpv path, the loadfile option, the end-of-options marker, and the
/// quoted file placeholder `%L`.
pub open spec fn spec_register_command(umpv_path: Seq<char>, loadfile_flags: Seq<char>) -> Seq<
    char,
> {
    "\""@ + umpv_path + "\" "@ + LOADFILE_OPTION_PREFIX@ + loadfile_flags + " -- \"%L\""@
}

/// The open command that umpv registers for the file extensions.
pub fn register_command(umpv_path: &str, loadfile_flags: &str) -> (command: String)
    ensures
        command@ == spec_register_command(umpv_path@, loadfile_flags@),
{
    let mut command = "\"".to_owned();
    command.append(umpv_path);
    command.append("\" ");
    command.append(LOADFILE_OPTION_PREFIX);
    command.append(loadfile_flags);
    command.append(" -- \"%L\"");
    command
}

/// The texts of a report: information on success, an error otherwise.
pub open spec fn report_texts(r: Result<String, String>) -> Result<Seq<char>, Seq<char>> {
    match r {
        Ok(m) => Ok(m@),
        Err(m) => Err(m@),
    }
}

/// The report on registering umpv.
pub open spec fn spec_register_report(
    outcome: Result<usize, registry::Error>,
    loadfile_flags: Seq<char>,
) -> Result<Seq<char>, Seq<char>> {
    match outcome {
        Ok(count) => Ok(
            "Registered for "@ + decimal(count as nat) + " file extension(s).\nloadfile: "@
                + loadfile_flags,
        ),
        Err(registry::Error::NoAssociations) => Err(
            "No mpv file associations found.\nRun 'mpv.exe --register' first."@,
        ),
        Err(registry::Error::ProgIdWriteFailed) => Err(
            "Failed to write umpv ProgID to registry."@,
        ),
        Err(registry::Error::NoExtensionsRegistered) => Err(
            "Failed to register any file associations."@,
        ),
    }
}

/// The report on registering umpv: how many extensions now open with umpv
/// and with which loadfile flags, or why registering failed.
pub fn register(outcome: Result<usize, registry::Error>, loadfile_flags: &str) -> (r: Result<
    String,
    String,
>)
    ensures
        report_texts(r) == spec_register_report(outcome, loadfile_flags@),
{
    match outcome {
        Ok(count) => {
            let mut m = "Registered for ".to_owned();
            m.append(decimal_string(count as u64).as_str());
            m.append(" file extension(s).\nloadfile: ");
            m.append(loadfile_flags);
            Ok(m)
        },
        Err(registry::Error::NoAssociations) => Err(
            "No mpv file associations found.\nRun 'mpv.exe --register' first.".to_owned(),
        ),
        Err(registry::Error::ProgIdWriteFailed) => Err(
            "Failed to write umpv ProgID to registry.".to_owned(),
        ),
        Err(registry::Error::NoExtensionsRegistered) => Err(
            "Failed to register any file associations.".to_owned(),
        ),
    }
}

/// The report on unregistering umpv.
pub open spec fn spec_unregister_report(unregistered: registry::Unregistered) -> Seq<char> {
    if unregistered.extension_count == 0 {
        if unregistered.removed_prog_id {
            "Removed the umpv ProgID.\nNo file extensions were pointing at umpv."@
        } else {
            "Nothing to unregister."@
        }
    } else {
        "Unregistered for "@ + decimal(unregistered.extension_count as nat)
            + " file extension(s)."@
    }
}

/// The report on unregistering umpv.
pub fn unregister(unregistered: registry::Unregistered) -> (message: String)
    ensures
        message@ == spec_unregister_report(unregistered),
{
    if unregistered.extension_count == 0 {
        if unregistered.removed_prog_id {
            "Removed the umpv ProgID.\nNo file extensions were pointing at umpv.".to_owned()
        } else {
            "Nothing to unregister.".to_owned()
        }
    } else {
        let mut m = "Unregistered for ".to_owned();
        m.append(decimal_string(unregistered.extension_count as u64).as_str());
        m.append(" file extension(s).");
        m
    }
}

/// The error to show when starting mpv failed.
pub open spec fn spec_launch_error(error: mpv::Error) -> Seq<char> {
    match error {
        mpv::Error::SpawnFailed(e) => "Failed to launch mpv.exe: "@ + e@,
        mpv::Error::Exited => "mpv.exe exited before it opened the file."@,
        mpv::Error::StartupTimedOut => "Timed out waiting for mpv.exe to start."@,
    }
}

/// The error to show after starting mpv, if starting it failed.
pub fn launch_mpv(outcome: Result<(), mpv::Error>) -> (error: Option<String>)
    ensures
        match outcome {
            Ok(()) => error is None,
            Err(e) => error matches Some(m) && m@ == spec_launch_error(e),
        },
{
    match outcome {
        Ok(()) => None,
        Err(mpv::Error::SpawnFailed(e)) => Some(joined("Failed to launch mpv.exe: ", e.as_str())),
        Err(mpv::Error::Exited) => Some("mpv.exe exited before it opened the file.".to_owned()),
        Err(mpv::Error::StartupTimedOut) => Some(
            "Timed out waiting for mpv.exe to start.".to_owned(),
        ),
    }
}

/// The ways taking the lock that keeps umpv instances from starting mpv
/// twice can fail.
#[derive(PartialEq, Eq, Structural, Clone, Copy, Debug)]
pub enum LockError {
    CreateFailed,
    WaitFailed,
    TimedOut,
}

/// The error to show when the umpv lock could not be taken.
pub open spec fn spec_lock_error(error: LockError) -> Seq<char> {
    match error {
        LockError::CreateFailed => "Failed to create umpv lock."@,
        LockError::WaitFailed => "Failed to wait for umpv lock."@,
        LockError::TimedOut => "Timed out waiting for umpv lock.\nAnother umpv instance is holding it."@,
    }
}

/// The error to show when the umpv lock could not be taken.
pub fn lock_error(error: LockError) -> (message: String)
    ensures
        message@ == spec_lock_error(error),
{
    match error {
        LockError::CreateFailed => "Failed to create umpv lock.".to_owned(),
        LockError::WaitFailed => "Failed to wait for umpv lock.".to_owned(),
        LockError::TimedOut => "Timed out waiting for umpv lock.\nAnother umpv instance is holding it.".to_owned(),
    }
}

/// A failed start of mpv is reported with the system's own words after a
/// fixed prefix; the other two failures each have their own message.
pub proof fn lemma_launch_error_cases(error: mpv::Error)
    ensures
        error matches mpv::Error::SpawnFailed(e) ==> spec_launch_error(error)
            == "Failed to launch mpv.exe: "@ + e@,
        error is Exited ==> spec_launch_error(error) == "mpv.exe exited before it opened the file."@,
        error is StartupTimedOut ==> spec_launch_error(error)
            == "Timed out waiting for mpv.exe to start."@,
{
}

/// Each way of failing to take the lock has its own message.
pub proof fn lemma_lock_error_cases(error: LockError)
    ensures
        error == LockError::CreateFailed ==> spec_lock_error(error) == "Failed to create umpv lock."@,
        error == LockError::WaitFailed ==> spec_lock_error(error) == "Failed to wait for umpv lock."@,
        error == LockError::TimedOut ==> spec_lock_error(error)
            == "Timed out waiting for umpv lock.\nAnother umpv instance is holding it."@,
{
}

/// What to do after trying to hand a file to a running mpv.
#[derive(Debug)]
pub enum OpenStep {
    /// Bring the window of this mpv process to the front.
    Activate(u32),
    /// The file was handed over; the mpv process is not known.
    Done,
    /// No mpv is running: start one with the file.
    LaunchMpv,
    Fail(String),
}

/// A step after trying to hand a file to mpv, as character sequences.
pub enum OpenStepView {
    Activate(u32),
    Done,
    LaunchMpv,
    Fail(Seq<char>),
}

impl View for OpenStep {
    type V = OpenStepView;

    open spec fn view(&self) -> OpenStepView {
        match self {
            OpenStep::Activate(pid) => OpenStepView::Activate(*pid),
            OpenStep::Done => OpenStepView::Done,
            OpenStep::LaunchMpv => OpenStepView::LaunchMpv,
            OpenStep::Fail(m) => OpenStepView::Fail(m@),
        }
    }
}

/// The next step after trying to hand a file to a running mpv: bring the
/// mpv that took it to the front when its process is known; start mpv when
/// none is running; otherwise report the failure.
pub open spec fn spec_open_in_mpv(sent: Result<Option<u32>, pipe::Error>) -> OpenStepView {
    match sent {
        Ok(Some(pid)) => OpenStepView::Activate(pid),
        Ok(None) => OpenStepView::Done,
        Err(pipe::Error::NoServer) => OpenStepView::LaunchMpv,
        Err(pipe::Error::ConnectFailed) => OpenStepView::Fail("Failed to connect to mpv."@),
        Err(pipe::Error::WriteFailed) => OpenStepView::Fail("Failed to send the file to mpv."@),
    }
}

/// The next step after trying to hand a file to a running mpv.
pub fn open_in_mpv(sent: Result<Option<u32>, pipe::Error>) -> (step: OpenStep)
    ensures
        step@ == spec_open_in_mpv(sent),
{
    match sent {
        Ok(Some(pid)) => OpenStep::Activate(pid),
        Ok(None) => OpenStep::Done,
        Err(pipe::Error::NoServer) => OpenStep::LaunchMpv,
        Err(pipe::Error::ConnectFailed) => OpenStep::Fail("Failed to connect to mpv.".to_owned()),
        Err(pipe::Error::WriteFailed) => OpenStep::Fail(
            "Failed to send the file to mpv.".to_owned(),
        ),
    }
}

/// What is opened: a URL, handed to mpv as it is, or a local file, whose
/// path is made absolute first.
#[derive(Debug)]
pub enum OpenTarget {
    Url(String),
    LocalFile(String),
}

/// What opening the file arguments opens: the first non-empty file, if
/// any, with whether it begins with a URL scheme.
pub open spec fn spec_open(files: Seq<Seq<char>>) -> Option<(bool, Seq<char>)> {
    match find_first(files, non_empty()) {
        None => None,
        Some(i) => Some((spec_has_url_scheme(files[i]), files[i])),
    }
}

/// What opening the file arguments opens: the first non-empty file, if
/// any, as a URL when it begins with a URL scheme.
pub fn open(files: &[String]) -> (target: Option<OpenTarget>)
    ensures
        match spec_open(views(files@)) {
            None => target is None,
            Some((true, file)) => target matches Some(OpenTarget::Url(u)) && u@ == file,
            Some((false, file)) => target matches Some(OpenTarget::LocalFile(f)) && f@ == file,
        },
{
    match first_non_empty_file(files) {
        None => None,
        Some(file) => if has_url_scheme(file) {
            Some(OpenTarget::Url(file.to_owned()))
        } else {
            Some(OpenTarget::LocalFile(file.to_owned()))
        },
    }
}

/// The absolute path of a resolved local file, or the error to show.
pub open spec fn spec_absolute_file_path(resolved: Result<Seq<char>, Seq<char>>) -> Result<
    Seq<char>,
    Seq<char>,
> {
    match resolved {
        Ok(path) => Ok(path),
        Err(e) => Err("Failed to make the file path absolute: "@ + e),
    }
}

/// The absolute path of a local file, or the error to show, from the
/// outcome of resolving the path (the absolute path, or the system error's
/// description).
pub fn absolute_file_path(resolved: Result<String, String>) -> (r: Result<String, String>)
    ensures
        report_texts(r) == spec_absolute_file_path(report_texts(resolved)),
{
    match resolved {
        Ok(path) => Ok(path),
        Err(e) => Err(joined("Failed to make the file path absolute: ", e.as_str())),
    }
}

/// The arguments that the registered command hands to umpv for a file: the
/// loadfile option, `--`, and the file.
pub open spec fn registered_arguments(loadfile_flags: Seq<char>, file: Seq<char>) -> Seq<
    Seq<char>,
> {
    seq![LOADFILE_OPTION_PREFIX@ + loadfile_flags, "--"@, file]
}

/// The registered command opens the file it is given with the flags it was
/// registered with, whatever the file is called (it follows `--`, so even a
/// file whose name begins with `--` is a file).
pub proof fn lemma_registered_command_opens_file(loadfile_flags: Seq<char>, file: Seq<char>)
    requires
        spec_is_supported_loadfile_flags(loadfile_flags),
    ensures
        spec_invocation(registered_arguments(loadfile_flags, file)) == InvocationView::Open(
            seq![file],
            loadfile_flags,
        ),
{
    reveal_strlit("--loadfile=");
    reveal_strlit("--");
    reveal_strlit("--register");
    reveal_strlit("--unregister");
    let option = LOADFILE_OPTION_PREFIX@ + loadfile_flags;
    let arguments = registered_arguments(loadfile_flags, file);
    let empty = Seq::<Seq<char>>::empty();
    assert(option.take(2) =~= "--"@);
    assert(option != "--"@) by {
        assert(option.len() != "--"@.len());
    }
    assert(arguments.drop_last().drop_last().drop_last() =~= empty);
    assert(arguments.drop_last().drop_last() =~= seq![option]);
    assert(arguments.drop_last() =~= seq![option, "--"@]);
    assert(is_prefix("--"@, option));
    assert(spec_split(empty) == (empty, empty, false));
    assert(spec_split(seq![option]) == (seq![option], empty, false)) by {
        assert(seq![option].drop_last() =~= empty);
        assert(seq![option].last() == option);
        assert(empty.push(option) =~= seq![option]);
    }
    assert(spec_split(seq![option, "--"@]) == (seq![option], empty, true)) by {
        assert(seq![option, "--"@].drop_last() =~= seq![option]);
        assert(is_prefix("--"@, "--"@)) by {
            assert("--"@.take(2) =~= "--"@);
        }
    }
    assert(spec_split(arguments) == (seq![option], seq![file], true)) by {
        assert(empty.push(file) =~= seq![file]);
    }
    let options = seq![option];
    assert(option.take(11) =~= LOADFILE_OPTION_PREFIX@);
    assert(options.drop_first() =~= empty);
    assert(find_first(options, unknown_option()) == None::<int>) by {
        assert(spec_is_known_option(options[0]));
        assert(find_first(empty, unknown_option()) == None::<int>);
    }
    assert(find_first(options, gives_loadfile_flags()) == Some(0int));
    assert(option.skip(11) =~= loadfile_flags);
    assert(spec_parse_command(option) == None::<Command>) by {
        assert(option[2] == 'l');
        assert("--register"@[2] == 'r');
        assert("--unregister"@[2] == 'u');
    }
    assert(find_first(options, names_command()) == None::<int>) by {
        assert(find_first(empty, names_command()) == None::<int>);
    }
}

/// The shape of a split: every option begins with `--` and is not `--`
/// itself; every argument is an option or a file, except the first `--`,
/// which is dropped once it is passed.
pub proof fn lemma_split_shape(arguments: Seq<Seq<char>>)
    ensures
        ({
            let (options, files, past_end_of_options) = spec_split(arguments);
            &&& forall|i: int|
                0 <= i < options.len() ==> is_prefix("--"@, #[trigger] options[i]) && options[i]
                    != "--"@
            &&& options.len() + files.len() + (if past_end_of_options {
                1int
            } else {
                0int
            }) == arguments.len()
        }),
    decreases arguments.len(),
{
    if arguments.len() > 0 {
        lemma_split_shape(arguments.drop_last());
        let (options, files, past) = spec_split(arguments.drop_last());
        let a = arguments.last();
        if !(past || !is_prefix("--"@, a)) && a != "--"@ {
            let o2 = options.push(a);
            assert forall|i: int| 0 <= i < o2.len() implies is_prefix("--"@, #[trigger] o2[i])
                && o2[i] != "--"@ by {
                if i < options.len() {
                    assert(o2[i] == options[i]);
                }
            }
        }
    }
}

/// After the first `--`, every argument is a file, in order: the files end
/// with all the arguments that follow it.
pub proof fn lemma_split_after_end_of_options(arguments: Seq<Seq<char>>, k: int)
    requires
        0 <= k < arguments.len(),
        arguments[k] == "--"@,
        forall|j: int| 0 <= j < k ==> arguments[j] != "--"@,
    ensures
        spec_split(arguments).2,
        spec_split(arguments).1.len() >= arguments.len() - k - 1,
        spec_split(arguments).1.skip(spec_split(arguments).1.len() - (arguments.len() - k - 1))
            == arguments.skip(k + 1),
    decreases arguments.len(),
{
    reveal_strlit("--");
    if arguments.len() == k + 1 {
        let before = spec_split(arguments.drop_last());
        lemma_split_not_past(arguments.drop_last());
        assert("--"@.take(2) =~= "--"@);
        let files = spec_split(arguments).1;
        assert(files.skip(files.len() as int) =~= arguments.skip(k + 1));
    } else {
        let prefix = arguments.drop_last();
        assert forall|j: int| 0 <= j < k implies prefix[j] != "--"@ by {
            assert(prefix[j] == arguments[j]);
        }
        lemma_split_after_end_of_options(prefix, k);
        let files = spec_split(arguments).1;
        let pfiles = spec_split(prefix).1;
        assert(files == pfiles.push(arguments.last()));
        assert(files.skip(files.len() - (arguments.len() - k - 1)) =~= pfiles.skip(
            pfiles.len() - (prefix.len() - k - 1),
        ).push(arguments.last()));
        assert(arguments.skip(k + 1) =~= prefix.skip(k + 1).push(arguments.last()));
    }
}

/// Before any `--` has been seen, the end of options has not been passed.
pub proof fn lemma_split_not_past(arguments: Seq<Seq<char>>)
    requires
        forall|j: int| 0 <= j < arguments.len() ==> arguments[j] != "--"@,
    ensures
        !spec_split(arguments).2,
    decreases arguments.len(),
{
    if arguments.len() > 0 {
        let prefix = arguments.drop_last();
        assert forall|j: int| 0 <= j < prefix.len() implies prefix[j] != "--"@ by {
            assert(prefix[j] == arguments[j]);
        }
        lemma_split_not_past(prefix);
    }
}

/// An argument that begins with two dashes.
pub open spec fn begins_with_two_dashes(argument: Seq<char>) -> bool {
    argument.len() >= 2 && argument[0] == '-' && argument[1] == '-'
}

/// An argument that begins with `--loadfile=`.
pub open spec fn begins_with_loadfile_option(argument: Seq<char>) -> bool {
    argument.len() >= 11 && argument.take(11) == seq![
        '-',
        '-',
        'l',
        'o',
        'a',
        'd',
        'f',
        'i',
        'l',
        'e',
        '=',
    ]
}

/// The loadfile flags of an invocation are those of its first `--loadfile=`
/// option, or `replace` when it has none, wherever `--` stands; the files
/// opened are the file arguments.
pub proof fn lemma_invocation_uses_loadfile_flags(arguments: Seq<Seq<char>>)
    ensures
        spec_invocation(arguments) matches InvocationView::Open(files, flags) ==> flags
            == spec_loadfile_flags(spec_split(arguments).0) && files == spec_split(arguments).1,
        spec_invocation(arguments) matches InvocationView::Register(flags) ==> flags
            == spec_loadfile_flags(spec_split(arguments).0),
{
}

/// The first `--loadfile=` option gives the flags: they are the rest of it.
pub proof fn lemma_loadfile_flags_first(options: Seq<Seq<char>>, i: int, flags: Seq<char>)
    requires
        0 <= i < options.len(),
        options[i] == seq!['-', '-', 'l', 'o', 'a', 'd', 'f', 'i', 'l', 'e', '='] + flags,
        forall|j: int| 0 <= j < i ==> !begins_with_loadfile_option(#[trigger] options[j]),
    ensures
        spec_loadfile_flags(options) == flags,
{
    reveal_strlit("--loadfile=");
    assert(LOADFILE_OPTION_PREFIX@ =~= seq!['-', '-', 'l', 'o', 'a', 'd', 'f', 'i', 'l', 'e', '=']);
    assert forall|j: int| 0 <= j < i implies !(gives_loadfile_flags())(#[trigger] options[j]) by {
        assert(!begins_with_loadfile_option(options[j]));
    }
    assert(options[i].take(11) =~= LOADFILE_OPTION_PREFIX@);
    lemma_find_first(options, gives_loadfile_flags(), i);
    assert(options[i].skip(11) =~= flags);
}

/// Without a `--loadfile=` option the flags are `replace`.
pub proof fn lemma_loadfile_flags_default(options: Seq<Seq<char>>)
    requires
        forall|j: int| 0 <= j < options.len() ==> !begins_with_loadfile_option(#[trigger] options[j]),
    ensures
        spec_loadfile_flags(options) == seq!['r', 'e', 'p', 'l', 'a', 'c', 'e'],
{
    reveal_strlit("--loadfile=");
    reveal_strlit("replace");
    assert(LOADFILE_OPTION_PREFIX@ =~= seq!['-', '-', 'l', 'o', 'a', 'd', 'f', 'i', 'l', 'e', '=']);
    assert forall|j: int| 0 <= j < options.len() implies !(gives_loadfile_flags())(
        #[trigger] options[j],
    ) by {
        assert(!begins_with_loadfile_option(options[j]));
    }
    lemma_find_first(options, gives_loadfile_flags(), options.len() as int);
    assert(DEFAULT_LOADFILE_FLAGS@ =~= seq!['r', 'e', 'p', 'l', 'a', 'c', 'e']);
}

/// Without any `--` argument, every argument that begins with two dashes
/// is an option and every other argument is a file.
pub proof fn lemma_split_without_marker(arguments: Seq<Seq<char>>)
    requires
        forall|j: int| 0 <= j < arguments.len() ==> arguments[j] != seq!['-', '-'],
    ensures
        forall|j: int|
            0 <= j < arguments.len() ==> (if begins_with_two_dashes(#[trigger] arguments[j]) {
                spec_split(arguments).0.contains(arguments[j])
            } else {
                spec_split(arguments).1.contains(arguments[j])
            }),
        !spec_split(arguments).2,
    decreases arguments.len(),
{
    reveal_strlit("--");
    assert("--"@ =~= seq!['-', '-']);
    if arguments.len() > 0 {
        let prefix = arguments.drop_last();
        assert forall|j: int| 0 <= j < prefix.len() implies prefix[j] != seq!['-', '-'] by {
            assert(prefix[j] == arguments[j]);
        }
        lemma_split_without_marker(prefix);
        let (options, files, past) = spec_split(prefix);
        let a = arguments.last();
        assert(arguments[arguments.len() - 1] == a);
        assert(is_prefix("--"@, a) == begins_with_two_dashes(a)) by {
            if begins_with_two_dashes(a) {
                assert(a.take(2) =~= "--"@);
            }
        }
        let (o2, f2, _) = spec_split(arguments);
        assert forall|j: int| 0 <= j < arguments.len() implies (if begins_with_two_dashes(
            #[trigger] arguments[j],
        ) {
            o2.contains(arguments[j])
        } else {
            f2.contains(arguments[j])
        }) by {
            if j < prefix.len() {
                assert(arguments[j] == prefix[j]);
                if begins_with_two_dashes(prefix[j]) {
                    let k = choose|k: int| 0 <= k < options.len() && options[k] == prefix[j];
                    assert(o2[k] == options[k]);
                } else {
                    let k = choose|k: int| 0 <= k < files.len() && files[k] == prefix[j];
                    assert(f2[k] == files[k]);
                }
            } else {
                if begins_with_two_dashes(a) {
                    assert(o2[o2.len() - 1] == a);
                } else {
                    assert(f2[f2.len() - 1] == a);
                }
            }
        }
    }
}

/// The registered open command is the quoted umpv path, a space,
/// `--loadfile=` with the flags, and ` -- "%L"`: the file placeholder is
/// quoted, so the shell hands a path with spaces over as one argument.
pub proof fn lemma_register_command_layout(umpv_path: Seq<char>, loadfile_flags: Seq<char>)
    ensures
        spec_register_command(umpv_path, loadfile_flags) == seq!['"'] + umpv_path + seq![
            '"',
            ' ',
            '-',
            '-',
            'l',
            'o',
            'a',
            'd',
            'f',
            'i',
            'l',
            'e',
            '=',
        ] + loadfile_flags + seq![' ', '-', '-', ' ', '"', '%', 'L', '"'],
{
    reveal_strlit("\"");
    reveal_strlit("\" ");
    reveal_strlit("--loadfile=");
    reveal_strlit(" -- \"%L\"");
    assert("\""@ =~= seq!['"']);
    assert("\" "@ + LOADFILE_OPTION_PREFIX@ =~= seq![
        '"',
        ' ',
        '-',
        '-',
        'l',
        'o',
        'a',
        'd',
        'f',
        'i',
        'l',
        'e',
        '=',
    ]);
    assert(" -- \"%L\""@ =~= seq![' ', '-', '-', ' ', '"', '%', 'L', '"']);
    assert(spec_register_command(umpv_path, loadfile_flags) =~= seq!['"'] + umpv_path + ("\" "@
        + LOADFILE_OPTION_PREFIX@) + loadfile_flags + " -- \"%L\""@);
}

/// Only `--register` and `--unregister` name commands.
pub proof fn lemma_parse_command_cases(option: Seq<char>)
    ensures
        (spec_parse_command(option) == Some(Command::Register)) == (option == seq![
            '-',
            '-',
            'r',
            'e',
            'g',
            'i',
            's',
            't',
            'e',
            'r',
        ]),
        (spec_parse_command(option) == Some(Command::Unregister)) == (option == seq![
            '-',
            '-',
            'u',
            'n',
            'r',
            'e',
            'g',
            'i',
            's',
            't',
            'e',
            'r',
        ]),
{
    reveal_strlit("--register");
    reveal_strlit("--unregister");
    assert("--register"@ =~= seq!['-', '-', 'r', 'e', 'g', 'i', 's', 't', 'e', 'r']);
    assert("--unregister"@ =~= seq!['-', '-', 'u', 'n', 'r', 'e', 'g', 'i', 's', 't', 'e', 'r']);
}

/// The loadfile flags umpv accepts are exactly `replace`, `append`,
/// `append+play`, `insert-next`, `insert-next+play` and the deprecated
/// `append-play` and `insert-next-play`; `insert-at` and `insert-at+play`
/// are refused.
pub proof fn lemma_supported_loadfile_flags(flags: Seq<char>)
    ensures
        spec_is_supported_loadfile_flags(flags) == (flags == "replace"@ || flags == "append"@
            || flags == "append+play"@ || flags == "insert-next"@ || flags == "insert-next+play"@
            || flags == "append-play"@ || flags == "insert-next-play"@),
        !spec_is_supported_loadfile_flags("insert-at"@),
        !spec_is_supported_loadfile_flags("insert-at+play"@),
{
    reveal_strlit("replace");
    reveal_strlit("append");
    reveal_strlit("append+play");
    reveal_strlit("insert-next");
    reveal_strlit("insert-next+play");
    reveal_strlit("append-play");
    reveal_strlit("insert-next-play");
    reveal_strlit("insert-at");
    reveal_strlit("insert-at+play");
    assert("insert-at"@.len() != "replace"@.len());
    assert("insert-at"@[0] != "append"@[0]);
    assert("insert-at"@.len() != "append+play"@.len());
    assert("insert-at"@.len() != "insert-next"@.len());
    assert("insert-at"@.len() != "insert-next+play"@.len());
    assert("insert-at"@.len() != "append-play"@.len());
    assert("insert-at"@.len() != "insert-next-play"@.len());
    assert("insert-at+play"@.len() != "replace"@.len());
    assert("insert-at+play"@.len() != "append"@.len());
    assert("insert-at+play"@.len() != "append+play"@.len());
    assert("insert-at+play"@.len() != "insert-next"@.len());
    assert("insert-at+play"@.len() != "insert-next+play"@.len());
    assert("insert-at+play"@.len() != "append-play"@.len());
    assert("insert-at+play"@.len() != "insert-next-play"@.len());
}

/// The options umpv knows are `--register`, `--unregister` and those that
/// begin with `--loadfile=`.
pub proof fn lemma_known_options(option: Seq<char>)
    ensures
        spec_is_known_option(option) == (option == "--register"@ || option == "--unregister"@
            || begins_with_loadfile_option(option)),
{
    reveal_strlit("--loadfile=");
    assert(LOADFILE_OPTION_PREFIX@ =~= seq!['-', '-', 'l', 'o', 'a', 'd', 'f', 'i', 'l', 'e', '=']);
    if begins_with_loadfile_option(option) {
        assert(option.take(11) =~= LOADFILE_OPTION_PREFIX@);
    }
}

/// The first option that names a command decides it, whatever follows.
pub proof fn lemma_first_command_wins(options: Seq<Seq<char>>, i: int)
    requires
        0 <= i < options.len(),
        options[i] == "--register"@ || options[i] == "--unregister"@,
        forall|j: int|
            0 <= j < i ==> #[trigger] options[j] != "--register"@ && options[j] != "--unregister"@,
    ensures
        spec_find_command(options) == (if options[i] == "--register"@ {
            Some(Command::Register)
        } else {
            Some(Command::Unregister)
        }),
{
    assert forall|j: int| 0 <= j < i implies !(names_command())(#[trigger] options[j]) by {
        assert(options[j] != "--register"@ && options[j] != "--unregister"@);
    }
    lemma_find_first(options, names_command(), i);
}

/// An ASCII letter, as a character range.
pub open spec fn is_letter_code(c: char) -> bool {
    ('A' <= c && c <= 'Z') || ('a' <= c && c <= 'z')
}

/// A text made of an ASCII letter followed by letters, digits, `+`, `-` or
/// `.`, then `://`, begins with a URL scheme, whatever follows.
pub proof fn lemma_url_scheme_recognised(scheme: Seq<char>, rest: Seq<char>)
    requires
        scheme.len() >= 1,
        is_letter_code(scheme[0]),
        forall|i: int|
            0 <= i < scheme.len() ==> is_letter_code(#[trigger] scheme[i]) || ('0' <= scheme[i]
                && scheme[i] <= '9') || scheme[i] == '+' || scheme[i] == '-' || scheme[i] == '.',
    ensures
        spec_has_url_scheme(scheme + seq![':', '/', '/'] + rest),
{
    let s = scheme + seq![':', '/', '/'] + rest;
    let k = scheme.len() as int;
    assert(s[k] == ':' && s[k + 1] == '/' && s[k + 2] == '/');
    assert(scheme_separator_at(s, k));
    assert forall|j: int| 0 <= j < k implies is_scheme_char(#[trigger] s[j]) by {
        assert(s[j] == scheme[j]);
    }
    assert forall|j: int| 0 <= j < k implies !scheme_separator_at(s, j) by {
        assert(s[j] == scheme[j]);
        assert(is_scheme_char(scheme[j]));
    }
    assert(s[0] == scheme[0]);
}

/// A text in which `://` never occurs has no URL scheme.
pub proof fn lemma_no_url_scheme_without_separator(s: Seq<char>)
    requires
        forall|k: int|
            0 <= k && k + 3 <= s.len() ==> !(#[trigger] s[k] == ':' && s[k + 1] == '/' && s[k + 2]
                == '/'),
    ensures
        !spec_has_url_scheme(s),
{
}

/// The reports on unregistering: nothing to do, only the ProgID removed,
/// or the number of extensions pointed back at mpv.
pub proof fn lemma_unregister_report_cases(unregistered: registry::Unregistered)
    ensures
        unregistered.extension_count == 0 && !unregistered.removed_prog_id ==> spec_unregister_report(
            unregistered,
        ) == "Nothing to unregister."@,
        unregistered.extension_count == 0 && unregistered.removed_prog_id ==> spec_unregister_report(
            unregistered,
        ) == "Removed the umpv ProgID.\nNo file extensions were pointing at umpv."@,
        unregistered.extension_count > 0 ==> spec_unregister_report(unregistered)
            == "Unregistered for "@ + decimal(unregistered.extension_count as nat)
            + " file extension(s)."@,
{
}

/// The report on a registration names the number of extensions and the
/// flags; each failure has its own message.
pub proof fn lemma_register_report_cases(
    outcome: Result<usize, registry::Error>,
    loadfile_flags: Seq<char>,
)
    ensures
        outcome matches Ok(n) ==> spec_register_report(outcome, loadfile_flags) == Ok::<
            Seq<char>,
            Seq<char>,
        >("Registered for "@ + decimal(n as nat) + " file extension(s).\nloadfile: "@ + loadfile_flags),
        outcome == Err::<usize, registry::Error>(registry::Error::NoAssociations)
            ==> spec_register_report(outcome, loadfile_flags) == Err::<Seq<char>, Seq<char>>(
            "No mpv file associations found.\nRun 'mpv.exe --register' first."@,
        ),
        outcome == Err::<usize, registry::Error>(registry::Error::ProgIdWriteFailed)
            ==> spec_register_report(outcome, loadfile_flags) == Err::<Seq<char>, Seq<char>>(
            "Failed to write umpv ProgID to registry."@,
        ),
        outcome == Err::<usize, registry::Error>(registry::Error::NoExtensionsRegistered)
            ==> spec_register_report(outcome, loadfile_flags) == Err::<Seq<char>, Seq<char>>(
            "Failed to register any file associations."@,
        ),
{
}

/// Opening opens the first non-empty file argument, unchanged, and reports
/// whether it begins with a URL scheme; with only empty file arguments it
/// opens nothing.
pub proof fn lemma_open_first_file(files: Seq<Seq<char>>)
    ensures
        (forall|j: int| 0 <= j < files.len() ==> (#[trigger] files[j]).len() == 0) ==> spec_open(
            files,
        ) is None,
        forall|i: int|
            0 <= i < files.len() && (#[trigger] files[i]).len() > 0 && (forall|j: int|
                0 <= j < i ==> (#[trigger] files[j]).len() == 0) ==> spec_open(files) == Some(
                (spec_has_url_scheme(files[i]), files[i]),
            ),
{
    if forall|j: int| 0 <= j < files.len() ==> (#[trigger] files[j]).len() == 0 {
        assert forall|j: int| 0 <= j < files.len() implies !(non_empty())(#[trigger] files[j]) by {}
        lemma_find_first(files, non_empty(), files.len() as int);
    }
    assert forall|i: int|
        0 <= i < files.len() && (#[trigger] files[i]).len() > 0 && (forall|j: int|
            0 <= j < i ==> (#[trigger] files[j]).len() == 0) implies spec_open(files) == Some(
        (spec_has_url_scheme(files[i]), files[i]),
    ) by {
        assert forall|j: int| 0 <= j < i implies !(non_empty())(#[trigger] files[j]) by {}
        lemma_find_first(files, non_empty(), i);
    }
}

/// After trying to hand a file to mpv: the mpv that took it is brought to
/// the front when its process is known, mpv is started when none is
/// running, and a failed connection or write is reported.
pub proof fn lemma_open_in_mpv_cases(sent: Result<Option<u32>, pipe::Error>)
    ensures
        sent matches Ok(Some(pid)) ==> spec_open_in_mpv(sent) == OpenStepView::Activate(pid),
        sent == Ok::<Option<u32>, pipe::Error>(None) ==> spec_open_in_mpv(sent) == OpenStepView::Done,
        sent == Err::<Option<u32>, pipe::Error>(pipe::Error::NoServer) ==> spec_open_in_mpv(sent)
            == OpenStepView::LaunchMpv,
        sent == Err::<Option<u32>, pipe::Error>(pipe::Error::ConnectFailed) ==> spec_open_in_mpv(
            sent,
        ) == OpenStepView::Fail("Failed to connect to mpv."@),
        sent == Err::<Option<u32>, pipe::Error>(pipe::Error::WriteFailed) ==> spec_open_in_mpv(
            sent,
        ) == OpenStepView::Fail("Failed to send the file to mpv."@),
{
}

/// A resolved path is used as it is; a failure is reported with its
/// description.
pub proof fn lemma_absolute_file_path_cases(resolved: Result<Seq<char>, Seq<char>>)
    ensures
        resolved matches Ok(path) ==> spec_absolute_file_path(resolved) == Ok::<
            Seq<char>,
            Seq<char>,
        >(path),
        resolved matches Err(e) ==> spec_absolute_file_path(resolved) == Err::<Seq<char>, Seq<char>>(
            "Failed to make the file path absolute: "@ + e,
        ),
{
}

/// What an invocation asks for: an unknown option is reported first, then
/// unsupported flags; otherwise `--register` registers with the flags,
/// `--unregister` unregisters, whichever comes first, and without either
/// the file arguments are opened with the flags.
pub proof fn lemma_invocation_cases(arguments: Seq<Seq<char>>)
    ensures
        ({
            let (options, files, _) = spec_split(arguments);
            let flags = spec_loadfile_flags(options);
            &&& find_first(options, unknown_option()) matches Some(i) ==> spec_invocation(arguments)
                == InvocationView::Fail("Unknown option: "@ + options[i])
            &&& find_first(options, unknown_option()) is None && !spec_is_supported_loadfile_flags(
                flags,
            ) ==> spec_invocation(arguments) == InvocationView::Fail(
                "Unsupported loadfile flags: "@ + flags,
            )
            &&& find_first(options, unknown_option()) is None && spec_is_supported_loadfile_flags(
                flags,
            ) ==> spec_invocation(arguments) == (match spec_find_command(options) {
                Some(Command::Register) => InvocationView::Register(flags),
                Some(Command::Unregister) => InvocationView::Unregister,
                None => InvocationView::Open(files, flags),
            })
        }),
{
}

} // verus!
