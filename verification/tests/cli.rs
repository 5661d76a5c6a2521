use umpv::cli::{
    absolute_file_path, error_text, find_command, find_unknown_option, first_non_empty_file,
    has_url_scheme, is_known_option, is_supported_loadfile_flags, launch_mpv, loadfile_flags_or_default,
    lock_error, open, open_in_mpv, parse_command, parse_invocation, register, register_command,
    show_information, split_arguments, unregister, Command, Invocation, LockError, OpenStep,
    OpenTarget,
};
use umpv::mpv;
use umpv::pipe;
use umpv::registry;

fn strings(items: &[&str]) -> Vec<String> {
    items.iter().map(|s| s.to_string()).collect()
}

#[test]
fn parse_command_names_the_two_commands() {
    assert_eq!(parse_command("--register"), Some(Command::Register));
    assert_eq!(parse_command("--unregister"), Some(Command::Unregister));
    assert_eq!(parse_command("--registe"), None);
    assert_eq!(parse_command("register"), None);
    assert_eq!(parse_command(""), None);
}

#[test]
fn find_command_takes_the_first_command() {
    assert_eq!(find_command(&strings(&["--loadfile=append", "--unregister", "--register"])), Some(Command::Unregister));
    assert_eq!(find_command(&strings(&["--register", "--unregister"])), Some(Command::Register));
    assert_eq!(find_command(&strings(&["--loadfile=append"])), None);
    assert_eq!(find_command(&[]), None);
}

#[test]
fn known_options() {
    assert!(is_known_option("--register"));
    assert!(is_known_option("--unregister"));
    assert!(is_known_option("--loadfile="));
    assert!(is_known_option("--loadfile=anything"));
    assert!(!is_known_option("--loadfile"));
    assert!(!is_known_option("--help"));
}

#[test]
fn find_unknown_option_takes_the_first_unknown() {
    let options = strings(&["--register", "--help", "--version"]);
    assert_eq!(find_unknown_option(&options), Some("--help"));
    assert_eq!(find_unknown_option(&strings(&["--register", "--loadfile=append"])), None);
}

#[test]
fn split_arguments_separates_options_and_files() {
    let arguments = split_arguments(strings(&["a.mkv", "--register", "--", "--b.mkv", "--", "c"]));
    assert_eq!(arguments.options, strings(&["--register"]));
    assert_eq!(arguments.files, strings(&["a.mkv", "--b.mkv", "--", "c"]));
}

#[test]
fn split_arguments_without_marker() {
    let arguments = split_arguments(strings(&["-x", "--loadfile=append", "file"]));
    assert_eq!(arguments.options, strings(&["--loadfile=append"]));
    assert_eq!(arguments.files, strings(&["-x", "file"]));
    let empty = split_arguments(Vec::new());
    assert!(empty.options.is_empty() && empty.files.is_empty());
}

#[test]
fn url_schemes() {
    assert!(has_url_scheme("https://example.com/video.mp4"));
    assert!(has_url_scheme("ytdl+https://x"));
    assert!(has_url_scheme("a.b-c://"));
    assert!(has_url_scheme("file:///C:/video.mkv"));
    assert!(!has_url_scheme("C:\\videos\\a.mkv"));
    assert!(!has_url_scheme("://x"));
    assert!(!has_url_scheme("1http://x"));
    assert!(!has_url_scheme("my scheme://x"));
    assert!(!has_url_scheme("c:/folder://x"));
    assert!(!has_url_scheme("http:/x"));
    assert!(!has_url_scheme(""));
}

#[test]
fn first_non_empty_file_skips_empty_ones() {
    assert_eq!(first_non_empty_file(&strings(&["", "", "b", "c"])), Some("b"));
    assert_eq!(first_non_empty_file(&strings(&["", ""])), None);
}

#[test]
fn loadfile_flags_default_to_replace() {
    assert_eq!(loadfile_flags_or_default(&[]), "replace");
    assert_eq!(loadfile_flags_or_default(&strings(&["--register"])), "replace");
    assert_eq!(
        loadfile_flags_or_default(&strings(&["--loadfile=append", "--loadfile=insert-next"])),
        "append"
    );
    assert_eq!(loadfile_flags_or_default(&strings(&["--loadfile="])), "");
}

#[test]
fn supported_loadfile_flags() {
    for flags in ["replace", "append", "append+play", "insert-next", "insert-next+play", "append-play", "insert-next-play"] {
        assert!(is_supported_loadfile_flags(flags), "{flags}");
    }
    for flags in ["insert-at", "insert-at+play", "", "Replace", "replace "] {
        assert!(!is_supported_loadfile_flags(flags), "{flags}");
    }
}

#[test]
fn register_without_flags_uses_replace() {
    match parse_invocation(strings(&["--register"])) {
        Invocation::Register(flags) => assert_eq!(flags, "replace"),
        other => panic!("{other:?}"),
    }
}

#[test]
fn register_with_flags() {
    match parse_invocation(strings(&["--register", "--loadfile=append+play"])) {
        Invocation::Register(flags) => assert_eq!(flags, "append+play"),
        other => panic!("{other:?}"),
    }
}

#[test]
fn unregister_invocation() {
    assert!(matches!(parse_invocation(strings(&["--unregister", "--register"])), Invocation::Unregister));
}

#[test]
fn registered_command_arguments_open_the_file() {
    match parse_invocation(strings(&["--loadfile=insert-next", "--", "--odd name.mkv"])) {
        Invocation::Open(files, flags) => {
            assert_eq!(files, strings(&["--odd name.mkv"]));
            assert_eq!(flags, "insert-next");
        }
        other => panic!("{other:?}"),
    }
}

#[test]
fn invocation_errors() {
    match parse_invocation(strings(&["--bogus", "x"])) {
        Invocation::Fail(message) => assert_eq!(message, "Unknown option: --bogus"),
        other => panic!("{other:?}"),
    }
    match parse_invocation(strings(&["--loadfile=insert-at", "x"])) {
        Invocation::Fail(message) => assert_eq!(message, "Unsupported loadfile flags: insert-at"),
        other => panic!("{other:?}"),
    }
}

#[test]
fn messages() {
    assert_eq!(show_information("done"), "Info\ndone");
    assert_eq!(error_text("bad"), "Error\nbad");
}

#[test]
fn register_command_text() {
    assert_eq!(
        register_command("C:\\mpv\\umpv.exe", "append"),
        "\"C:\\mpv\\umpv.exe\" --loadfile=append -- \"%L\""
    );
}

#[test]
fn register_reports() {
    assert_eq!(
        register(Ok(12), "replace"),
        Ok("Registered for 12 file extension(s).\nloadfile: replace".to_string())
    );
    assert_eq!(
        register(Err(registry::Error::NoAssociations), "replace"),
        Err("No mpv file associations found.\nRun 'mpv.exe --register' first.".to_string())
    );
    assert_eq!(
        register(Err(registry::Error::ProgIdWriteFailed), "replace"),
        Err("Failed to write umpv ProgID to registry.".to_string())
    );
    assert_eq!(
        register(Err(registry::Error::NoExtensionsRegistered), "replace"),
        Err("Failed to register any file associations.".to_string())
    );
}

#[test]
fn unregister_reports() {
    let report = |extension_count, removed_prog_id| {
        unregister(registry::Unregistered { extension_count, removed_prog_id })
    };
    assert_eq!(report(0, false), "Nothing to unregister.");
    assert_eq!(report(0, true), "Removed the umpv ProgID.\nNo file extensions were pointing at umpv.");
    assert_eq!(report(3, true), "Unregistered for 3 file extension(s).");
    assert_eq!(report(1, false), "Unregistered for 1 file extension(s).");
}

#[test]
fn launch_errors() {
    assert_eq!(launch_mpv(Ok(())), None);
    assert_eq!(
        launch_mpv(Err(mpv::Error::SpawnFailed("not found".to_string()))),
        Some("Failed to launch mpv.exe: not found".to_string())
    );
    assert_eq!(
        launch_mpv(Err(mpv::Error::Exited)),
        Some("mpv.exe exited before it opened the file.".to_string())
    );
    assert_eq!(
        launch_mpv(Err(mpv::Error::StartupTimedOut)),
        Some("Timed out waiting for mpv.exe to start.".to_string())
    );
}

#[test]
fn lock_errors() {
    assert_eq!(lock_error(LockError::CreateFailed), "Failed to create umpv lock.");
    assert_eq!(lock_error(LockError::WaitFailed), "Failed to wait for umpv lock.");
    assert_eq!(
        lock_error(LockError::TimedOut),
        "Timed out waiting for umpv lock.\nAnother umpv instance is holding it."
    );
}

#[test]
fn open_in_mpv_steps() {
    assert!(matches!(open_in_mpv(Ok(Some(42))), OpenStep::Activate(42)));
    assert!(matches!(open_in_mpv(Ok(None)), OpenStep::Done));
    assert!(matches!(open_in_mpv(Err(pipe::Error::NoServer)), OpenStep::LaunchMpv));
    match open_in_mpv(Err(pipe::Error::ConnectFailed)) {
        OpenStep::Fail(message) => assert_eq!(message, "Failed to connect to mpv."),
        other => panic!("{other:?}"),
    }
    match open_in_mpv(Err(pipe::Error::WriteFailed)) {
        OpenStep::Fail(message) => assert_eq!(message, "Failed to send the file to mpv."),
        other => panic!("{other:?}"),
    }
}

#[test]
fn open_targets() {
    assert!(open(&strings(&["", ""])).is_none());
    match open(&strings(&["", "https://example.com/a.mp4", "b"])) {
        Some(OpenTarget::Url(url)) => assert_eq!(url, "https://example.com/a.mp4"),
        other => panic!("{other:?}"),
    }
    match open(&strings(&["video.mkv"])) {
        Some(OpenTarget::LocalFile(file)) => assert_eq!(file, "video.mkv"),
        other => panic!("{other:?}"),
    }
}

#[test]
fn absolute_file_path_outcomes() {
    assert_eq!(absolute_file_path(Ok("C:\\a.mkv".to_string())), Ok("C:\\a.mkv".to_string()));
    assert_eq!(
        absolute_file_path(Err("bad path".to_string())),
        Err("Failed to make the file path absolute: bad path".to_string())
    );
}

#[test]
fn split_arguments_accounts_for_every_argument() {
    let arguments = strings(&["--a", "b", "--", "--", "--c", "d"]);
    let split = split_arguments(arguments.clone());
    assert_eq!(split.options.len() + split.files.len() + 1, arguments.len());
    assert!(split.options.iter().all(|o| o.starts_with("--") && o != "--"));
    assert_eq!(split.files, strings(&["b", "--", "--c", "d"]));
}
