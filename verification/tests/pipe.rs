use umpv::pipe::{
    connect, error_code, loadfile_command, path, path_wide, send_file, server_exists, ConnectStep,
    Error, ERROR_FILE_NOT_FOUND, ERROR_PIPE_BUSY, ERROR_SEM_TIMEOUT,
};
use umpv::text::{decimal_string, encode_wide};

#[test]
fn encode_wide_is_zero_terminated_utf16() {
    assert_eq!(encode_wide(""), vec![0]);
    assert_eq!(encode_wide("ab"), vec![97, 98, 0]);
    assert_eq!(encode_wide("é😀"), vec![0xE9, 0xD83D, 0xDE00, 0]);
    let text = "C:\\Vidéos\\𝄞 x.mkv";
    let mut expected: Vec<u16> = text.encode_utf16().collect();
    expected.push(0);
    assert_eq!(encode_wide(text), expected);
}

#[test]
fn decimal_strings() {
    assert_eq!(decimal_string(0), "0");
    assert_eq!(decimal_string(7), "7");
    assert_eq!(decimal_string(1024), "1024");
    assert_eq!(decimal_string(u64::MAX), u64::MAX.to_string());
}

#[test]
fn pipe_path_per_session() {
    assert_eq!(path(0), r"\\.\pipe\umpv-0");
    assert_eq!(path(17), r"\\.\pipe\umpv-17");
    assert_ne!(path(1), path(10));
    let mut expected: Vec<u16> = r"\\.\pipe\umpv-3".encode_utf16().collect();
    expected.push(0);
    assert_eq!(path_wide(3), expected);
}

#[test]
fn error_codes_are_unsigned() {
    assert_eq!(error_code(None), None);
    assert_eq!(error_code(Some(2)), Some(2));
    assert_eq!(error_code(Some(-1)), Some(u32::MAX));
    assert_eq!(error_code(Some(i32::MIN)), Some(0x8000_0000));
}

#[test]
fn server_exists_cases() {
    assert!(server_exists(true, None));
    assert!(server_exists(false, Some(ERROR_SEM_TIMEOUT)));
    assert!(!server_exists(false, Some(ERROR_FILE_NOT_FOUND)));
    assert!(!server_exists(false, None));
}

#[test]
fn connect_steps() {
    assert_eq!(connect(Ok(()), true), ConnectStep::Connected);
    assert_eq!(connect(Err(Some(ERROR_FILE_NOT_FOUND)), false), ConnectStep::Fail(Error::NoServer));
    assert_eq!(connect(Err(Some(ERROR_PIPE_BUSY)), false), ConnectStep::Retry);
    assert_eq!(connect(Err(Some(ERROR_PIPE_BUSY)), true), ConnectStep::Fail(Error::ConnectFailed));
    assert_eq!(connect(Err(Some(5)), false), ConnectStep::Fail(Error::ConnectFailed));
    assert_eq!(connect(Err(None), false), ConnectStep::Fail(Error::ConnectFailed));
}

#[test]
fn loadfile_command_escapes() {
    assert_eq!(loadfile_command("C:\\a b.mkv", "replace"), "raw loadfile \"C:\\\\a b.mkv\" replace\n");
    assert_eq!(
        loadfile_command("say \"hi\"\nnow", "append+play"),
        "raw loadfile \"say \\\"hi\\\"\\nnow\" append+play\n"
    );
    assert_eq!(loadfile_command("", "append"), "raw loadfile \"\" append\n");
}

#[test]
fn send_file_outcomes() {
    assert_eq!(send_file(Some(9), true), Ok(Some(9)));
    assert_eq!(send_file(None, true), Ok(None));
    assert_eq!(send_file(Some(9), false), Err(Error::WriteFailed));
}

/// Reads a quoted mpv argument whose opening quote is already consumed.
fn read_quoted(text: &str) -> Option<(String, String)> {
    let mut chars = text.chars();
    let mut value = String::new();
    while let Some(c) = chars.next() {
        match c {
            '"' => return Some((value, chars.collect())),
            '\\' => match chars.next()? {
                'n' => value.push('\n'),
                other => value.push(other),
            },
            other => value.push(other),
        }
    }
    None
}

#[test]
fn loadfile_command_reads_back_as_the_file() {
    for file in ["C:\\x\\y.mkv", "a \"b\" c", "line\nbreak\\", "\\\"\\n", ""] {
        let command = loadfile_command(file, "append");
        let rest = command.strip_prefix("raw loadfile \"").unwrap();
        assert_eq!(read_quoted(rest), Some((file.to_string(), " append\n".to_string())));
        assert_eq!(command.matches('\n').count(), 1);
        assert!(command.ends_with('\n'));
    }
}
