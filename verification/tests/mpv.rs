use umpv::mpv::{activate_window, find_window, ActivateStep, launch_arguments, wait_for_ipc_server, Error, FindStep, WaitStep};

#[test]
fn launch_arguments_put_the_file_after_the_marker() {
    assert_eq!(
        launch_arguments(r"\\.\pipe\umpv-1", "--file.mkv"),
        vec![r"--input-ipc-server=\\.\pipe\umpv-1".to_string(), "--".to_string(), "--file.mkv".to_string()]
    );
}

#[test]
fn wait_steps() {
    assert!(matches!(wait_for_ipc_server(true, true, true), WaitStep::Ready));
    assert!(matches!(wait_for_ipc_server(false, true, true), WaitStep::Fail(Error::Exited)));
    assert!(matches!(wait_for_ipc_server(false, false, true), WaitStep::Fail(Error::StartupTimedOut)));
    assert!(matches!(wait_for_ipc_server(false, false, false), WaitStep::Poll));
}

#[test]
fn find_window_steps() {
    assert_eq!(find_window(None, 5), FindStep::NotFound);
    assert_eq!(find_window(Some(5), 5), FindStep::Found);
    assert_eq!(find_window(Some(6), 5), FindStep::Next);
}

#[test]
fn activate_steps() {
    assert_eq!(activate_window(None), ActivateStep::NoWindow);
    assert_eq!(activate_window(Some(true)), ActivateStep::RestoreAndFocus);
    assert_eq!(activate_window(Some(false)), ActivateStep::Focus);
}
