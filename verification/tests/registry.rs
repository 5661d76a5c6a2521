use umpv::registry::{
    is_extension_name, read_associations, register, unregister, Error, FileAssociation,
    RegisterEvent, RegisterStep, UnregisterEvent, UnregisterStep, Unregistered, MPV_PROG_ID,
    UMPV_PROG_ID,
};

fn association(extension: &str, prog_id: &str) -> FileAssociation {
    FileAssociation { extension: extension.to_string(), prog_id: prog_id.to_string() }
}

#[test]
fn extension_names() {
    assert!(is_extension_name(".mkv"));
    assert!(is_extension_name(".é"));
    assert!(!is_extension_name("."));
    assert!(!is_extension_name("mkv"));
    assert!(!is_extension_name(""));
}

#[test]
fn read_associations_keeps_string_extensions() {
    let values = vec![
        (".mkv".to_string(), Some("io.mpv.file".to_string())),
        ("".to_string(), Some("io.mpv.file".to_string())),
        (".mp4".to_string(), None),
        ("mp3".to_string(), Some("io.mpv.file".to_string())),
        (".avi".to_string(), Some("io.mpv.umpv".to_string())),
    ];
    let associations = read_associations(values);
    let pairs: Vec<(String, String)> =
        associations.into_iter().map(|a| (a.extension, a.prog_id)).collect();
    assert_eq!(
        pairs,
        vec![
            (".mkv".to_string(), "io.mpv.file".to_string()),
            (".avi".to_string(), "io.mpv.umpv".to_string())
        ]
    );
}

#[test]
fn register_run_succeeds() {
    let step = register(
        RegisterStep::ReadAssociations("\"umpv.exe\" -- \"%L\"".to_string()),
        RegisterEvent::AssociationsRead(vec![association(".mkv", MPV_PROG_ID), association(".mp4", UMPV_PROG_ID)]),
    );
    let extensions = match &step {
        RegisterStep::WriteProgId(extensions, command) => {
            assert_eq!(command, "\"umpv.exe\" -- \"%L\"");
            extensions.clone()
        }
        other => panic!("{other:?}"),
    };
    assert_eq!(extensions, vec![".mkv".to_string(), ".mp4".to_string()]);
    let step = register(step, RegisterEvent::ProgIdWritten(true));
    match &step {
        RegisterStep::SetAssociations(e, prog_id) => {
            assert_eq!(e, &extensions);
            assert_eq!(prog_id, UMPV_PROG_ID);
        }
        other => panic!("{other:?}"),
    }
    let step = register(step, RegisterEvent::AssociationsSet(2));
    assert!(matches!(step, RegisterStep::NotifyShell(2)));
    let step = register(step, RegisterEvent::ShellNotified);
    assert!(matches!(step, RegisterStep::Finished(Ok(2))));
}

#[test]
fn register_run_failures() {
    let step = register(RegisterStep::ReadAssociations("c".to_string()), RegisterEvent::AssociationsRead(Vec::new()));
    assert!(matches!(step, RegisterStep::Finished(Err(Error::NoAssociations))));

    let step = register(
        RegisterStep::WriteProgId(vec![".mkv".to_string()], "c".to_string()),
        RegisterEvent::ProgIdWritten(false),
    );
    assert!(matches!(step, RegisterStep::Finished(Err(Error::ProgIdWriteFailed))));

    let step = register(
        RegisterStep::SetAssociations(vec![".mkv".to_string()], UMPV_PROG_ID.to_string()),
        RegisterEvent::AssociationsSet(0),
    );
    assert!(matches!(step, RegisterStep::Finished(Err(Error::NoExtensionsRegistered))));

    let step = register(RegisterStep::ReadAssociations("c".to_string()), RegisterEvent::ShellNotified);
    assert!(matches!(step, RegisterStep::ReadAssociations(c) if c == "c"));
}

#[test]
fn unregister_run_restores_only_umpv_extensions() {
    let step = unregister(
        UnregisterStep::ReadAssociations,
        UnregisterEvent::AssociationsRead(vec![
            association(".mkv", UMPV_PROG_ID),
            association(".mp4", MPV_PROG_ID),
            association(".avi", UMPV_PROG_ID),
        ]),
    );
    match &step {
        UnregisterStep::SetAssociations(extensions, prog_id) => {
            assert_eq!(extensions, &vec![".mkv".to_string(), ".avi".to_string()]);
            assert_eq!(prog_id, MPV_PROG_ID);
        }
        other => panic!("{other:?}"),
    }
    let step = unregister(step, UnregisterEvent::AssociationsSet(2));
    assert!(matches!(step, UnregisterStep::RemoveProgId(2)));
    let step = unregister(step, UnregisterEvent::ProgIdRemoved(true));
    let done = Unregistered { extension_count: 2, removed_prog_id: true };
    assert!(matches!(step, UnregisterStep::NotifyShell(d) if d == done));
    let step = unregister(step, UnregisterEvent::ShellNotified);
    assert!(matches!(step, UnregisterStep::Finished(d) if d == done));
}

#[test]
fn unregister_with_nothing_to_do_skips_the_shell() {
    let step = unregister(UnregisterStep::RemoveProgId(0), UnregisterEvent::ProgIdRemoved(false));
    let done = Unregistered { extension_count: 0, removed_prog_id: false };
    assert!(matches!(step, UnregisterStep::Finished(d) if d == done));
}

/// An in-memory registry: the FileAssociations values and umpv's ProgID
/// command (absent when the key does not exist).
struct FakeRegistry {
    values: Vec<(String, Option<String>)>,
    umpv_command: Option<String>,
    notifications: usize,
}

impl FakeRegistry {
    fn set(&mut self, extensions: &[String], prog_id: &str) -> usize {
        for value in self.values.iter_mut() {
            if extensions.contains(&value.0) {
                value.1 = Some(prog_id.to_string());
            }
        }
        extensions.len()
    }

    fn register(&mut self, command: &str) -> Result<usize, Error> {
        let mut step = RegisterStep::ReadAssociations(command.to_string());
        loop {
            let event = match &step {
                RegisterStep::ReadAssociations(_) => {
                    RegisterEvent::AssociationsRead(read_associations(self.values.clone()))
                }
                RegisterStep::WriteProgId(_, command) => {
                    self.umpv_command = Some(command.clone());
                    RegisterEvent::ProgIdWritten(true)
                }
                RegisterStep::SetAssociations(extensions, prog_id) => {
                    RegisterEvent::AssociationsSet(self.set(extensions, prog_id))
                }
                RegisterStep::NotifyShell(_) => {
                    self.notifications += 1;
                    RegisterEvent::ShellNotified
                }
                RegisterStep::Finished(outcome) => return *outcome,
            };
            step = register(step, event);
        }
    }

    fn unregister(&mut self) -> Unregistered {
        let mut step = UnregisterStep::ReadAssociations;
        loop {
            let event = match &step {
                UnregisterStep::ReadAssociations => {
                    UnregisterEvent::AssociationsRead(read_associations(self.values.clone()))
                }
                UnregisterStep::SetAssociations(extensions, prog_id) => {
                    UnregisterEvent::AssociationsSet(self.set(extensions, prog_id))
                }
                UnregisterStep::RemoveProgId(_) => {
                    UnregisterEvent::ProgIdRemoved(self.umpv_command.take().is_some())
                }
                UnregisterStep::NotifyShell(_) => {
                    self.notifications += 1;
                    UnregisterEvent::ShellNotified
                }
                UnregisterStep::Finished(unregistered) => return *unregistered,
            };
            step = unregister(step, event);
        }
    }
}

fn mpv_registry() -> FakeRegistry {
    FakeRegistry {
        values: vec![
            (".mkv".to_string(), Some(MPV_PROG_ID.to_string())),
            (".mp4".to_string(), Some(MPV_PROG_ID.to_string())),
            (".bin".to_string(), None),
            ("x".to_string(), Some(UMPV_PROG_ID.to_string())),
        ],
        umpv_command: None,
        notifications: 0,
    }
}

#[test]
fn register_then_unregister_restores_the_registry() {
    let mut registry = mpv_registry();
    let before = registry.values.clone();
    assert_eq!(registry.register("cmd"), Ok(2));
    assert_eq!(registry.umpv_command.as_deref(), Some("cmd"));
    assert_eq!(registry.values[0].1.as_deref(), Some(UMPV_PROG_ID));
    assert_eq!(registry.notifications, 1);
    let done = registry.unregister();
    assert_eq!(done, Unregistered { extension_count: 2, removed_prog_id: true });
    assert_eq!(registry.values, before);
    assert_eq!(registry.umpv_command, None);
    assert_eq!(registry.notifications, 2);
}

#[test]
fn unregister_twice_changes_nothing_the_second_time() {
    let mut registry = mpv_registry();
    registry.values[1].1 = Some(UMPV_PROG_ID.to_string());
    registry.umpv_command = Some("cmd".to_string());
    assert_eq!(registry.unregister(), Unregistered { extension_count: 1, removed_prog_id: true });
    let after = registry.values.clone();
    let notified = registry.notifications;
    assert_eq!(registry.unregister(), Unregistered { extension_count: 0, removed_prog_id: false });
    assert_eq!(registry.values, after);
    assert_eq!(registry.notifications, notified);
}
