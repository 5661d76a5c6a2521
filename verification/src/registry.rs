//! Per-user file associations: which registry values are mpv's file
//! associations, and the steps that point them at umpv and back at mpv.
use vstd::prelude::*;

use crate::text::{str_equals, views};

verus! {

/// The ways registering umpv can fail.
#[derive(PartialEq, Eq, Structural, Clone, Copy, Debug)]
pub enum Error {
    /// mpv has registered no file associations.
    NoAssociations,
    ProgIdWriteFailed,
    NoExtensionsRegistered,
}

/// The registry key (under the current user) that lists mpv's file
/// associations.
pub const SUBKEY_FILE_ASSOCIATIONS: &'static str =
    "Software\\Clients\\Media\\mpv\\Capabilities\\FileAssociations";

/// The registry key (under the current user) of umpv's ProgID.
pub const SUBKEY_UMPV_PROG_ID: &'static str = "Software\\Classes\\io.mpv.umpv";

/// umpv's ProgID.
pub const UMPV_PROG_ID: &'static str = "io.mpv.umpv";

/// mpv's ProgID.
pub const MPV_PROG_ID: &'static str = "io.mpv.file";

/// A file extension and the ProgID it is associated with.
#[derive(Debug)]
pub struct FileAssociation {
    pub extension: String,
    pub prog_id: String,
}

impl View for FileAssociation {
    type V = (Seq<char>, Seq<char>);

    open spec fn view(&self) -> (Seq<char>, Seq<char>) {
        (self.extension@, self.prog_id@)
    }
}

/// The (extension, ProgID) pairs of a sequence of associations.
pub open spec fn association_views(a: Seq<FileAssociation>) -> Seq<(Seq<char>, Seq<char>)> {
    a.map_values(|f: FileAssociation| f@)
}

/// A registry value name that names a file extension: a dot followed by at
/// least one character.
pub open spec fn spec_is_extension_name(name: Seq<char>) -> bool {
    name.len() >= 2 && name[0] == '.'
}

/// Whether a registry value name names a file extension.
pub fn is_extension_name(name: &str) -> (r: bool)
    ensures
        r == spec_is_extension_name(name@),
{
    name.unicode_len() >= 2 && name.get_char(0) == '.'
}

/// The (name, string) pairs of registry values; the string is absent when
/// the value holds no string.
pub open spec fn value_views(values: Seq<(String, Option<String>)>) -> Seq<(Seq<char>, Option<Seq<char>>)> {
    values.map_values(
        |v: (String, Option<String>)|
            (
                v.0@,
                match v.1 {
                    Some(s) => Some(s@),
                    None => None,
                },
            ),
    )
}

/// The file associations among registry values: those whose name is a file
/// extension and that hold a string, in order.
pub open spec fn spec_read_associations(values: Seq<(Seq<char>, Option<Seq<char>>)>) -> Seq<
    (Seq<char>, Seq<char>),
>
    decreases values.len(),
{
    if values.len() == 0 {
        Seq::empty()
    } else {
        let earlier = spec_read_associations(values.drop_last());
        let (name, value) = values.last();
        match value {
            Some(prog_id) => if spec_is_extension_name(name) {
                earlier.push((name, prog_id))
            } else {
                earlier
            },
            None => earlier,
        }
    }
}

/// The file associations among the values of mpv's FileAssociations key.
pub fn read_associations(values: Vec<(String, Option<String>)>) -> (associations: Vec<
    FileAssociation,
>)
    ensures
        association_views(associations@) == spec_read_associations(value_views(values@)),
{
    let ghost s = value_views(values@);
    let mut associations: Vec<FileAssociation> = Vec::new();
    let mut i: usize = 0;
    while i < values.len()
        invariant
            s == value_views(values@),
            i <= values@.len(),
            association_views(associations@) == spec_read_associations(s.take(i as int)),
        decreases values@.len() - i,
    {
        proof {
            assert(s.take(i + 1).drop_last() =~= s.take(i as int));
            assert(s.take(i + 1).last() == s[i as int]);
        }
        let name = &values[i].0;
        if let Some(prog_id) = &values[i].1 {
            if is_extension_name(name.as_str()) {
                associations.push(
                    FileAssociation { extension: name.clone(), prog_id: prog_id.clone() },
                );
                assert(association_views(associations@) =~= association_views(
                    associations@.drop_last(),
                ).push(associations@.last()@));
            }
        }
        i = i + 1;
    }
    assert(s.take(s.len() as int) =~= s);
    associations
}

/// The extensions of a sequence of associations.
pub open spec fn extensions(a: Seq<(Seq<char>, Seq<char>)>) -> Seq<Seq<char>> {
    a.map_values(|p: (Seq<char>, Seq<char>)| p.0)
}

/// The extensions of the associations that point at umpv, in order.
pub open spec fn umpv_extensions(a: Seq<(Seq<char>, Seq<char>)>) -> Seq<Seq<char>>
    decreases a.len(),
{
    if a.len() == 0 {
        Seq::empty()
    } else if a.last().1 == UMPV_PROG_ID@ {
        umpv_extensions(a.drop_last()).push(a.last().0)
    } else {
        umpv_extensions(a.drop_last())
    }
}

/// The extensions of all the associations.
fn all_extensions(associations: &Vec<FileAssociation>) -> (r: Vec<String>)
    ensures
        views(r@) == extensions(association_views(associations@)),
{
    let mut r: Vec<String> = Vec::new();
    let mut i: usize = 0;
    while i < associations.len()
        invariant
            i <= associations@.len(),
            views(r@) == extensions(association_views(associations@)).take(i as int),
        decreases associations@.len() - i,
    {
        let extension = associations[i].extension.clone();
        let ghost before = r@;
        r.push(extension);
        assert(r@.drop_last() == before);
        assert(views(r@) =~= views(before).push(extension@));
        assert(association_views(associations@)[i as int] == associations@[i as int]@);
        assert(extensions(association_views(associations@))[i as int] == extension@);
        assert(views(r@) =~= extensions(association_views(associations@)).take(i + 1));
        i = i + 1;
    }
    assert(extensions(association_views(associations@)).take(i as int) =~= extensions(
        association_views(associations@),
    ));
    r
}

/// The extensions of the associations that point at umpv.
fn extensions_pointing_at_umpv(associations: &Vec<FileAssociation>) -> (r: Vec<String>)
    ensures
        views(r@) == umpv_extensions(association_views(associations@)),
{
    let ghost a = association_views(associations@);
    let mut r: Vec<String> = Vec::new();
    let mut i: usize = 0;
    while i < associations.len()
        invariant
            a == association_views(associations@),
            i <= associations@.len(),
            views(r@) == umpv_extensions(a.take(i as int)),
        decreases associations@.len() - i,
    {
        proof {
            assert(a.take(i + 1).drop_last() =~= a.take(i as int));
            assert(a.take(i + 1).last() == a[i as int]);
        }
        if str_equals(associations[i].prog_id.as_str(), UMPV_PROG_ID) {
            r.push(associations[i].extension.clone());
            assert(views(r@) =~= views(r@.drop_last()).push(r@.last()@));
        }
        i = i + 1;
    }
    assert(a.take(a.len() as int) =~= a);
    r
}

/// Where registering umpv stands: the registry work that is due next, or
/// the outcome.
#[derive(Debug)]
pub enum RegisterStep {
    /// Read mpv's file associations; the open command is written later.
    ReadAssociations(String),
    /// Write umpv's ProgID with this open command; these extensions are
    /// pointed at it afterwards.
    WriteProgId(Vec<String>, String),
    /// Point these extensions at the ProgID.
    SetAssociations(Vec<String>, String),
    /// Tell the shell that associations changed; so many extensions point
    /// at umpv.
    NotifyShell(usize),
    Finished(Result<usize, Error>),
}

/// The outcome of the registry work of a step.
#[derive(Debug)]
pub enum RegisterEvent {
    AssociationsRead(Vec<FileAssociation>),
    ProgIdWritten(bool),
    /// So many extensions were pointed at the ProgID.
    AssociationsSet(usize),
    ShellNotified,
}

/// A registration step, as character sequences.
pub enum RegisterStepView {
    ReadAssociations(Seq<char>),
    WriteProgId(Seq<Seq<char>>, Seq<char>),
    SetAssociations(Seq<Seq<char>>, Seq<char>),
    NotifyShell(usize),
    Finished(Result<usize, Error>),
}

/// A registration event, as character sequences.
pub enum RegisterEventView {
    AssociationsRead(Seq<(Seq<char>, Seq<char>)>),
    ProgIdWritten(bool),
    AssociationsSet(usize),
    ShellNotified,
}

impl View for RegisterStep {
    type V = RegisterStepView;

    open spec fn view(&self) -> RegisterStepView {
        match self {
            RegisterStep::ReadAssociations(c) => RegisterStepView::ReadAssociations(c@),
            RegisterStep::WriteProgId(e, c) => RegisterStepView::WriteProgId(views(e@), c@),
            RegisterStep::SetAssociations(e, p) => RegisterStepView::SetAssociations(views(e@), p@),
            RegisterStep::NotifyShell(n) => RegisterStepView::NotifyShell(*n),
            RegisterStep::Finished(r) => RegisterStepView::Finished(*r),
        }
    }
}

impl View for RegisterEvent {
    type V = RegisterEventView;

    open spec fn view(&self) -> RegisterEventView {
        match self {
            RegisterEvent::AssociationsRead(a) => RegisterEventView::AssociationsRead(
                association_views(a@),
            ),
            RegisterEvent::ProgIdWritten(w) => RegisterEventView::ProgIdWritten(*w),
            RegisterEvent::AssociationsSet(n) => RegisterEventView::AssociationsSet(*n),
            RegisterEvent::ShellNotified => RegisterEventView::ShellNotified,
        }
    }
}

/// The next step of registering umpv for all of mpv's file extensions: with
/// no associations it fails; otherwise it writes umpv's ProgID with the open
/// command, points every extension at it, and notifies the shell once at
/// least one extension was set. An event that does not answer the step
/// leaves it unchanged.
pub open spec fn spec_register_step(step: RegisterStepView, event: RegisterEventView) -> RegisterStepView {
    match (step, event) {
        (RegisterStepView::ReadAssociations(command), RegisterEventView::AssociationsRead(a)) => {
            if a.len() == 0 {
                RegisterStepView::Finished(Err(Error::NoAssociations))
            } else {
                RegisterStepView::WriteProgId(extensions(a), command)
            }
        },
        (RegisterStepView::WriteProgId(e, _), RegisterEventView::ProgIdWritten(written)) => {
            if written {
                RegisterStepView::SetAssociations(e, UMPV_PROG_ID@)
            } else {
                RegisterStepView::Finished(Err(Error::ProgIdWriteFailed))
            }
        },
        (RegisterStepView::SetAssociations(_, _), RegisterEventView::AssociationsSet(count)) => {
            if count == 0 {
                RegisterStepView::Finished(Err(Error::NoExtensionsRegistered))
            } else {
                RegisterStepView::NotifyShell(count)
            }
        },
        (RegisterStepView::NotifyShell(count), RegisterEventView::ShellNotified) => {
            RegisterStepView::Finished(Ok(count))
        },
        _ => step,
    }
}

/// The next step of registering umpv.
pub fn register(step: RegisterStep, event: RegisterEvent) -> (next: RegisterStep)
    ensures
        next@ == spec_register_step(step@, event@),
{
    match (step, event) {
        (RegisterStep::ReadAssociations(command), RegisterEvent::AssociationsRead(a)) => {
            if a.len() == 0 {
                RegisterStep::Finished(Err(Error::NoAssociations))
            } else {
                RegisterStep::WriteProgId(all_extensions(&a), command)
            }
        },
        (RegisterStep::WriteProgId(e, command), RegisterEvent::ProgIdWritten(written)) => {
            if written {
                RegisterStep::SetAssociations(e, UMPV_PROG_ID.to_owned())
            } else {
                RegisterStep::Finished(Err(Error::ProgIdWriteFailed))
            }
        },
        (RegisterStep::SetAssociations(e, p), RegisterEvent::AssociationsSet(count)) => {
            if count == 0 {
                RegisterStep::Finished(Err(Error::NoExtensionsRegistered))
            } else {
                RegisterStep::NotifyShell(count)
            }
        },
        (RegisterStep::NotifyShell(count), RegisterEvent::ShellNotified) => {
            RegisterStep::Finished(Ok(count))
        },
        (step, _) => step,
    }
}

/// What unregistering umpv did.
#[derive(PartialEq, Eq, Structural, Clone, Copy, Debug)]
pub struct Unregistered {
    /// So many extensions were pointed back at mpv.
    pub extension_count: usize,
    /// umpv's ProgID was removed.
    pub removed_prog_id: bool,
}

/// Where unregistering umpv stands: the registry work that is due next, or
/// the outcome.
#[derive(Debug)]
pub enum UnregisterStep {
    ReadAssociations,
    /// Point these extensions at the ProgID.
    SetAssociations(Vec<String>, String),
    /// Remove umpv's ProgID; so many extensions were pointed back at mpv.
    RemoveProgId(usize),
    NotifyShell(Unregistered),
    Finished(Unregistered),
}

/// The outcome of the registry work of a step.
#[derive(Debug)]
pub enum UnregisterEvent {
    AssociationsRead(Vec<FileAssociation>),
    /// So many extensions were pointed at the ProgID.
    AssociationsSet(usize),
    ProgIdRemoved(bool),
    ShellNotified,
}

/// An unregistration step, as character sequences.
pub enum UnregisterStepView {
    ReadAssociations,
    SetAssociations(Seq<Seq<char>>, Seq<char>),
    RemoveProgId(usize),
    NotifyShell(Unregistered),
    Finished(Unregistered),
}

/// An unregistration event, as character sequences.
pub enum UnregisterEventView {
    AssociationsRead(Seq<(Seq<char>, Seq<char>)>),
    AssociationsSet(usize),
    ProgIdRemoved(bool),
    ShellNotified,
}

impl View for UnregisterStep {
    type V = UnregisterStepView;

    open spec fn view(&self) -> UnregisterStepView {
        match self {
            UnregisterStep::ReadAssociations => UnregisterStepView::ReadAssociations,
            UnregisterStep::SetAssociations(e, p) => UnregisterStepView::SetAssociations(
                views(e@),
                p@,
            ),
            UnregisterStep::RemoveProgId(n) => UnregisterStepView::RemoveProgId(*n),
            UnregisterStep::NotifyShell(u) => UnregisterStepView::NotifyShell(*u),
            UnregisterStep::Finished(u) => UnregisterStepView::Finished(*u),
        }
    }
}

impl View for UnregisterEvent {
    type V = UnregisterEventView;

    open spec fn view(&self) -> UnregisterEventView {
        match self {
            UnregisterEvent::AssociationsRead(a) => UnregisterEventView::AssociationsRead(
                association_views(a@),
            ),
            UnregisterEvent::AssociationsSet(n) => UnregisterEventView::AssociationsSet(*n),
            UnregisterEvent::ProgIdRemoved(r) => UnregisterEventView::ProgIdRemoved(*r),
            UnregisterEvent::ShellNotified => UnregisterEventView::ShellNotified,
        }
    }
}

/// The next step of unregistering umpv: only the extensions that point at
/// umpv are pointed back at mpv, umpv's ProgID is removed, and the shell is
/// notified when anything changed. An event that does not answer the step
/// leaves it unchanged.
pub open spec fn spec_unregister_step(step: UnregisterStepView, event: UnregisterEventView) -> UnregisterStepView {
    match (step, event) {
        (UnregisterStepView::ReadAssociations, UnregisterEventView::AssociationsRead(a)) => {
            UnregisterStepView::SetAssociations(umpv_extensions(a), MPV_PROG_ID@)
        },
        (UnregisterStepView::SetAssociations(_, _), UnregisterEventView::AssociationsSet(count)) => {
            UnregisterStepView::RemoveProgId(count)
        },
        (UnregisterStepView::RemoveProgId(count), UnregisterEventView::ProgIdRemoved(removed)) => {
            let done = Unregistered { extension_count: count, removed_prog_id: removed };
            if count > 0 || removed {
                UnregisterStepView::NotifyShell(done)
            } else {
                UnregisterStepView::Finished(done)
            }
        },
        (UnregisterStepView::NotifyShell(done), UnregisterEventView::ShellNotified) => {
            UnregisterStepView::Finished(done)
        },
        _ => step,
    }
}

/// The next step of unregistering umpv.
pub fn unregister(step: UnregisterStep, event: UnregisterEvent) -> (next: UnregisterStep)
    ensures
        next@ == spec_unregister_step(step@, event@),
{
    match (step, event) {
        (UnregisterStep::ReadAssociations, UnregisterEvent::AssociationsRead(a)) => {
            UnregisterStep::SetAssociations(extensions_pointing_at_umpv(&a), MPV_PROG_ID.to_owned())
        },
        (UnregisterStep::SetAssociations(_, _), UnregisterEvent::AssociationsSet(count)) => {
            UnregisterStep::RemoveProgId(count)
        },
        (UnregisterStep::RemoveProgId(count), UnregisterEvent::ProgIdRemoved(removed)) => {
            let done = Unregistered { extension_count: count, removed_prog_id: removed };
            if count > 0 || removed {
                UnregisterStep::NotifyShell(done)
            } else {
                UnregisterStep::Finished(done)
            }
        },
        (UnregisterStep::NotifyShell(done), UnregisterEvent::ShellNotified) => {
            UnregisterStep::Finished(done)
        },
        (step, _) => step,
    }
}

/// Only extension names are read as associations, each with a value that
/// the registry holds under that name.
pub proof fn lemma_read_associations_are_extensions(values: Seq<(Seq<char>, Option<Seq<char>>)>)
    ensures
        forall|i: int|
            0 <= i < spec_read_associations(values).len() ==> {
                let (name, prog_id) = #[trigger] spec_read_associations(values)[i];
                spec_is_extension_name(name) && exists|j: int|
                    0 <= j < values.len() && values[j] == (name, Some(prog_id))
            },
    decreases values.len(),
{
    if values.len() > 0 {
        let prefix = values.drop_last();
        lemma_read_associations_are_extensions(prefix);
        let earlier = spec_read_associations(prefix);
        let all = spec_read_associations(values);
        assert forall|i: int| 0 <= i < all.len() implies {
            let (name, prog_id) = #[trigger] all[i];
            spec_is_extension_name(name) && exists|j: int|
                0 <= j < values.len() && values[j] == (name, Some(prog_id))
        } by {
            if i < earlier.len() {
                assert(all[i] == earlier[i]);
                let (name, prog_id) = earlier[i];
                let j = choose|j: int| 0 <= j < prefix.len() && prefix[j] == (name, Some(prog_id));
                assert(values[j] == prefix[j]);
            } else {
                assert(values[values.len() - 1] == values.last());
            }
        }
    }
}

/// Unregistering points back at mpv exactly the extensions that point at
/// umpv: each of them points at umpv, and every extension that points at
/// umpv is among them.
pub proof fn lemma_umpv_extensions_exact(a: Seq<(Seq<char>, Seq<char>)>)
    ensures
        forall|k: int|
            0 <= k < umpv_extensions(a).len() ==> exists|i: int|
                0 <= i < a.len() && a[i] == (#[trigger] umpv_extensions(a)[k], UMPV_PROG_ID@),
        forall|i: int|
            0 <= i < a.len() && (#[trigger] a[i]).1 == UMPV_PROG_ID@ ==> umpv_extensions(
                a,
            ).contains(a[i].0),
    decreases a.len(),
{
    if a.len() > 0 {
        let prefix = a.drop_last();
        lemma_umpv_extensions_exact(prefix);
        let earlier = umpv_extensions(prefix);
        let all = umpv_extensions(a);
        assert forall|k: int| 0 <= k < all.len() implies exists|i: int|
            0 <= i < a.len() && a[i] == (#[trigger] all[k], UMPV_PROG_ID@) by {
            if k < earlier.len() {
                assert(all[k] == earlier[k]);
                let i = choose|i: int| 0 <= i < prefix.len() && prefix[i] == (earlier[k], UMPV_PROG_ID@);
                assert(a[i] == prefix[i]);
            } else {
                assert(a[a.len() - 1] == a.last());
            }
        }
        assert forall|i: int| 0 <= i < a.len() && (#[trigger] a[i]).1 == UMPV_PROG_ID@ implies all.contains(
            a[i].0,
        ) by {
            if i < prefix.len() {
                assert(a[i] == prefix[i]);
                assert(prefix[i].1 == UMPV_PROG_ID@);
                assert(earlier.contains(prefix[i].0));
                let k = choose|k: int| 0 <= k < earlier.len() && earlier[k] == prefix[i].0;
                assert(all[k] == earlier[k]);
            } else {
                assert(all[all.len() - 1] == a.last().0);
            }
        }
    }
}

/// Every value that names an extension and holds a string is read as an
/// association.
pub proof fn lemma_read_associations_complete(values: Seq<(Seq<char>, Option<Seq<char>>)>)
    ensures
        forall|j: int|
            0 <= j < values.len() && spec_is_extension_name((#[trigger] values[j]).0)
                && values[j].1 is Some ==> spec_read_associations(values).contains(
                (values[j].0, values[j].1->0),
            ),
    decreases values.len(),
{
    if values.len() > 0 {
        let prefix = values.drop_last();
        lemma_read_associations_complete(prefix);
        let earlier = spec_read_associations(prefix);
        let all = spec_read_associations(values);
        assert forall|j: int|
            0 <= j < values.len() && spec_is_extension_name((#[trigger] values[j]).0)
                && values[j].1 is Some implies all.contains((values[j].0, values[j].1->0)) by {
            if j < prefix.len() {
                assert(values[j] == prefix[j]);
                assert(earlier.contains((prefix[j].0, prefix[j].1->0)));
                let k = choose|k: int| 0 <= k < earlier.len() && earlier[k] == (prefix[j].0, prefix[j].1->0);
                assert(all[k] == earlier[k]);
            } else {
                assert(values[j] == values.last());
                assert(all[all.len() - 1] == (values[j].0, values[j].1->0));
            }
        }
    }
}

/// The per-user registry as far as umpv touches it: the values of mpv's
/// FileAssociations key (name and, when it holds a string, the string), and
/// the open command of umpv's ProgID key, absent when that key does not
/// exist. Value names within one key are distinct.
pub struct RegistryModel {
    pub values: Seq<(Seq<char>, Option<Seq<char>>)>,
    pub umpv_command: Option<Seq<char>>,
}

/// The FileAssociations values after each of these extensions is set to the
/// ProgID.
pub open spec fn set_values(
    values: Seq<(Seq<char>, Option<Seq<char>>)>,
    extensions: Seq<Seq<char>>,
    prog_id: Seq<char>,
) -> Seq<(Seq<char>, Option<Seq<char>>)> {
    values.map_values(
        |v: (Seq<char>, Option<Seq<char>>)|
            if extensions.contains(v.0) {
                (v.0, Some(prog_id))
            } else {
                v
            },
    )
}

/// The registry work that a registration step asks for, when every registry
/// operation succeeds: the event it answers with, the registry afterwards,
/// and whether the shell was notified.
pub open spec fn register_effect(step: RegisterStepView, registry: RegistryModel) -> (
    RegisterEventView,
    RegistryModel,
    bool,
) {
    match step {
        RegisterStepView::ReadAssociations(_) => (
            RegisterEventView::AssociationsRead(spec_read_associations(registry.values)),
            registry,
            false,
        ),
        RegisterStepView::WriteProgId(_, command) => (
            RegisterEventView::ProgIdWritten(true),
            RegistryModel { values: registry.values, umpv_command: Some(command) },
            false,
        ),
        RegisterStepView::SetAssociations(e, prog_id) => (
            RegisterEventView::AssociationsSet(e.len() as usize),
            RegistryModel {
                values: set_values(registry.values, e, prog_id),
                umpv_command: registry.umpv_command,
            },
            false,
        ),
        RegisterStepView::NotifyShell(_) => (RegisterEventView::ShellNotified, registry, true),
        RegisterStepView::Finished(_) => (RegisterEventView::ShellNotified, registry, false),
    }
}

/// Registration steps driven against the registry for at most `fuel` steps:
/// the step reached, the registry afterwards, and whether the shell was
/// notified.
pub open spec fn drive_register(step: RegisterStepView, registry: RegistryModel, fuel: nat) -> (
    RegisterStepView,
    RegistryModel,
    bool,
)
    decreases fuel,
{
    if fuel == 0 || step is Finished {
        (step, registry, false)
    } else {
        let (event, after, notified) = register_effect(step, registry);
        let (last, end, later) = drive_register(
            spec_register_step(step, event),
            after,
            (fuel - 1) as nat,
        );
        (last, end, notified || later)
    }
}

/// A whole registration with this open command, when every registry
/// operation succeeds.
pub open spec fn spec_register_run(command: Seq<char>, registry: RegistryModel) -> (
    RegisterStepView,
    RegistryModel,
    bool,
) {
    drive_register(RegisterStepView::ReadAssociations(command), registry, 4)
}

/// The registry work that an unregistration step asks for, when every
/// registry operation succeeds (removing a ProgID key that does not exist
/// reports failure): the event it answers with, the registry afterwards,
/// and whether the shell was notified.
pub open spec fn unregister_effect(step: UnregisterStepView, registry: RegistryModel) -> (
    UnregisterEventView,
    RegistryModel,
    bool,
) {
    match step {
        UnregisterStepView::ReadAssociations => (
            UnregisterEventView::AssociationsRead(spec_read_associations(registry.values)),
            registry,
            false,
        ),
        UnregisterStepView::SetAssociations(e, prog_id) => (
            UnregisterEventView::AssociationsSet(e.len() as usize),
            RegistryModel {
                values: set_values(registry.values, e, prog_id),
                umpv_command: registry.umpv_command,
            },
            false,
        ),
        UnregisterStepView::RemoveProgId(_) => (
            UnregisterEventView::ProgIdRemoved(registry.umpv_command is Some),
            RegistryModel { values: registry.values, umpv_command: None },
            false,
        ),
        UnregisterStepView::NotifyShell(_) => (UnregisterEventView::ShellNotified, registry, true),
        UnregisterStepView::Finished(_) => (UnregisterEventView::ShellNotified, registry, false),
    }
}

/// Unregistration steps driven against the registry for at most `fuel`
/// steps: the step reached, the registry afterwards, and whether the shell
/// was notified.
pub open spec fn drive_unregister(step: UnregisterStepView, registry: RegistryModel, fuel: nat) -> (
    UnregisterStepView,
    RegistryModel,
    bool,
)
    decreases fuel,
{
    if fuel == 0 || step is Finished {
        (step, registry, false)
    } else {
        let (event, after, notified) = unregister_effect(step, registry);
        let (last, end, later) = drive_unregister(
            spec_unregister_step(step, event),
            after,
            (fuel - 1) as nat,
        );
        (last, end, notified || later)
    }
}

/// A whole unregistration, when every registry operation succeeds.
pub open spec fn spec_unregister_run(registry: RegistryModel) -> (
    UnregisterStepView,
    RegistryModel,
    bool,
) {
    drive_unregister(UnregisterStepView::ReadAssociations, registry, 4)
}

/// The associations with every ProgID replaced.
pub open spec fn with_prog_id(a: Seq<(Seq<char>, Seq<char>)>, prog_id: Seq<char>) -> Seq<
    (Seq<char>, Seq<char>),
> {
    a.map_values(|x: (Seq<char>, Seq<char>)| (x.0, prog_id))
}

/// Setting extensions that are exactly the string-valued extension names
/// changes only the ProgIDs of what is read back.
proof fn lemma_read_after_set(
    values: Seq<(Seq<char>, Option<Seq<char>>)>,
    e: Seq<Seq<char>>,
    prog_id: Seq<char>,
)
    requires
        forall|j: int|
            0 <= j < values.len() && spec_is_extension_name((#[trigger] values[j]).0)
                && values[j].1 is Some ==> e.contains(values[j].0),
        forall|j: int|
            0 <= j < values.len() && spec_is_extension_name((#[trigger] values[j]).0)
                && values[j].1 is None ==> !e.contains(values[j].0),
    ensures
        spec_read_associations(set_values(values, e, prog_id)) == with_prog_id(
            spec_read_associations(values),
            prog_id,
        ),
    decreases values.len(),
{
    if values.len() > 0 {
        let prefix = values.drop_last();
        assert forall|j: int|
            0 <= j < prefix.len() && spec_is_extension_name((#[trigger] prefix[j]).0)
                && prefix[j].1 is Some implies e.contains(prefix[j].0) by {
            assert(prefix[j] == values[j]);
        }
        assert forall|j: int|
            0 <= j < prefix.len() && spec_is_extension_name((#[trigger] prefix[j]).0)
                && prefix[j].1 is None implies !e.contains(prefix[j].0) by {
            assert(prefix[j] == values[j]);
        }
        lemma_read_after_set(prefix, e, prog_id);
        let set = set_values(values, e, prog_id);
        assert(set.drop_last() =~= set_values(prefix, e, prog_id));
        let last = values.last();
        assert(values[values.len() - 1] == last);
        let earlier = spec_read_associations(prefix);
        if spec_is_extension_name(last.0) && last.1 is Some {
            assert(with_prog_id(earlier.push((last.0, last.1->0)), prog_id) =~= with_prog_id(
                earlier,
                prog_id,
            ).push((last.0, prog_id)));
        }
    }
}

/// The extensions that point at umpv, once every association does.
proof fn lemma_umpv_extensions_of_all(a: Seq<(Seq<char>, Seq<char>)>)
    ensures
        umpv_extensions(with_prog_id(a, UMPV_PROG_ID@)) == extensions(a),
    decreases a.len(),
{
    if a.len() > 0 {
        lemma_umpv_extensions_of_all(a.drop_last());
        assert(with_prog_id(a, UMPV_PROG_ID@).drop_last() =~= with_prog_id(
            a.drop_last(),
            UMPV_PROG_ID@,
        ));
        assert(extensions(a) =~= extensions(a.drop_last()).push(a.last().0));
    }
}

/// An extension among the associations read is the name of a string value.
proof fn lemma_extension_has_value(values: Seq<(Seq<char>, Option<Seq<char>>)>, name: Seq<char>)
    requires
        extensions(spec_read_associations(values)).contains(name),
    ensures
        exists|j: int|
            0 <= j < values.len() && values[j].0 == name && values[j].1 is Some
                && spec_is_extension_name(name) && spec_read_associations(values).contains(
                (name, values[j].1->0),
            ),
{
    lemma_read_associations_are_extensions(values);
    let r = spec_read_associations(values);
    let k = choose|k: int| 0 <= k < extensions(r).len() && extensions(r)[k] == name;
    let (n, p) = r[k];
    assert(n == name);
    let j = choose|j: int| 0 <= j < values.len() && values[j] == (n, Some(p));
    assert(r.contains((name, values[j].1->0)));
}

/// Unregistering twice: once an unregistration has run with every registry
/// operation succeeding, a second one finds nothing pointing at umpv and no
/// ProgID, writes no value, leaves the registry as it is, reports nothing
/// unregistered and does not notify the shell.
pub proof fn lemma_unregister_twice(registry: RegistryModel)
    ensures
        ({
            let (_, after, _) = spec_unregister_run(registry);
            spec_unregister_run(after) == (
                UnregisterStepView::Finished(
                    Unregistered { extension_count: 0, removed_prog_id: false },
                ),
                after,
                false,
            )
        }),
{
    reveal_with_fuel(drive_unregister, 5);
    reveal_strlit("io.mpv.umpv");
    reveal_strlit("io.mpv.file");
    let values = registry.values;
    let read = spec_read_associations(values);
    let u = umpv_extensions(read);
    let values1 = set_values(values, u, MPV_PROG_ID@);
    let (_, after, _) = spec_unregister_run(registry);
    assert(after == RegistryModel { values: values1, umpv_command: None });
    let read1 = spec_read_associations(values1);
    lemma_read_associations_are_extensions(values1);
    lemma_read_associations_complete(values);
    lemma_umpv_extensions_exact(read);
    lemma_umpv_extensions_exact(read1);
    assert(UMPV_PROG_ID@ != MPV_PROG_ID@) by {
        assert(UMPV_PROG_ID@[7] != MPV_PROG_ID@[7]);
    }
    assert forall|k: int| 0 <= k < read1.len() implies (#[trigger] read1[k]).1 != UMPV_PROG_ID@ by {
        let (name, prog) = read1[k];
        let j = choose|j: int| 0 <= j < values1.len() && values1[j] == (name, Some(prog));
        if prog == UMPV_PROG_ID@ {
            if u.contains(values[j].0) {
                assert(values1[j] == (values[j].0, Some(MPV_PROG_ID@)));
            } else {
                assert(values1[j] == values[j]);
                assert(read.contains((name, UMPV_PROG_ID@)));
                let i = choose|i: int| 0 <= i < read.len() && read[i] == (name, UMPV_PROG_ID@);
                assert(read[i].1 == UMPV_PROG_ID@);
            }
        }
    }
    let u1 = umpv_extensions(read1);
    if u1.len() > 0 {
        let i = choose|i: int| 0 <= i < read1.len() && read1[i] == (u1[0], UMPV_PROG_ID@);
        assert(read1[i].1 == UMPV_PROG_ID@);
    }
    assert(u1 =~= Seq::<Seq<char>>::empty());
    assert(set_values(values1, u1, MPV_PROG_ID@) =~= values1);
}

/// Registering and then unregistering restores the registry: when every
/// association points at mpv, umpv's ProgID key does not exist, and every
/// registry operation succeeds, a registration that reports `n` extensions
/// is undone by an unregistration that points the same `n` extensions back
/// at mpv, removes the ProgID and notifies the shell, leaving the registry
/// as it was before.
pub proof fn lemma_register_then_unregister(command: Seq<char>, registry: RegistryModel, n: usize)
    requires
        forall|i: int|
            0 <= i < spec_read_associations(registry.values).len() ==> (
            #[trigger] spec_read_associations(registry.values)[i]).1 == MPV_PROG_ID@,
        registry.umpv_command is None,
        forall|i: int, j: int|
            0 <= i < j < registry.values.len() ==> registry.values[i].0 != registry.values[j].0,
        spec_register_run(command, registry).0 == RegisterStepView::Finished(
            Ok::<usize, Error>(n),
        ),
    ensures
        spec_unregister_run(spec_register_run(command, registry).1) == (
            UnregisterStepView::Finished(Unregistered { extension_count: n, removed_prog_id: true }),
            registry,
            true,
        ),
{
    reveal_with_fuel(drive_register, 5);
    reveal_with_fuel(drive_unregister, 5);
    let values = registry.values;
    let read = spec_read_associations(values);
    let e = extensions(read);
    lemma_read_associations_complete(values);
    lemma_read_associations_are_extensions(values);
    assert(read.len() > 0);
    assert forall|j: int|
        0 <= j < values.len() && spec_is_extension_name((#[trigger] values[j]).0)
            && values[j].1 is Some implies e.contains(values[j].0) by {
        let k = choose|k: int| 0 <= k < read.len() && read[k] == (values[j].0, values[j].1->0);
        assert(e[k] == values[j].0);
    }
    assert forall|j: int|
        0 <= j < values.len() && spec_is_extension_name((#[trigger] values[j]).0)
            && values[j].1 is None implies !e.contains(values[j].0) by {
        if e.contains(values[j].0) {
            lemma_extension_has_value(values, values[j].0);
            let j2 = choose|j2: int|
                0 <= j2 < values.len() && values[j2].0 == values[j].0 && values[j2].1 is Some;
            assert(j2 != j);
        }
    }
    let values2 = set_values(values, e, UMPV_PROG_ID@);
    let registered = RegistryModel { values: values2, umpv_command: Some(command) };
    assert(spec_register_run(command, registry).1 == registered);
    lemma_read_after_set(values, e, UMPV_PROG_ID@);
    lemma_umpv_extensions_of_all(read);
    let values3 = set_values(values2, e, MPV_PROG_ID@);
    assert forall|j: int| 0 <= j < values.len() implies values3[j] == values[j] by {
        if e.contains(values[j].0) {
            lemma_extension_has_value(values, values[j].0);
            let j2 = choose|j2: int|
                0 <= j2 < values.len() && values[j2].0 == values[j].0 && values[j2].1 is Some
                    && spec_is_extension_name(values[j].0) && read.contains(
                    (values[j].0, values[j2].1->0),
                );
            assert(j2 == j);
            let k = choose|k: int| 0 <= k < read.len() && read[k] == (values[j].0, values[j2].1->0);
            assert(read[k].1 == MPV_PROG_ID@);
        }
    }
    assert(values3 =~= values);
}

/// Removing the ProgID step records what happened: the outcome holds the
/// number of extensions pointed back at mpv and whether the ProgID was
/// removed, as they were, and the shell is notified exactly when either
/// changed something.
pub proof fn lemma_unregister_records_outcome(count: usize, removed: bool)
    ensures
        ({
            let done = Unregistered { extension_count: count, removed_prog_id: removed };
            spec_unregister_step(
                UnregisterStepView::RemoveProgId(count),
                UnregisterEventView::ProgIdRemoved(removed),
            ) == if count > 0 || removed {
                UnregisterStepView::NotifyShell(done)
            } else {
                UnregisterStepView::Finished(done)
            }
        }),
        spec_unregister_step(
            UnregisterStepView::NotifyShell(Unregistered { extension_count: count, removed_prog_id: removed }),
            UnregisterEventView::ShellNotified,
        ) == UnregisterStepView::Finished(
            Unregistered { extension_count: count, removed_prog_id: removed },
        ),
{
}

/// A value name names a file extension exactly when it is a dot followed
/// by at least one character.
pub proof fn lemma_extension_name_cases(name: Seq<char>)
    ensures
        spec_is_extension_name(name) == (name.len() >= 2 && name[0] == '.'),
{
}

/// The registry names umpv uses: mpv's FileAssociations key, umpv's ProgID
/// key under the current user's classes, and the two ProgIDs.
pub proof fn lemma_registry_names()
    ensures
        SUBKEY_FILE_ASSOCIATIONS@ == "Software\\Clients\\Media\\mpv\\Capabilities\\FileAssociations"@,
        SUBKEY_UMPV_PROG_ID@ == "Software\\Classes\\io.mpv.umpv"@,
        UMPV_PROG_ID@ == "io.mpv.umpv"@,
        MPV_PROG_ID@ == "io.mpv.file"@,
        UMPV_PROG_ID@ != MPV_PROG_ID@,
{
    reveal_strlit("io.mpv.umpv");
    reveal_strlit("io.mpv.file");
    assert(UMPV_PROG_ID@[7] != MPV_PROG_ID@[7]);
}

/// Registration: with no associations it fails at once; otherwise the
/// ProgID is written with the given command and then every extension read,
/// in order, is pointed at umpv's ProgID; a failed write or no extension
/// set ends it with that failure; after the shell is notified it reports
/// the extensions set.
pub proof fn lemma_register_step_cases(
    command: Seq<char>,
    a: Seq<(Seq<char>, Seq<char>)>,
    e: Seq<Seq<char>>,
    written: bool,
    count: usize,
)
    ensures
        a.len() == 0 ==> spec_register_step(
            RegisterStepView::ReadAssociations(command),
            RegisterEventView::AssociationsRead(a),
        ) == RegisterStepView::Finished(Err::<usize, Error>(Error::NoAssociations)),
        a.len() > 0 ==> (spec_register_step(
            RegisterStepView::ReadAssociations(command),
            RegisterEventView::AssociationsRead(a),
        ) matches RegisterStepView::WriteProgId(exts, c) && c == command && exts.len() == a.len()
            && forall|i: int| 0 <= i < a.len() ==> exts[i] == (#[trigger] a[i]).0),
        spec_register_step(
            RegisterStepView::WriteProgId(e, command),
            RegisterEventView::ProgIdWritten(written),
        ) == if written {
            RegisterStepView::SetAssociations(e, "io.mpv.umpv"@)
        } else {
            RegisterStepView::Finished(Err::<usize, Error>(Error::ProgIdWriteFailed))
        },
        spec_register_step(
            RegisterStepView::SetAssociations(e, "io.mpv.umpv"@),
            RegisterEventView::AssociationsSet(count),
        ) == if count == 0 {
            RegisterStepView::Finished(Err::<usize, Error>(Error::NoExtensionsRegistered))
        } else {
            RegisterStepView::NotifyShell(count)
        },
        spec_register_step(
            RegisterStepView::NotifyShell(count),
            RegisterEventView::ShellNotified,
        ) == RegisterStepView::Finished(Ok::<usize, Error>(count)),
{
}

/// Unregistration starts by pointing back at mpv's ProgID exactly the
/// extensions that point at umpv's, and then removes umpv's ProgID.
pub proof fn lemma_unregister_first_steps(a: Seq<(Seq<char>, Seq<char>)>, e: Seq<Seq<char>>, p: Seq<char>, count: usize)
    ensures
        (spec_unregister_step(
            UnregisterStepView::ReadAssociations,
            UnregisterEventView::AssociationsRead(a),
        ) matches UnregisterStepView::SetAssociations(exts, prog_id) && prog_id == "io.mpv.file"@
            && (forall|k: int|
            0 <= k < exts.len() ==> exists|i: int|
                0 <= i < a.len() && a[i] == (#[trigger] exts[k], "io.mpv.umpv"@)) && (forall|
            i: int,
        |
            0 <= i < a.len() && (#[trigger] a[i]).1 == "io.mpv.umpv"@ ==> exts.contains(a[i].0))),
        spec_unregister_step(
            UnregisterStepView::SetAssociations(e, p),
            UnregisterEventView::AssociationsSet(count),
        ) == UnregisterStepView::RemoveProgId(count),
{
    lemma_umpv_extensions_exact(a);
    lemma_registry_names();
}

} // verus!
