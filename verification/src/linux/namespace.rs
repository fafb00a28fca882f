//! How a process gets a mount tree of its own.
//!
//! The process makes system calls and reports what came back; each report leads to the next call
//! or to the end.
use vstd::prelude::*;
use vstd::string::StringExecFns;

use crate::error::{ErrorView, IoFailure, IoFailureKind, SandboxError};
use crate::linux::process::ErrnoTable;
use crate::text::{decimal, number};

verus! {

/// What is to be done next to get a mount tree of one's own.
#[derive(Debug, PartialEq, Eq)]
pub enum NamespaceStep {
    /// Leave the user and the mount namespace together.
    UnshareBoth,
    /// Map the user into the new user namespace, and then go on with the mount tree.
    MapUserWithMounts,
    /// Leave the user namespace alone.
    UnshareUser,
    /// Map the user into the new user namespace, and then leave the mount namespace.
    MapUserBeforeMounts,
    /// Leave the mount namespace alone.
    UnshareMounts,
    /// Keep changes to the mount tree from spreading.
    MakePrivate,
    /// The mount tree is the process's own.
    Done,
    /// It cannot be had.
    Failed(IoFailure),
}

/// The mathematical value of a step.
pub enum StepView {
    UnshareBoth,
    MapUserWithMounts,
    UnshareUser,
    MapUserBeforeMounts,
    UnshareMounts,
    MakePrivate,
    Done,
    Failed(IoFailureKind, Option<i32>, Seq<char>),
}

impl View for NamespaceStep {
    type V = StepView;

    open spec fn view(&self) -> StepView {
        match *self {
            NamespaceStep::UnshareBoth => StepView::UnshareBoth,
            NamespaceStep::MapUserWithMounts => StepView::MapUserWithMounts,
            NamespaceStep::UnshareUser => StepView::UnshareUser,
            NamespaceStep::MapUserBeforeMounts => StepView::MapUserBeforeMounts,
            NamespaceStep::UnshareMounts => StepView::UnshareMounts,
            NamespaceStep::MakePrivate => StepView::MakePrivate,
            NamespaceStep::Done => StepView::Done,
            NamespaceStep::Failed(e) => StepView::Failed(e.kind, e.raw_os_error, e.message@),
        }
    }
}

/// The value of a report.
pub open spec fn report_view(r: Result<(), IoFailure>) -> Result<
    (),
    (IoFailureKind, Option<i32>, Seq<char>),
> {
    match r {
        Ok(_) => Ok(()),
        Err(e) => Err(e@),
    }
}

/// A failure that leaves another way to try: no permission, or not supported in this form.
pub open spec fn leaves_another_way(raw_os_error: Option<i32>, errno: ErrnoTable) -> bool {
    raw_os_error == Some(errno.eperm) || raw_os_error == Some(errno.einval)
}

/// The step that follows a report. Where both namespaces cannot be left together for want of
/// permission or support, each is tried alone, and of the two only the mount namespace has to
/// succeed. Every other failure ends the attempt.
pub open spec fn following_step(
    step: StepView,
    report: Result<(), (IoFailureKind, Option<i32>, Seq<char>)>,
    errno: ErrnoTable,
) -> StepView {
    match (step, report) {
        (StepView::UnshareBoth, Ok(_)) => StepView::MapUserWithMounts,
        (StepView::UnshareBoth, Err(e)) => if leaves_another_way(e.1, errno) {
            StepView::UnshareUser
        } else {
            StepView::Failed(e.0, None, "unshare(CLONE_NEWUSER|CLONE_NEWNS) failed: "@ + e.2)
        },
        (StepView::MapUserWithMounts, Ok(_)) => StepView::MakePrivate,
        (StepView::UnshareUser, Ok(_)) => StepView::MapUserBeforeMounts,
        (StepView::UnshareUser, Err(e)) => if leaves_another_way(e.1, errno) {
            StepView::UnshareMounts
        } else {
            StepView::Failed(e.0, None, "unshare(CLONE_NEWUSER) failed: "@ + e.2)
        },
        (StepView::MapUserBeforeMounts, Ok(_)) => StepView::UnshareMounts,
        (StepView::UnshareMounts, Ok(_)) => StepView::MakePrivate,
        (StepView::UnshareMounts, Err(e)) => StepView::Failed(
            e.0,
            None,
            "unshare(CLONE_NEWNS) failed: "@ + e.2,
        ),
        (StepView::MakePrivate, Ok(_)) => StepView::Done,
        (StepView::MakePrivate, Err(e)) => StepView::Failed(
            e.0,
            None,
            "mount(MS_PRIVATE) failed: "@ + e.2,
        ),
        (StepView::MapUserWithMounts, Err(e)) => StepView::Failed(e.0, e.1, e.2),
        (StepView::MapUserBeforeMounts, Err(e)) => StepView::Failed(e.0, e.1, e.2),
        (StepView::Done, _) => StepView::Done,
        (StepView::Failed(a, b, c), _) => StepView::Failed(a, b, c),
    }
}

/// An attempt that is over.
pub open spec fn is_final(step: StepView) -> bool {
    step is Done || step is Failed
}

/// How many reports can still follow at most.
pub open spec fn steps_left(step: StepView) -> nat {
    match step {
        StepView::UnshareBoth => 5,
        StepView::UnshareUser => 4,
        StepView::MapUserBeforeMounts => 3,
        StepView::UnshareMounts => 2,
        StepView::MapUserWithMounts => 2,
        StepView::MakePrivate => 1,
        _ => 0,
    }
}

fn another_way(raw_os_error: Option<i32>, errno: ErrnoTable) -> (r: bool)
    ensures
        r == leaves_another_way(raw_os_error, errno),
{
    match raw_os_error {
        Some(code) => code == errno.eperm || code == errno.einval,
        None => false,
    }
}

impl NamespaceStep {
    /// The step that follows a report on this one.
    pub fn next(self, report: Result<(), IoFailure>, errno: ErrnoTable) -> (r: NamespaceStep)
        ensures
            r@ == following_step(self@, report_view(report), errno),
    {
        match self {
            NamespaceStep::UnshareBoth => match report {
                Ok(_) => NamespaceStep::MapUserWithMounts,
                Err(e) => if another_way(e.raw_os_error, errno) {
                    NamespaceStep::UnshareUser
                } else {
                    NamespaceStep::Failed(e.within("unshare(CLONE_NEWUSER|CLONE_NEWNS) failed: "))
                },
            },
            NamespaceStep::MapUserWithMounts => match report {
                Ok(_) => NamespaceStep::MakePrivate,
                Err(e) => NamespaceStep::Failed(e),
            },
            NamespaceStep::UnshareUser => match report {
                Ok(_) => NamespaceStep::MapUserBeforeMounts,
                Err(e) => if another_way(e.raw_os_error, errno) {
                    NamespaceStep::UnshareMounts
                } else {
                    NamespaceStep::Failed(e.within("unshare(CLONE_NEWUSER) failed: "))
                },
            },
            NamespaceStep::MapUserBeforeMounts => match report {
                Ok(_) => NamespaceStep::UnshareMounts,
                Err(e) => NamespaceStep::Failed(e),
            },
            NamespaceStep::UnshareMounts => match report {
                Ok(_) => NamespaceStep::MakePrivate,
                Err(e) => NamespaceStep::Failed(e.within("unshare(CLONE_NEWNS) failed: ")),
            },
            NamespaceStep::MakePrivate => match report {
                Ok(_) => NamespaceStep::Done,
                Err(e) => NamespaceStep::Failed(e.within("mount(MS_PRIVATE) failed: ")),
            },
            NamespaceStep::Done => NamespaceStep::Done,
            NamespaceStep::Failed(e) => NamespaceStep::Failed(e),
        }
    }
}

/// The attempt to get a mount tree comes to an end: every report brings it nearer to one.
pub proof fn every_report_brings_the_end_nearer(
    step: StepView,
    report: Result<(), (IoFailureKind, Option<i32>, Seq<char>)>,
    errno: ErrnoTable,
)
    requires
        !is_final(step),
    ensures
        steps_left(following_step(step, report, errno)) < steps_left(step),
        steps_left(following_step(step, report, errno)) == 0 <==> is_final(
            following_step(step, report, errno),
        ),
{
}

/// The mount tree counts as the process's own only after it was made private.
pub proof fn success_means_a_private_tree(
    step: StepView,
    report: Result<(), (IoFailureKind, Option<i32>, Seq<char>)>,
    errno: ErrnoTable,
)
    requires
        !is_final(step),
        following_step(step, report, errno) is Done,
    ensures
        step is MakePrivate,
        report is Ok,
{
}

/// What is done to map the user into a new user namespace, in this order.
#[derive(Debug, Clone, Copy, PartialEq, Eq, Structural)]
pub enum MappingStep {
    WriteSetgroups,
    WriteUidMap,
    WriteGidMap,
    SetGroup,
    SetUser,
}

/// The text in front of the error of a step.
pub open spec fn mapping_context(step: MappingStep) -> Seq<char> {
    match step {
        MappingStep::WriteSetgroups => "writing /proc/self/setgroups failed: "@,
        MappingStep::WriteUidMap => "writing /proc/self/uid_map failed: "@,
        MappingStep::WriteGidMap => "writing /proc/self/gid_map failed: "@,
        MappingStep::SetGroup => "setresgid(0,0,0) failed: "@,
        MappingStep::SetUser => "setresuid(0,0,0) failed: "@,
    }
}

/// How the failure of a step is reported; a system without the setgroups file needs no entry
/// in it, so that this one failure counts as success.
pub fn mapping_failure(step: MappingStep, failure: &IoFailure) -> (r: Option<IoFailure>)
    ensures
        match r {
            None => step == MappingStep::WriteSetgroups && failure.kind == IoFailureKind::NotFound,
            Some(e) => !(step == MappingStep::WriteSetgroups && failure.kind
                == IoFailureKind::NotFound) && e@ == (
                failure.kind,
                None::<i32>,
                mapping_context(step) + failure.message@,
            ),
        },
{
    match step {
        MappingStep::WriteSetgroups => if failure.kind == IoFailureKind::NotFound {
            None
        } else {
            Some(failure.within("writing /proc/self/setgroups failed: "))
        },
        MappingStep::WriteUidMap => Some(failure.within("writing /proc/self/uid_map failed: ")),
        MappingStep::WriteGidMap => Some(failure.within("writing /proc/self/gid_map failed: ")),
        MappingStep::SetGroup => Some(failure.within("setresgid(0,0,0) failed: ")),
        MappingStep::SetUser => Some(failure.within("setresuid(0,0,0) failed: ")),
    }
}

/// The line that maps the root of a user namespace to one user or group outside.
pub open spec fn id_map(id: u32) -> Seq<char> {
    "0 "@ + decimal(id as nat) + " 1\n"@
}

/// The line that maps the root of a user namespace to one user or group outside.
pub fn id_map_line(id: u32) -> (r: String)
    ensures
        r@ == id_map(id),
{
    let mut line = "0 ".to_owned();
    line.append(number(id as u128).as_str());
    line.append(" 1\n");
    line
}

/// A failure to set up mounts that means that the system does not offer what they need.
pub open spec fn is_namespace_failure(
    kind: IoFailureKind,
    raw_os_error: Option<i32>,
    errno: ErrnoTable,
) -> bool {
    ||| kind == IoFailureKind::PermissionDenied
    ||| kind == IoFailureKind::Unsupported
    ||| raw_os_error == Some(errno.eperm)
    ||| raw_os_error == Some(errno.eopnotsupp)
    ||| raw_os_error == Some(errno.einval)
    ||| raw_os_error == Some(errno.enosys)
}

/// Whether a failure means that the system does not offer what mounts need.
pub fn is_overlay_namespace_unavailable_error(failure: &IoFailure, errno: ErrnoTable) -> (r: bool)
    ensures
        r == is_namespace_failure(failure.kind, failure.raw_os_error, errno),
{
    if failure.kind == IoFailureKind::PermissionDenied || failure.kind
        == IoFailureKind::Unsupported {
        return true;
    }
    match failure.raw_os_error {
        Some(code) => code == errno.eperm || code == errno.eopnotsupp || code == errno.einval
            || code == errno.enosys,
        None => false,
    }
}

/// The error of a run that failed, where mounts were asked for or not.
pub open spec fn reported_failure(
    with_mounts: bool,
    error: ErrorView,
    errno: ErrnoTable,
) -> ErrorView {
    match error {
        ErrorView::Io(kind, raw, message) => if with_mounts && is_namespace_failure(
            kind,
            raw,
            errno,
        ) {
            ErrorView::Unavailable(
                "linux path overlays require mount-namespace support (CLONE_NEWUSER/CLONE_NEWNS or CAP_SYS_ADMIN): "@
                    + message,
            )
        } else {
            error
        },
        _ => error,
    }
}

/// How a run that failed is reported: where mounts were asked for and the system does not offer
/// what they need, the sandbox is unavailable.
pub fn report_failure(with_mounts: bool, error: SandboxError, errno: ErrnoTable) -> (r:
    SandboxError)
    ensures
        r@ == reported_failure(with_mounts, error@, errno),
{
    match error {
        SandboxError::Io(failure) => if with_mounts && is_overlay_namespace_unavailable_error(
            &failure,
            errno,
        ) {
            let mut message =
                "linux path overlays require mount-namespace support (CLONE_NEWUSER/CLONE_NEWNS or CAP_SYS_ADMIN): ".to_owned();
            message.append(failure.message.as_str());
            SandboxError::Unavailable(message)
        } else {
            SandboxError::Io(failure)
        },
        other => other,
    }
}

/// What a process has got on the way to a mount tree of its own.
pub struct Spaces {
    /// It is in a user namespace of its own.
    pub user: bool,
    /// Its user is mapped into that.
    pub mapped: bool,
    /// It is in a mount namespace of its own.
    pub mounts: bool,
    /// What it mounts is not passed on.
    pub private: bool,
}

/// What a step changes where it succeeds.
pub open spec fn after_success(s: Spaces, step: StepView) -> Spaces {
    match step {
        StepView::UnshareBoth => Spaces { user: true, mounts: true, ..s },
        StepView::UnshareUser => Spaces { user: true, ..s },
        StepView::UnshareMounts => Spaces { mounts: true, ..s },
        StepView::MapUserWithMounts => Spaces { mapped: true, ..s },
        StepView::MapUserBeforeMounts => Spaces { mapped: true, ..s },
        StepView::MakePrivate => Spaces { private: true, ..s },
        _ => s,
    }
}

/// What a process has got when it comes to a step.
pub open spec fn fits(step: StepView, s: Spaces) -> bool {
    match step {
        StepView::UnshareBoth => !s.user && !s.mapped && !s.mounts && !s.private,
        StepView::UnshareUser => !s.user && !s.mapped && !s.mounts && !s.private,
        StepView::MapUserBeforeMounts => s.user && !s.mapped && !s.mounts && !s.private,
        StepView::MapUserWithMounts => s.user && !s.mapped && s.mounts && !s.private,
        StepView::UnshareMounts => s.user == s.mapped && !s.mounts && !s.private,
        StepView::MakePrivate => s.user == s.mapped && s.mounts && !s.private,
        StepView::Done => s.user == s.mapped && s.mounts && s.private,
        StepView::Failed(_, _, _) => true,
    }
}

/// Whatever is reported of the steps, each comes when what it needs is there: a process that ends
/// well is in a private mount namespace of its own, and has its user mapped wherever it made a user
/// namespace.
pub proof fn steps_come_when_they_fit(
    step: StepView,
    report: Result<(), (IoFailureKind, Option<i32>, Seq<char>)>,
    errno: ErrnoTable,
    s: Spaces,
)
    requires
        fits(step, s),
    ensures
        fits(
            following_step(step, report, errno),
            if report is Ok {
                after_success(s, step)
            } else {
                s
            },
        ),
        fits(StepView::Done, s) ==> s.mounts && s.private && (s.user ==> s.mapped),
{
}

/// A step that is not permitted, or not known, leaves another way exactly twice: both namespaces at
/// once, then the user's alone, then the mounts' alone. Any other failure ends the attempt with
/// what went wrong, behind the name of the call.
pub proof fn failures_are_passed_on(
    kind: IoFailureKind,
    raw: Option<i32>,
    message: Seq<char>,
    errno: ErrnoTable,
)
    ensures
        ({
            let e = Err::<(), (IoFailureKind, Option<i32>, Seq<char>)>((kind, raw, message));
            let refused = raw == Some(errno.eperm) || raw == Some(errno.einval);
            &&& refused ==> following_step(StepView::UnshareBoth, e, errno) == StepView::UnshareUser
            &&& refused ==> following_step(StepView::UnshareUser, e, errno)
                == StepView::UnshareMounts
            &&& !refused ==> following_step(StepView::UnshareBoth, e, errno) == StepView::Failed(
                kind,
                None,
                "unshare(CLONE_NEWUSER|CLONE_NEWNS) failed: "@ + message,
            )
            &&& !refused ==> following_step(StepView::UnshareUser, e, errno) == StepView::Failed(
                kind,
                None,
                "unshare(CLONE_NEWUSER) failed: "@ + message,
            )
            &&& following_step(StepView::UnshareMounts, e, errno) == StepView::Failed(
                kind,
                None,
                "unshare(CLONE_NEWNS) failed: "@ + message,
            )
            &&& following_step(StepView::MakePrivate, e, errno) == StepView::Failed(
                kind,
                None,
                "mount(MS_PRIVATE) failed: "@ + message,
            )
            &&& following_step(StepView::MapUserWithMounts, e, errno) == StepView::Failed(
                kind,
                raw,
                message,
            )
            &&& following_step(StepView::MapUserBeforeMounts, e, errno) == StepView::Failed(
                kind,
                raw,
                message,
            )
        }),
{
}

/// No step that succeeds ends the attempt in failure, and an attempt that has ended stays so.
pub proof fn only_failures_fail(
    step: StepView,
    report: Result<(), (IoFailureKind, Option<i32>, Seq<char>)>,
    errno: ErrnoTable,
)
    ensures
        report is Ok && !(step is Failed) ==> !(following_step(step, report, errno) is Failed),
        is_final(step) ==> following_step(step, report, errno) == step,
        is_final(step) <==> step is Done || step is Failed,
{
}

/// The root of the namespace is mapped to one user alone: the line holds zero, the user's number
/// and one.
pub proof fn one_user_is_mapped(id: u32)
    ensures
        id_map(id).take(2) == seq!['0', ' '],
        id_map(id).subrange(2, id_map(id).len() - 3) == decimal(id as nat),
        id_map(id).subrange(id_map(id).len() - 3, id_map(id).len() as int) == seq![' ', '1', '\n'],
{
    reveal_strlit("0 ");
    reveal_strlit(" 1\n");
    let line = id_map(id);
    assert(line.take(2) =~= seq!['0', ' ']);
    assert(line.subrange(2, line.len() - 3) =~= decimal(id as nat));
    assert(line.subrange(line.len() - 3, line.len() as int) =~= seq![' ', '1', '\n']);
}

/// A failure is reported as a missing feature only where mounts were asked for, only where it came
/// from the system, and only of the sorts that mean that; it is otherwise reported as it is. The
/// report ends with what went wrong.
pub proof fn only_missing_features_are_unavailable(
    with_mounts: bool,
    kind: IoFailureKind,
    raw: Option<i32>,
    message: Seq<char>,
    errno: ErrnoTable,
    other: ErrorView,
)
    ensures
        ({
            let r = reported_failure(with_mounts, ErrorView::Io(kind, raw, message), errno);
            let missing = kind == IoFailureKind::PermissionDenied || kind
                == IoFailureKind::Unsupported || raw == Some(errno.eperm) || raw == Some(
                errno.eopnotsupp,
            ) || raw == Some(errno.einval) || raw == Some(errno.enosys);
            &&& !with_mounts || !missing ==> r == ErrorView::Io(kind, raw, message)
            &&& with_mounts && missing ==> r is Unavailable && r->Unavailable_0.len()
                >= message.len() && r->Unavailable_0.subrange(
                r->Unavailable_0.len() - message.len(),
                r->Unavailable_0.len() as int,
            ) == message
        }),
        !(other is Io) ==> reported_failure(with_mounts, other, errno) == other,
{
    let r = reported_failure(with_mounts, ErrorView::Io(kind, raw, message), errno);
    if r is Unavailable {
        let t = r->Unavailable_0;
        assert(t.subrange(t.len() - message.len(), t.len() as int) =~= message);
    }
}

} // verus!
