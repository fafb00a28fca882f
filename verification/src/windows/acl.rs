//! The entries that are written into access lists on Windows, and how they are taken back.
use vstd::prelude::*;
use vstd::string::StringExecFns;

use crate::error::{ErrorView, SandboxError};
use crate::path::{display_text, path_views, PathStyle, SandboxPath};
use crate::text::{decimal, number};
use crate::windows::access::{AclPlan, AclView};

verus! {

/// The rights to read files and to run them.
pub const READ_ONLY_ALLOW_MASK: u32 = 0x1200a9;

/// The rights to read, write and run files.
pub const READ_WRITE_ALLOW_MASK: u32 = 0x1201bf;

/// The rights to write files.
pub const WRITE_MASK: u32 = 0x120116;

/// The entry replaces what the list says of the same party.
pub const SET_ACCESS: u32 = 2;

/// The entry takes rights away.
pub const DENY_ACCESS: u32 = 3;

/// The entry removes what the list says of the same party.
pub const REVOKE_ACCESS: u32 = 4;

/// The entry is passed on to directories and files below.
pub const INHERIT_BELOW: u32 = 3;

/// The access that is needed to change the list of the null device: reading and writing it.
pub const NULL_DEVICE_ACCESS: u32 = 0x60000;

/// The null device.
pub const NULL_DEVICE: &'static str = "\\\\.\\NUL";

/// What an entry is for.
#[derive(Debug, Clone, Copy, PartialEq, Eq, Structural)]
pub enum AceKind {
    DenyAccess,
    DenyWrite,
    AllowReadOnly,
    AllowReadWrite,
    Revoke,
    NullDevice,
}

/// An entry: the rights that it speaks of, what it does with them and whether it is passed on.
#[derive(Debug, Clone, Copy, PartialEq, Eq, Structural)]
pub struct AceRequest {
    pub permissions: u32,
    pub mode: u32,
    pub inheritance: u32,
}

/// The entry for a purpose.
pub open spec fn ace_for(kind: AceKind) -> AceRequest {
    match kind {
        AceKind::DenyAccess => AceRequest {
            permissions: READ_WRITE_ALLOW_MASK,
            mode: DENY_ACCESS,
            inheritance: INHERIT_BELOW,
        },
        AceKind::DenyWrite => AceRequest {
            permissions: WRITE_MASK,
            mode: DENY_ACCESS,
            inheritance: INHERIT_BELOW,
        },
        AceKind::AllowReadOnly => AceRequest {
            permissions: READ_ONLY_ALLOW_MASK,
            mode: SET_ACCESS,
            inheritance: INHERIT_BELOW,
        },
        AceKind::AllowReadWrite => AceRequest {
            permissions: READ_WRITE_ALLOW_MASK,
            mode: SET_ACCESS,
            inheritance: INHERIT_BELOW,
        },
        AceKind::Revoke => AceRequest {
            permissions: 0,
            mode: REVOKE_ACCESS,
            inheritance: INHERIT_BELOW,
        },
        AceKind::NullDevice => AceRequest {
            permissions: READ_WRITE_ALLOW_MASK,
            mode: SET_ACCESS,
            inheritance: 0,
        },
    }
}

/// The entry for a purpose.
pub fn ace_request(kind: AceKind) -> (r: AceRequest)
    ensures
        r == ace_for(kind),
{
    match kind {
        AceKind::DenyAccess => AceRequest {
            permissions: READ_WRITE_ALLOW_MASK,
            mode: DENY_ACCESS,
            inheritance: INHERIT_BELOW,
        },
        AceKind::DenyWrite => AceRequest {
            permissions: WRITE_MASK,
            mode: DENY_ACCESS,
            inheritance: INHERIT_BELOW,
        },
        AceKind::AllowReadOnly => AceRequest {
            permissions: READ_ONLY_ALLOW_MASK,
            mode: SET_ACCESS,
            inheritance: INHERIT_BELOW,
        },
        AceKind::AllowReadWrite => AceRequest {
            permissions: READ_WRITE_ALLOW_MASK,
            mode: SET_ACCESS,
            inheritance: INHERIT_BELOW,
        },
        AceKind::Revoke => AceRequest {
            permissions: 0,
            mode: REVOKE_ACCESS,
            inheritance: INHERIT_BELOW,
        },
        AceKind::NullDevice => AceRequest {
            permissions: READ_WRITE_ALLOW_MASK,
            mode: SET_ACCESS,
            inheritance: 0,
        },
    }
}

/// One entry that a plan asks for.
#[derive(Debug, PartialEq, Eq)]
pub struct AceStep {
    pub path: SandboxPath,
    pub kind: AceKind,
}

impl View for AceStep {
    type V = (Seq<u8>, AceKind);

    open spec fn view(&self) -> (Seq<u8>, AceKind) {
        (self.path@, self.kind)
    }
}

/// The values of a list of entries.
pub open spec fn step_views(v: Seq<AceStep>) -> Seq<(Seq<u8>, AceKind)> {
    Seq::new(v.len(), |i: int| v[i]@)
}

/// Entries of one kind for some paths.
pub open spec fn steps_for(paths: Seq<Seq<u8>>, kind: AceKind) -> Seq<(Seq<u8>, AceKind)> {
    Seq::new(paths.len(), |i: int| (paths[i], kind))
}

/// The entries of a plan, in the order in which they are written: denials come first.
pub open spec fn plan_steps(plan: AclView) -> Seq<(Seq<u8>, AceKind)> {
    steps_for(plan.deny_access, AceKind::DenyAccess) + steps_for(
        plan.deny_write,
        AceKind::DenyWrite,
    ) + steps_for(plan.allow_readonly, AceKind::AllowReadOnly) + steps_for(
        plan.allow_readwrite,
        AceKind::AllowReadWrite,
    )
}

fn push_steps(out: &mut Vec<AceStep>, paths: &Vec<SandboxPath>, kind: AceKind)
    ensures
        step_views(final(out)@) == step_views(old(out)@) + steps_for(path_views(paths@), kind),
{
    let ghost before = step_views(out@);
    let ghost all = steps_for(path_views(paths@), kind);
    assert(before =~= before + all.take(0));
    for i in 0..paths.len()
        invariant
            all == steps_for(path_views(paths@), kind),
            step_views(out@) == before + all.take(i as int),
    {
        let ghost was = step_views(out@);
        let path = paths[i].clone();
        out.push(AceStep { path, kind });
        assert(all[i as int] == (path@, kind));
        assert(step_views(out@) =~= was.push((path@, kind)));
        assert(was.push((path@, kind)) =~= before + all.take(i + 1));
    }
    assert(all.take(all.len() as int) =~= all);
}

/// The entries of a plan, in the order in which they are written.
pub fn access_steps(plan: &AclPlan) -> (r: Vec<AceStep>)
    ensures
        step_views(r@) == plan_steps(plan@),
{
    let mut r: Vec<AceStep> = Vec::new();
    assert(step_views(r@) =~= Seq::empty());
    push_steps(&mut r, &plan.deny_access_paths, AceKind::DenyAccess);
    push_steps(&mut r, &plan.deny_write_paths, AceKind::DenyWrite);
    push_steps(&mut r, &plan.allow_readonly_paths, AceKind::AllowReadOnly);
    push_steps(&mut r, &plan.allow_readwrite_paths, AceKind::AllowReadWrite);
    assert(step_views(r@) =~= plan_steps(plan@));
    r
}

/// The calls that write an entry, in this order.
#[derive(Debug, Clone, Copy, PartialEq, Eq, Structural)]
pub enum AceCall {
    ReadList,
    AddEntry,
    WriteList,
}

/// The name of a call in messages.
pub open spec fn ace_call_name(call: AceCall) -> Seq<char> {
    match call {
        AceCall::ReadList => "GetNamedSecurityInfoW"@,
        AceCall::AddEntry => "SetEntriesInAclW"@,
        AceCall::WriteList => "SetNamedSecurityInfoW"@,
    }
}

/// The error of a call that did not succeed.
pub open spec fn failed_call(call: AceCall, code: u32, path: Seq<u8>) -> ErrorView {
    ErrorView::Windows(
        ace_call_name(call) + " failed with code "@ + decimal(code as nat) + " for "@
            + display_text(PathStyle::Windows, path),
    )
}

fn ace_call_result(call: AceCall, code: u32, path: &SandboxPath) -> (r: Result<
    (),
    SandboxError,
>)
    ensures
        match r {
            Ok(_) => code == 0,
            Err(e) => code != 0 && e@ == failed_call(call, code, path@),
        },
{
    if code == 0 {
        return Ok(());
    }
    let mut message = match call {
        AceCall::ReadList => "GetNamedSecurityInfoW".to_owned(),
        AceCall::AddEntry => "SetEntriesInAclW".to_owned(),
        AceCall::WriteList => "SetNamedSecurityInfoW".to_owned(),
    };
    message.append(" failed with code ");
    message.append(number(code as u128).as_str());
    message.append(" for ");
    message.append(path.display(PathStyle::Windows).as_str());
    Err(SandboxError::Windows(message))
}

/// The call that comes behind a call that succeeded.
pub open spec fn call_behind(call: AceCall) -> Option<AceCall> {
    match call {
        AceCall::ReadList => Some(AceCall::AddEntry),
        AceCall::AddEntry => Some(AceCall::WriteList),
        AceCall::WriteList => None,
    }
}

/// What follows a call with this status: the next call, nothing behind the last one, and the error
/// where the call did not succeed.
pub fn following_call(call: AceCall, code: u32, path: &SandboxPath) -> (r: Result<
    Option<AceCall>,
    SandboxError,
>)
    ensures
        match r {
            Ok(next) => code == 0 && next == call_behind(call),
            Err(e) => code != 0 && e@ == failed_call(call, code, path@),
        },
{
    match ace_call_result(call, code, path) {
        Err(e) => Err(e),
        Ok(_) => Ok(
            match call {
                AceCall::ReadList => Some(AceCall::AddEntry),
                AceCall::AddEntry => Some(AceCall::WriteList),
                AceCall::WriteList => None,
            },
        ),
    }
}

/// The paths whose entries are to be taken back.
#[derive(Debug, PartialEq, Eq)]
pub struct AclRollback {
    pub paths: Vec<SandboxPath>,
}

impl AclRollback {
    /// Nothing to take back.
    pub fn new() -> (r: Self)
        ensures
            r.paths@.len() == 0,
    {
        AclRollback { paths: Vec::new() }
    }

    /// Remembers a path whose entry was written.
    pub fn track(&mut self, path: SandboxPath)
        ensures
            final(self).paths@ == old(self).paths@.push(path),
    {
        self.paths.push(path);
    }

    /// How many paths are remembered.
    pub fn tracked_len(&self) -> (r: usize)
        ensures
            r == self.paths@.len(),
    {
        self.paths.len()
    }
}

/// Every denial of a plan is written before every permission.
pub proof fn denials_are_written_first(plan: AclView, i: int, j: int)
    requires
        0 <= i < plan_steps(plan).len(),
        0 <= j < plan_steps(plan).len(),
        plan_steps(plan)[i].1 == AceKind::DenyAccess || plan_steps(plan)[i].1
            == AceKind::DenyWrite,
        plan_steps(plan)[j].1 == AceKind::AllowReadOnly || plan_steps(plan)[j].1
            == AceKind::AllowReadWrite,
    ensures
        i < j,
{
    let denials = plan.deny_access.len() + plan.deny_write.len();
    assert(forall|k: int|
        0 <= k < plan_steps(plan).len() ==> ((#[trigger] plan_steps(plan)[k]).1
            == AceKind::DenyAccess || plan_steps(plan)[k].1 == AceKind::DenyWrite <==> k
            < denials));
}

/// What is written into access lists is what the plan lists, each path in its own way.
pub proof fn every_listed_path_is_written(plan: AclView, p: Seq<u8>, kind: AceKind)
    ensures
        plan_steps(plan).contains((p, kind)) <==> {
            ||| kind == AceKind::DenyAccess && plan.deny_access.contains(p)
            ||| kind == AceKind::DenyWrite && plan.deny_write.contains(p)
            ||| kind == AceKind::AllowReadOnly && plan.allow_readonly.contains(p)
            ||| kind == AceKind::AllowReadWrite && plan.allow_readwrite.contains(p)
        },
        plan_steps(plan).len() == plan.deny_access.len() + plan.deny_write.len()
            + plan.allow_readonly.len() + plan.allow_readwrite.len(),
{
    let s = plan_steps(plan);
    let a = plan.deny_access.len() as int;
    let b = a + plan.deny_write.len();
    let c = b + plan.allow_readonly.len();
    if s.contains((p, kind)) {
        let i = choose|i: int| 0 <= i < s.len() && s[i] == (p, kind);
        if i < a {
            assert(s[i] == (plan.deny_access[i], AceKind::DenyAccess));
        } else if i < b {
            assert(s[i] == (plan.deny_write[i - a], AceKind::DenyWrite));
        } else if i < c {
            assert(s[i] == (plan.allow_readonly[i - b], AceKind::AllowReadOnly));
        } else {
            assert(s[i] == (plan.allow_readwrite[i - c], AceKind::AllowReadWrite));
        }
    }
    if plan.deny_access.contains(p) {
        let i = choose|i: int| 0 <= i < plan.deny_access.len() && plan.deny_access[i] == p;
        assert(s[i] == (p, AceKind::DenyAccess));
    }
    if plan.deny_write.contains(p) {
        let i = choose|i: int| 0 <= i < plan.deny_write.len() && plan.deny_write[i] == p;
        assert(s[a + i] == (p, AceKind::DenyWrite));
    }
    if plan.allow_readonly.contains(p) {
        let i = choose|i: int| 0 <= i < plan.allow_readonly.len() && plan.allow_readonly[i] == p;
        assert(s[b + i] == (p, AceKind::AllowReadOnly));
    }
    if plan.allow_readwrite.contains(p) {
        let i = choose|i: int| 0 <= i < plan.allow_readwrite.len() && plan.allow_readwrite[i] == p;
        assert(s[c + i] == (p, AceKind::AllowReadWrite));
    }
}

/// What the entries do. A denied path can be neither read (1), written (2, 4) nor run (0x20); one
/// that is kept from being written loses the rights to write data and attributes (0x116) and not
/// those to read (1, 8) and run; a readable one gets those alone, and a writable one gets all of
/// them. Entries reach what is below a path, except on a device.
pub proof fn entries_do_what_they_are_for()
    ensures
        ({
            let denied = ace_for(AceKind::DenyAccess);
            let closed = ace_for(AceKind::DenyWrite);
            let readable = ace_for(AceKind::AllowReadOnly);
            let writable = ace_for(AceKind::AllowReadWrite);
            let revoked = ace_for(AceKind::Revoke);
            let device = ace_for(AceKind::NullDevice);
            &&& denied.mode == 3 && denied.permissions & 0x1bf == 0x1bf
            &&& closed.mode == 3 && closed.permissions & 0x116 == 0x116 && closed.permissions & 0x29
                == 0
            &&& readable.mode == 2 && readable.permissions & 0xa9 == 0xa9 && readable.permissions
                & 0x116 == 0
            &&& writable.mode == 2 && writable.permissions & 0x1bf == 0x1bf
            &&& revoked.mode == 4 && revoked.permissions == 0
            &&& device.mode == 2 && device.permissions == writable.permissions
            &&& denied.inheritance == 3 && closed.inheritance == 3 && readable.inheritance == 3
                && writable.inheritance == 3 && revoked.inheritance == 3 && device.inheritance == 0
        }),
{
    assert(0x1201bfu32 & 0x1bf == 0x1bf && 0x120116u32 & 0x116 == 0x116 && 0x120116u32 & 0x29 == 0
        && 0x1200a9u32 & 0xa9 == 0xa9 && 0x1200a9u32 & 0x116 == 0) by (bit_vector);
}

/// An entry is written in three calls: the list is read, the entry is added to it, and the list is
/// written back.
pub proof fn lists_are_read_changed_and_written()
    ensures
        call_behind(AceCall::ReadList) == Some(AceCall::AddEntry),
        call_behind(AceCall::AddEntry) == Some(AceCall::WriteList),
        call_behind(AceCall::WriteList) is None,
{
}

/// The error of a call names the call, its code and the path.
pub proof fn failed_calls_are_named(call: AceCall, code: u32, path: Seq<u8>)
    ensures
        failed_call(call, code, path) == ErrorView::Windows(
            match call {
                AceCall::ReadList => "GetNamedSecurityInfoW"@,
                AceCall::AddEntry => "SetEntriesInAclW"@,
                AceCall::WriteList => "SetNamedSecurityInfoW"@,
            } + " failed with code "@ + decimal(code as nat) + " for "@ + display_text(
                PathStyle::Windows,
                path,
            ),
        ),
{
}

} // verus!
