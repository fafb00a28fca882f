//! Which system calls a network policy denies.
use std::collections::BTreeMap;

use seccompiler::SeccompAction::{Allow, Errno};
use seccompiler::SeccompCmpArgLen::Dword;
use seccompiler::SeccompCmpOp::Ne;
use seccompiler::{
    BackendError, BpfProgram, SeccompCmpOp, SeccompCondition, SeccompFilter, SeccompRule,
};

use vstd::prelude::*;

use crate::error::{IoFailure, IoFailureKind};
use crate::policy::{bidirectional_network, SandboxNetworkPolicy};
use crate::text::same_text;

verus! {

/// The numbers of the system calls that a filter speaks of.
#[derive(Debug, Clone, Copy, PartialEq, Eq)]
pub struct SyscallTable {
    pub socket: u32,
    pub socketpair: u32,
    pub connect: u32,
    pub accept: u32,
    pub accept4: u32,
    pub bind: u32,
    pub listen: u32,
    pub getpeername: u32,
    pub getsockname: u32,
    pub shutdown: u32,
    pub sendto: u32,
    pub sendmsg: u32,
    pub sendmmsg: u32,
    pub recvmsg: u32,
    pub recvmmsg: u32,
    pub getsockopt: u32,
    pub setsockopt: u32,
    pub ptrace: u32,
}

/// The numbers of the socket families that a policy can allow.
#[derive(Debug, Clone, Copy, PartialEq, Eq)]
pub struct FamilyTable {
    pub unix: u32,
    pub inet: u32,
    pub inet6: u32,
}

/// A system call that is denied. Each element of `when` is a list of pairs of an argument's index
/// and a value. The call is denied where `when` is empty, and where for one of its elements every
/// argument differs from its value.
#[derive(Debug, PartialEq, Eq)]
pub struct DeniedSyscall {
    pub number: u32,
    pub when: Vec<Vec<(u8, u64)>>,
}

/// The mathematical value of a denied system call.
pub type DenialView = (u32, Seq<Seq<(u8, u64)>>);

impl View for DeniedSyscall {
    type V = DenialView;

    open spec fn view(&self) -> DenialView {
        (self.number, test_views(self.when@))
    }
}

/// The values of a list of tests.
pub open spec fn test_views(v: Seq<Vec<(u8, u64)>>) -> Seq<Seq<(u8, u64)>> {
    Seq::new(v.len(), |i: int| v[i]@)
}

/// The values of a list of denied system calls.
pub open spec fn denial_views(v: Seq<DeniedSyscall>) -> Seq<DenialView> {
    Seq::new(v.len(), |i: int| v[i]@)
}

/// The families that a policy allows.
pub open spec fn allowed_families(policy: SandboxNetworkPolicy, families: FamilyTable) -> Seq<
    (u8, u64),
> {
    let unix: Seq<(u8, u64)> = if policy.allow_unix {
        seq![(0u8, families.unix as u64)]
    } else {
        Seq::empty()
    };
    let inet: Seq<(u8, u64)> = if policy.allow_ipv4 {
        unix.push((0u8, families.inet as u64))
    } else {
        unix
    };
    if policy.allow_ipv6 {
        inet.push((0u8, families.inet6 as u64))
    } else {
        inet
    }
}

/// When the creation of a socket is denied: where its family is none of the allowed ones.
pub open spec fn family_tests(policy: SandboxNetworkPolicy, families: FamilyTable) -> Seq<
    Seq<(u8, u64)>,
> {
    if allowed_families(policy, families).len() == 0 {
        Seq::empty()
    } else {
        seq![allowed_families(policy, families)]
    }
}

/// A policy under which no socket can get or take a connection: no IP family and none of the
/// calls that manage connections.
pub open spec fn is_isolated(policy: SandboxNetworkPolicy) -> bool {
    !policy.has_ip() && !policy.allow_connect && !policy.allow_bind && !policy.allow_listen
        && !policy.allow_accept
}

/// A call that is denied whatever its arguments are.
pub open spec fn always(number: u32) -> DenialView {
    (number, Seq::empty())
}

/// The calls for the given numbers, each denied where the flag is set.
pub open spec fn denied_if(denied: bool, numbers: Seq<u32>) -> Seq<DenialView> {
    if denied {
        Seq::new(numbers.len(), |i: int| always(numbers[i]))
    } else {
        Seq::empty()
    }
}

/// The calls that move data over a socket or look at it, and the one that traces processes.
pub open spec fn data_calls(calls: SyscallTable) -> Seq<u32> {
    seq![
        calls.getpeername,
        calls.getsockname,
        calls.shutdown,
        calls.sendto,
        calls.sendmsg,
        calls.sendmmsg,
        calls.recvmsg,
        calls.recvmmsg,
        calls.getsockopt,
        calls.setsockopt,
        calls.ptrace,
    ]
}

/// The system calls that a policy denies.
pub open spec fn denied_calls(
    policy: SandboxNetworkPolicy,
    calls: SyscallTable,
    families: FamilyTable,
) -> Seq<DenialView> {
    denied_if(!policy.allow_connect, seq![calls.connect]) + denied_if(
        !policy.allow_accept,
        seq![calls.accept, calls.accept4],
    ) + denied_if(!policy.allow_bind, seq![calls.bind]) + denied_if(
        !policy.allow_listen,
        seq![calls.listen],
    ) + denied_if(is_isolated(policy), data_calls(calls)) + seq![
        (calls.socket, family_tests(policy, families)),
        (calls.socketpair, family_tests(policy, families)),
    ]
}

/// The filter of a policy: none where everything is allowed.
pub open spec fn network_denials(
    policy: SandboxNetworkPolicy,
    calls: SyscallTable,
    families: FamilyTable,
) -> Option<Seq<DenialView>> {
    if policy == bidirectional_network() {
        None
    } else {
        Some(denied_calls(policy, calls, families))
    }
}

fn push_always(out: &mut Vec<DeniedSyscall>, number: u32)
    ensures
        denial_views(final(out)@) == denial_views(old(out)@).push(always(number)),
{
    let ghost before = denial_views(out@);
    let when: Vec<Vec<(u8, u64)>> = Vec::new();
    assert(test_views(when@) =~= Seq::empty());
    out.push(DeniedSyscall { number, when });
    assert(denial_views(out@) =~= before.push(always(number)));
}

fn family_conditions(policy: SandboxNetworkPolicy, families: FamilyTable) -> (r: Vec<
    Vec<(u8, u64)>,
>)
    ensures
        test_views(r@) == family_tests(policy, families),
{
    let mut allowed: Vec<(u8, u64)> = Vec::new();
    if policy.allow_unix {
        allowed.push((0u8, families.unix as u64));
        assert(allowed@ =~= seq![(0u8, families.unix as u64)]);
    }
    if policy.allow_ipv4 {
        allowed.push((0u8, families.inet as u64));
    }
    if policy.allow_ipv6 {
        allowed.push((0u8, families.inet6 as u64));
    }
    assert(allowed@ =~= allowed_families(policy, families));
    let mut r: Vec<Vec<(u8, u64)>> = Vec::new();
    if allowed.len() > 0 {
        r.push(allowed);
        assert(test_views(r@) =~= seq![allowed_families(policy, families)]);
    } else {
        assert(test_views(r@) =~= Seq::empty());
    }
    r
}

/// The system calls that a policy denies; `None` where it needs no filter.
pub fn network_filter(
    policy: SandboxNetworkPolicy,
    calls: SyscallTable,
    families: FamilyTable,
) -> (r: Option<Vec<DeniedSyscall>>)
    ensures
        match r {
            Some(v) => network_denials(policy, calls, families) == Some(denial_views(v@)),
            None => network_denials(policy, calls, families) is None,
        },
{
    if policy == SandboxNetworkPolicy::bidirectional() {
        return None;
    }
    let mut out: Vec<DeniedSyscall> = Vec::new();
    if !policy.allow_connect {
        push_always(&mut out, calls.connect);
    }
    let ghost a = denied_if(!policy.allow_connect, seq![calls.connect]);
    assert(denial_views(out@) =~= a);
    if !policy.allow_accept {
        push_always(&mut out, calls.accept);
        push_always(&mut out, calls.accept4);
    }
    let ghost b = a + denied_if(!policy.allow_accept, seq![calls.accept, calls.accept4]);
    assert(denial_views(out@) =~= b);
    if !policy.allow_bind {
        push_always(&mut out, calls.bind);
    }
    let ghost c = b + denied_if(!policy.allow_bind, seq![calls.bind]);
    assert(denial_views(out@) =~= c);
    if !policy.allow_listen {
        push_always(&mut out, calls.listen);
    }
    let ghost d = c + denied_if(!policy.allow_listen, seq![calls.listen]);
    assert(denial_views(out@) =~= d);
    let isolated = !policy.allows_ip_network() && !policy.allow_connect && !policy.allow_bind
        && !policy.allow_listen && !policy.allow_accept;
    if isolated {
        push_always(&mut out, calls.getpeername);
        push_always(&mut out, calls.getsockname);
        push_always(&mut out, calls.shutdown);
        push_always(&mut out, calls.sendto);
        push_always(&mut out, calls.sendmsg);
        push_always(&mut out, calls.sendmmsg);
        push_always(&mut out, calls.recvmsg);
        push_always(&mut out, calls.recvmmsg);
        push_always(&mut out, calls.getsockopt);
        push_always(&mut out, calls.setsockopt);
        push_always(&mut out, calls.ptrace);
    }
    let ghost e = d + denied_if(is_isolated(policy), data_calls(calls));
    assert(denial_views(out@) =~= e);
    let first = family_conditions(policy, families);
    out.push(DeniedSyscall { number: calls.socket, when: first });
    let second = family_conditions(policy, families);
    out.push(DeniedSyscall { number: calls.socketpair, when: second });
    assert(denial_views(out@) =~= denied_calls(policy, calls, families));
    Some(out)
}

/// One of the denials applies to a call with this number and these arguments. Arguments are
/// compared by their low 32 bits, which is what `args` holds.
pub open spec fn is_denied(denials: Seq<DenialView>, number: u32, args: Seq<u64>) -> bool {
    exists|i: int|
        0 <= i < denials.len() && (#[trigger] denials[i]).0 == number && applies(denials[i].1, args)
}

/// The tests of a denial hold of these arguments.
pub open spec fn applies(when: Seq<Seq<(u8, u64)>>, args: Seq<u64>) -> bool {
    when.len() == 0 || exists|c: int| 0 <= c < when.len() && all_differ(#[trigger] when[c], args)
}

/// Every argument differs from its value.
pub open spec fn all_differ(tests: Seq<(u8, u64)>, args: Seq<u64>) -> bool {
    forall|t: int| 0 <= t < tests.len() ==> args[(#[trigger] tests[t]).0 as int] != tests[t].1
}

/// A policy allows sockets of this family.
pub open spec fn family_is_allowed(
    policy: SandboxNetworkPolicy,
    families: FamilyTable,
    family: u64,
) -> bool {
    ||| policy.allow_unix && family == families.unix
    ||| policy.allow_ipv4 && family == families.inet
    ||| policy.allow_ipv6 && family == families.inet6
}

/// The numbers of all calls that a filter speaks of.
pub open spec fn all_calls(calls: SyscallTable) -> Seq<u32> {
    seq![
        calls.connect,
        calls.accept,
        calls.accept4,
        calls.bind,
        calls.listen,
        calls.socket,
        calls.socketpair,
    ] + data_calls(calls)
}

/// The calls of a table have different numbers.
pub open spec fn are_distinct(calls: SyscallTable) -> bool {
    forall|i: int, j: int|
        0 <= i < j < all_calls(calls).len() ==> #[trigger] all_calls(calls)[i]
            != #[trigger] all_calls(calls)[j]
}

proof fn lemma_denied_by_either(a: Seq<DenialView>, b: Seq<DenialView>, number: u32, args: Seq<u64>)
    ensures
        is_denied(a + b, number, args) <==> is_denied(a, number, args) || is_denied(
            b,
            number,
            args,
        ),
{
    let c = a + b;
    if is_denied(a, number, args) {
        let i = choose|i: int|
            0 <= i < a.len() && (#[trigger] a[i]).0 == number && applies(a[i].1, args);
        assert(c[i] == a[i]);
    }
    if is_denied(b, number, args) {
        let i = choose|i: int|
            0 <= i < b.len() && (#[trigger] b[i]).0 == number && applies(b[i].1, args);
        assert(c[a.len() + i] == b[i]);
    }
    if is_denied(c, number, args) {
        let i = choose|i: int|
            0 <= i < c.len() && (#[trigger] c[i]).0 == number && applies(c[i].1, args);
        if i < a.len() {
            assert(a[i] == c[i]);
        } else {
            assert(b[i - a.len()] == c[i]);
        }
    }
}

proof fn lemma_denied_if(denied: bool, numbers: Seq<u32>, number: u32, args: Seq<u64>)
    ensures
        is_denied(denied_if(denied, numbers), number, args) <==> denied && numbers.contains(number),
{
    let d = denied_if(denied, numbers);
    if denied && numbers.contains(number) {
        let i = choose|i: int| 0 <= i < numbers.len() && numbers[i] == number;
        assert(d[i] == always(number));
    }
    if is_denied(d, number, args) {
        let i = choose|i: int|
            0 <= i < d.len() && (#[trigger] d[i]).0 == number && applies(d[i].1, args);
        assert(numbers[i] == number);
    }
}

proof fn lemma_family_tests(
    policy: SandboxNetworkPolicy,
    families: FamilyTable,
    args: Seq<u64>,
)
    ensures
        applies(family_tests(policy, families), args) <==> !family_is_allowed(
            policy,
            families,
            args[0],
        ),
{
    let allowed = allowed_families(policy, families);
    let when = family_tests(policy, families);
    if allowed.len() > 0 {
        assert(when[0] == allowed);
        if family_is_allowed(policy, families, args[0]) {
            assert(exists|t: int| 0 <= t < allowed.len() && (#[trigger] allowed[t]) == (
                0u8,
                args[0],
            )) by {
                let unix: int = if policy.allow_unix {
                    1
                } else {
                    0
                };
                let inet: int = if policy.allow_ipv4 {
                    1
                } else {
                    0
                };
                if policy.allow_unix && args[0] == families.unix {
                    assert(allowed[0] == (0u8, args[0]));
                } else if policy.allow_ipv4 && args[0] == families.inet {
                    assert(allowed[unix] == (0u8, args[0]));
                } else {
                    assert(allowed[unix + inet] == (0u8, args[0]));
                }
            }
            assert(!all_differ(when[0], args));
            assert forall|c: int| 0 <= c < when.len() implies !all_differ(
                #[trigger] when[c],
                args,
            ) by {}
        } else {
            assert forall|t: int| 0 <= t < allowed.len() implies args[(
            #[trigger] allowed[t]).0 as int] != allowed[t].1 by {}
            assert(all_differ(when[0], args));
        }
    }
}

/// What a policy's filter denies: each of the calls `connect`, `bind` and `listen`, and the two
/// forms of `accept`, exactly where the policy does not allow it; sockets and socket pairs exactly
/// of the families that it does not allow; the calls that move data exactly where nothing can be
/// connected; and no other call.
pub proof fn filter_gates_each_call(
    policy: SandboxNetworkPolicy,
    calls: SyscallTable,
    families: FamilyTable,
    number: u32,
    args: Seq<u64>,
)
    requires
        are_distinct(calls),
    ensures
        ({
            let denied = is_denied(denied_calls(policy, calls, families), number, args);
            &&& number == calls.connect ==> denied == !policy.allow_connect
            &&& number == calls.bind ==> denied == !policy.allow_bind
            &&& number == calls.listen ==> denied == !policy.allow_listen
            &&& number == calls.accept || number == calls.accept4 ==> denied
                == !policy.allow_accept
            &&& number == calls.socket || number == calls.socketpair ==> denied
                == !family_is_allowed(policy, families, args[0])
            &&& data_calls(calls).contains(number) ==> denied == is_isolated(policy)
            &&& !all_calls(calls).contains(number) ==> !denied
        }),
{
    let a = denied_if(!policy.allow_connect, seq![calls.connect]);
    let b = denied_if(!policy.allow_accept, seq![calls.accept, calls.accept4]);
    let c = denied_if(!policy.allow_bind, seq![calls.bind]);
    let d = denied_if(!policy.allow_listen, seq![calls.listen]);
    let e = denied_if(is_isolated(policy), data_calls(calls));
    let f: Seq<DenialView> = seq![
        (calls.socket, family_tests(policy, families)),
        (calls.socketpair, family_tests(policy, families)),
    ];
    lemma_denied_by_either(a + b + c + d + e, f, number, args);
    lemma_denied_by_either(a + b + c + d, e, number, args);
    lemma_denied_by_either(a + b + c, d, number, args);
    lemma_denied_by_either(a + b, c, number, args);
    lemma_denied_by_either(a, b, number, args);
    lemma_denied_if(!policy.allow_connect, seq![calls.connect], number, args);
    lemma_denied_if(!policy.allow_accept, seq![calls.accept, calls.accept4], number, args);
    lemma_denied_if(!policy.allow_bind, seq![calls.bind], number, args);
    lemma_denied_if(!policy.allow_listen, seq![calls.listen], number, args);
    lemma_denied_if(is_isolated(policy), data_calls(calls), number, args);
    lemma_family_tests(policy, families, args);
    assert(is_denied(f, number, args) <==> (number == calls.socket || number == calls.socketpair)
        && !family_is_allowed(policy, families, args[0])) by {
        assert(f[0].0 == calls.socket && f[1].0 == calls.socketpair);
    }
    let all = all_calls(calls);
    let one = seq![calls.connect];
    let two = seq![calls.accept, calls.accept4];
    let three = seq![calls.bind];
    let four = seq![calls.listen];
    assert(all[0] == calls.connect && all[1] == calls.accept && all[2] == calls.accept4 && all[3]
        == calls.bind && all[4] == calls.listen && all[5] == calls.socket && all[6]
        == calls.socketpair);
    assert(one[0] == calls.connect && two[0] == calls.accept && two[1] == calls.accept4 && three[0]
        == calls.bind && four[0] == calls.listen);
    assert(forall|k: int|
        0 <= k < data_calls(calls).len() ==> #[trigger] all[k + 7] == data_calls(calls)[k]);
    if data_calls(calls).contains(number) {
        let k = choose|k: int| 0 <= k < data_calls(calls).len() && data_calls(calls)[k] == number;
        assert(all[k + 7] == number);
        assert(all[0] != all[k + 7] && all[1] != all[k + 7] && all[2] != all[k + 7] && all[3]
            != all[k + 7] && all[4] != all[k + 7] && all[5] != all[k + 7] && all[6] != all[k + 7]);
    }
}

/// What `seccompiler` makes of some calls with tests on their arguments: the instructions of a
/// filter, where it accepts them. A test asks whether the low 32 bits of an argument differ from
/// its value, or, where `differ` is not set, whether they are its value. A call that is listed and
/// whose tests hold gets `matched`, and every other call `unmatched`: an error number, or, where
/// there is none, leave to go on. An instruction is its code, its two jumps and its operand.
pub uninterp spec fn filter_program(
    listed: Seq<(u32, Seq<Seq<(u8, u64)>>)>,
    differ: bool,
    unmatched: Option<u32>,
    matched: Option<u32>,
    arch: Seq<char>,
) -> Option<Seq<(u16, u8, u8, u32)>>;

/// The filter that gives an error number to each denied call and lets every other call through,
/// where `seccompiler` accepts it.
pub open spec fn denying_program(
    denials: Seq<DenialView>,
    errno: u32,
    arch: Seq<char>,
) -> Option<Seq<(u16, u8, u8, u32)>> {
    filter_program(denials, true, None, Some(errno), arch)
}

/// The error of `seccompiler`.
#[verifier::external_type_specification]
#[verifier::external_body]
pub struct ExBackendError(BackendError);

/// A filter far below the limits of `seccompiler`: at most 32 calls, each with at most one list
/// of one to four tests on an argument that system calls have, for an architecture that it knows.
pub open spec fn is_small_filter(denials: Seq<DenialView>, arch: Seq<char>) -> bool {
    &&& denials.len() <= 32
    &&& arch == "x86_64"@ || arch == "aarch64"@
    &&& forall|i: int| 0 <= i < denials.len() ==> (#[trigger] denials[i]).1.len() <= 1
    &&& forall|i: int|
        0 <= i < denials.len() && (#[trigger] denials[i]).1.len() == 1 ==> is_small_test(
            denials[i].1[0],
        )
}

/// One to four tests on the six arguments of a system call.
pub open spec fn is_small_test(tests: Seq<(u8, u64)>) -> bool {
    1 <= tests.len() <= 4 && forall|t: int| 0 <= t < tests.len() ==> (#[trigger] tests[t]).0 <= 5
}

/// `SeccompFilter::new` on the listed calls, with one action for calls that match and one for those
/// that do not, compiled to a `BpfProgram`. An action is `Errno` with its number, or `Allow` where
/// there is none. The tests of one list are `SeccompCondition`s on the low 32 bits of an argument,
/// with the operator `Ne` where `differ` is set and `Eq` where it is not. Compiling fails for an
/// architecture that the crate does not know, for a list without tests, for an argument above the
/// sixth, for two equal actions and for a program of 4096 instructions or more; a small filter with
/// different actions has none of these, since each of its calls takes at most 29 instructions.
#[verifier::external_body]
fn compile_filter(
    listed: &Vec<DeniedSyscall>,
    differ: bool,
    unmatched: Option<u32>,
    matched: Option<u32>,
    arch: &str,
) -> (r: Result<Vec<(u16, u8, u8, u32)>, BackendError>)
    ensures
        match r {
            Ok(program) => filter_program(
                denial_views(listed@),
                differ,
                unmatched,
                matched,
                arch@,
            ) == Some(program@),
            Err(_) => filter_program(
                denial_views(listed@),
                differ,
                unmatched,
                matched,
                arch@,
            ) is None,
        },
        is_small_filter(denial_views(listed@), arch@) && unmatched != matched ==> r is Ok,
{
    let mut rules = BTreeMap::new();
    for d in listed {
        let mut chain = vec![];
        for tests in &d.when {
            let mut list = vec![];
            for t in tests {
                let op = if differ { Ne } else { SeccompCmpOp::Eq };
                list.push(SeccompCondition::new(t.0, Dword, op, t.1)?);
            }
            chain.push(SeccompRule::new(list)?);
        }
        rules.insert(d.number.into(), chain);
    }
    let filter = SeccompFilter::new(rules, unmatched.map_or(Allow, Errno), matched.map_or(Allow, Errno), arch.try_into()?)?;
    Ok(BpfProgram::try_from(filter)?.iter().map(|i| (i.code, i.jt, i.jf, i.k)).collect())
}

/// The text of an error of `seccompiler`, as its `Display` gives it. Nothing is said of the text,
/// since nothing is known of the error.
#[verifier::external_body]
fn backend_error_text(error: &BackendError) -> (r: String) {
    error.to_string()
}

/// The text for an architecture that no filter can be made for.
pub open spec fn unsupported_architecture() -> Seq<char> {
    "unsupported architecture for seccomp sandbox"@
}

/// Architectures that filters are made for.
pub open spec fn is_supported_architecture(arch: Seq<char>) -> bool {
    arch == "x86_64"@ || arch == "aarch64"@
}

/// How the result of compiling a filter is reported: a failure is one of permission, with the
/// compiler's text.
pub fn filter_outcome(compiled: Result<Vec<(u16, u8, u8, u32)>, BackendError>) -> (r: Result<
    Vec<(u16, u8, u8, u32)>,
    IoFailure,
>)
    ensures
        match compiled {
            Ok(program) => r == Ok::<Vec<(u16, u8, u8, u32)>, IoFailure>(program),
            Err(_) => r matches Err(e) && e.kind == IoFailureKind::PermissionDenied
                && e.raw_os_error is None,
        },
{
    match compiled {
        Ok(program) => Ok(program),
        Err(error) => Err(
            IoFailure {
                kind: IoFailureKind::PermissionDenied,
                raw_os_error: None,
                message: backend_error_text(&error),
            },
        ),
    }
}

proof fn lemma_policy_filters_are_small(
    policy: SandboxNetworkPolicy,
    calls: SyscallTable,
    families: FamilyTable,
    arch: Seq<char>,
)
    requires
        is_supported_architecture(arch),
    ensures
        is_small_filter(denied_calls(policy, calls, families), arch),
{
    let d = denied_calls(policy, calls, families);
    let tests = family_tests(policy, families);
    assert(d.len() <= 18);
    assert forall|i: int| 0 <= i < d.len() implies (#[trigger] d[i]).1.len() <= 1 && (d[i].1.len()
        == 1 ==> d[i].1 == tests) by {}
    if tests.len() == 1 {
        assert(is_small_test(tests[0]));
    }
}

/// The filter that a policy is enforced with on Linux, compiled for an architecture; `None` where
/// the policy needs no filter.
pub fn compile_network_filter(
    policy: SandboxNetworkPolicy,
    calls: SyscallTable,
    families: FamilyTable,
    errno: u32,
    arch: &str,
) -> (r: Result<Option<Vec<(u16, u8, u8, u32)>>, IoFailure>)
    ensures
        match network_denials(policy, calls, families) {
            None => r matches Ok(None),
            Some(denials) => if is_supported_architecture(arch@) {
                r matches Ok(Some(program)) && denying_program(denials, errno, arch@) == Some(
                    program@,
                )
            } else {
                r matches Err(e) && e.kind == IoFailureKind::Unsupported && e.raw_os_error is None
                    && e.message@ == unsupported_architecture()
            },
        },
{
    let denials = match network_filter(policy, calls, families) {
        None => {
            return Ok(None);
        },
        Some(denials) => denials,
    };
    if !same_text(arch, "x86_64") && !same_text(arch, "aarch64") {
        return Err(
            IoFailure {
                kind: IoFailureKind::Unsupported,
                raw_os_error: None,
                message: "unsupported architecture for seccomp sandbox".to_owned(),
            },
        );
    }
    proof {
        lemma_policy_filters_are_small(policy, calls, families, arch@);
    }
    match filter_outcome(compile_filter(&denials, true, None, Some(errno), arch)) {
        Ok(program) => Ok(Some(program)),
        Err(e) => Err(e),
    }
}

/// The calls that a policy's filter denies, told from the policy's permissions one by one. Sockets
/// can be made of the allowed families alone. Where no address family of the network and none of
/// the four operations is allowed, nothing can be sent, received or inspected either.
pub proof fn filters_follow_the_permissions(
    policy: SandboxNetworkPolicy,
    calls: SyscallTable,
    families: FamilyTable,
    number: u32,
    args: Seq<u64>,
)
    requires
        are_distinct(calls),
    ensures
        ({
            let denied = is_denied(denied_calls(policy, calls, families), number, args);
            let silent = !policy.allow_ipv4 && !policy.allow_ipv6 && !policy.allow_connect
                && !policy.allow_bind && !policy.allow_listen && !policy.allow_accept;
            let moves_data = number == calls.getpeername || number == calls.getsockname || number
                == calls.shutdown || number == calls.sendto || number == calls.sendmsg || number
                == calls.sendmmsg || number == calls.recvmsg || number == calls.recvmmsg || number
                == calls.getsockopt || number == calls.setsockopt || number == calls.ptrace;
            let opens = number == calls.socket || number == calls.socketpair;
            &&& denied <==> {
                ||| number == calls.connect && !policy.allow_connect
                ||| number == calls.bind && !policy.allow_bind
                ||| number == calls.listen && !policy.allow_listen
                ||| (number == calls.accept || number == calls.accept4) && !policy.allow_accept
                ||| moves_data && silent
                ||| opens && !(policy.allow_unix && args[0] == families.unix) && !(policy.allow_ipv4
                    && args[0] == families.inet) && !(policy.allow_ipv6 && args[0]
                    == families.inet6)
            }
        }),
{
    filter_gates_each_call(policy, calls, families, number, args);
    let data = data_calls(calls);
    assert(data[0] == calls.getpeername && data[1] == calls.getsockname && data[2] == calls.shutdown
        && data[3] == calls.sendto && data[4] == calls.sendmsg && data[5] == calls.sendmmsg
        && data[6] == calls.recvmsg && data[7] == calls.recvmmsg && data[8] == calls.getsockopt
        && data[9] == calls.setsockopt && data[10] == calls.ptrace);
    let all = all_calls(calls);
    assert(all[0] == calls.connect && all[1] == calls.accept && all[2] == calls.accept4 && all[3]
        == calls.bind && all[4] == calls.listen && all[5] == calls.socket && all[6]
        == calls.socketpair);
    assert(forall|k: int| 0 <= k < data.len() ==> #[trigger] all[k + 7] == data[k]);
    if data.contains(number) {
        let k = choose|k: int| 0 <= k < data.len() && data[k] == number;
        assert(all[k + 7] == number);
        assert(all[0] != all[k + 7] && all[1] != all[k + 7] && all[2] != all[k + 7] && all[3]
            != all[k + 7] && all[4] != all[k + 7] && all[5] != all[k + 7] && all[6] != all[k + 7]);
    } else if all.contains(number) {
        let k = choose|k: int| 0 <= k < all.len() && all[k] == number;
        assert(k >= 7 ==> data[k - 7] == number);
    }
}

/// Only a run with every permission goes without a filter, and a filter can be had on the two
/// architectures that it is made for.
pub proof fn only_full_permission_needs_no_filter(
    policy: SandboxNetworkPolicy,
    calls: SyscallTable,
    families: FamilyTable,
)
    ensures
        network_denials(policy, calls, families) is None <==> policy.allow_unix && policy.allow_ipv4
            && policy.allow_ipv6 && policy.allow_connect && policy.allow_bind && policy.allow_listen
            && policy.allow_accept,
        network_denials(policy, calls, families) is Some ==> network_denials(
            policy,
            calls,
            families,
        )->0 == denied_calls(policy, calls, families),
        is_supported_architecture("x86_64"@) && is_supported_architecture("aarch64"@),
{
}

} // verus!
