//! The container that a command runs in on Windows.
use vstd::prelude::*;
use vstd::string::StringExecFns;

use crate::error::{ErrorView, SandboxError};
use crate::path::{display_text, PathStyle, SandboxPath};
use crate::policy::SandboxCoarseNetworkPolicy;
use crate::text::{
    decimal, hex_number, hexadecimal, hexadecimals_read_back, number, signed_decimal, signed_number,
    texts,
};

verus! {

/// The attribute of a capability that is in force.
pub const GROUP_ATTRIBUTE_ENABLED: u32 = 4;

/// A number from `rand::random`. Nothing is known of it but that it is a number of 32 bits.
#[verifier::external_body]
fn random_number() -> (r: u32) {
    rand::random::<u32>()
}

/// A name made of a text, the number of the process and another number.
pub open spec fn numbered_name(prefix: Seq<char>, pid: u32, sep: Seq<char>, nonce: u32) -> Seq<
    char,
> {
    prefix + decimal(pid as nat) + sep + decimal(nonce as nat)
}

/// A name made of a text, the number of the process and another number.
pub fn name_with_numbers(prefix: &str, pid: u32, sep: &str, nonce: u32) -> (r: String)
    ensures
        r@ == numbered_name(prefix@, pid, sep@, nonce),
{
    let mut name = prefix.to_owned();
    name.append(number(pid as u128).as_str());
    name.append(sep);
    name.append(number(nonce as u128).as_str());
    name
}

/// What names are made for.
#[derive(Debug, Clone, Copy, PartialEq, Eq, Structural)]
pub enum NamePurpose {
    /// A container.
    Container,
    /// The directory of the helper that sets up access lists and the network.
    HelperDirectory,
    /// The firewall rules of that helper.
    HelperRules,
    /// The directory of the helper that only blocks the network.
    FirewallDirectory,
    /// The firewall rules of that helper.
    FirewallRules,
}

/// The text that a name starts with.
pub open spec fn name_prefix(purpose: NamePurpose) -> Seq<char> {
    match purpose {
        NamePurpose::Container => "procwarden_"@,
        NamePurpose::HelperDirectory => "procwarden-elevated-ops-"@,
        NamePurpose::HelperRules => "procwarden-elevated-all-"@,
        NamePurpose::FirewallDirectory => "procwarden-elevated-wfp-"@,
        NamePurpose::FirewallRules => "procwarden-elevated-"@,
    }
}

/// The text between the two numbers of a name.
pub open spec fn name_separator(purpose: NamePurpose) -> Seq<char> {
    match purpose {
        NamePurpose::Container => "_"@,
        _ => "-"@,
    }
}

/// The name for a purpose with a given number.
pub fn name_for(purpose: NamePurpose, pid: u32, nonce: u32) -> (r: String)
    ensures
        r@ == numbered_name(name_prefix(purpose), pid, name_separator(purpose), nonce),
{
    match purpose {
        NamePurpose::Container => name_with_numbers("procwarden_", pid, "_", nonce),
        NamePurpose::HelperDirectory => name_with_numbers(
            "procwarden-elevated-ops-",
            pid,
            "-",
            nonce,
        ),
        NamePurpose::HelperRules => name_with_numbers("procwarden-elevated-all-", pid, "-", nonce),
        NamePurpose::FirewallDirectory => name_with_numbers(
            "procwarden-elevated-wfp-",
            pid,
            "-",
            nonce,
        ),
        NamePurpose::FirewallRules => name_with_numbers("procwarden-elevated-", pid, "-", nonce),
    }
}

/// A new name for a purpose, with a random number.
pub fn fresh_name(purpose: NamePurpose, pid: u32) -> (r: String)
    ensures
        exists|nonce: u32|
            r@ == #[trigger] numbered_name(
                name_prefix(purpose),
                pid,
                name_separator(purpose),
                nonce,
            ),
{
    name_for(purpose, pid, random_number())
}

/// The two firewall rules of a prefix: for connections to the outside and from it.
pub fn rule_names(prefix: &str) -> (r: (String, String))
    ensures
        r.0@ == prefix@ + "-out"@,
        r.1@ == prefix@ + "-in"@,
{
    (prefix.to_owned().concat("-out"), prefix.to_owned().concat("-in"))
}

/// The capabilities of a container: the three for the network, where its policy allows it.
pub open spec fn capabilities(policy: SandboxCoarseNetworkPolicy) -> Seq<Seq<char>> {
    if policy == SandboxCoarseNetworkPolicy::Disabled {
        Seq::empty()
    } else {
        seq!["S-1-15-3-1"@, "S-1-15-3-2"@, "S-1-15-3-3"@]
    }
}

/// The capabilities of a container.
pub fn network_capabilities(policy: SandboxCoarseNetworkPolicy) -> (r: Vec<String>)
    ensures
        texts(r@) == capabilities(policy),
{
    let mut r: Vec<String> = Vec::new();
    if policy.allows_ip_network() {
        r.push("S-1-15-3-1".to_owned());
        r.push("S-1-15-3-2".to_owned());
        r.push("S-1-15-3-3".to_owned());
    }
    assert(texts(r@) =~= capabilities(policy));
    r
}

/// The error for a capability that the system does not take.
pub fn capability_error(sid: &str, code: i32, detail: &str) -> (r: SandboxError)
    ensures
        r@ == ErrorView::Windows(
            "ConvertStringSidToSidW failed for network capability SID "@ + sid@ + ": "@
                + signed_decimal(code as int) + " ("@ + detail@ + ")"@,
        ),
{
    let mut message = "ConvertStringSidToSidW failed for network capability SID ".to_owned();
    message.append(sid);
    message.append(": ");
    message.append(signed_number(code as i64).as_str());
    message.append(" (");
    message.append(detail);
    message.append(")");
    SandboxError::Windows(message)
}

/// The bits of a result code.
pub open spec fn result_bits(code: i32) -> nat {
    if code >= 0 {
        code as nat
    } else {
        (code + 0x1_0000_0000) as nat
    }
}

/// A result code as messages show it.
pub open spec fn result_text(code: i32) -> Seq<char> {
    "0x"@ + hexadecimal(result_bits(code), 8)
}

fn show_result(code: i32) -> (r: String)
    ensures
        r@ == result_text(code),
{
    let bits: u32 = if code >= 0 {
        code as u32
    } else {
        (code as i64 + 0x1_0000_0000) as u32
    };
    "0x".to_owned().concat(hex_number(bits, 8).as_str())
}

/// Where the container's identity comes from: it was created, or it was there already.
#[derive(Debug, PartialEq, Eq)]
pub enum ContainerOrigin {
    Created,
    Derived,
}

/// Where the container's identity comes from, or why there is none: creating it is tried first,
/// and deriving it from its name second. Codes below zero are failures.
pub fn container_origin(create: i32, derive: i32) -> (r: Result<ContainerOrigin, SandboxError>)
    ensures
        match r {
            Ok(ContainerOrigin::Created) => create >= 0,
            Ok(ContainerOrigin::Derived) => create < 0 && derive >= 0,
            Err(e) => create < 0 && derive < 0 && e@ == ErrorView::Windows(
                "CreateAppContainerProfile/DeriveAppContainerSidFromAppContainerName failed: "@
                    + result_text(create) + "/"@ + result_text(derive),
            ),
        },
{
    if create >= 0 {
        return Ok(ContainerOrigin::Created);
    }
    if derive >= 0 {
        return Ok(ContainerOrigin::Derived);
    }
    let mut message =
        "CreateAppContainerProfile/DeriveAppContainerSidFromAppContainerName failed: ".to_owned();
    message.append(show_result(create).as_str());
    message.append("/");
    message.append(show_result(derive).as_str());
    Err(SandboxError::Windows(message))
}

/// What the result of registering a program for the network means.
pub fn register_binary_result(code: i32) -> (r: Result<(), SandboxError>)
    ensures
        match r {
            Ok(_) => code >= 0,
            Err(e) => code < 0 && e@ == ErrorView::Windows(
                "NetworkIsolationSetupAppContainerBinaries failed: "@ + result_text(code),
            ),
        },
{
    if code >= 0 {
        return Ok(());
    }
    let mut message = "NetworkIsolationSetupAppContainerBinaries failed: ".to_owned();
    message.append(show_result(code).as_str());
    Err(SandboxError::Windows(message))
}

/// The error for a program without a directory.
pub fn parentless_executable(executable: &SandboxPath) -> (r: SandboxError)
    ensures
        r@ == ErrorView::InvalidRequest(
            "resolved executable has no parent directory: "@ + display_text(
                PathStyle::Windows,
                executable@,
            ),
        ),
{
    let shown = executable.display(PathStyle::Windows);
    SandboxError::InvalidRequest(
        "resolved executable has no parent directory: ".to_owned().concat(shown.as_str()),
    )
}

/// What is to be done to exempt a container from the isolation of the own machine.
#[derive(Debug, Clone, Copy, PartialEq, Eq, Structural)]
pub enum ExemptionStep {
    /// It is exempt already, and stays so afterwards.
    AlreadyThere,
    /// Add it to the exempt ones, look whether it was kept, and remove it afterwards.
    Add,
}

/// What is to be done to exempt a container. `listed` says whether it is exempt already.
pub fn exemption_step(listed: bool) -> (r: ExemptionStep)
    ensures
        r == if listed {
            ExemptionStep::AlreadyThere
        } else {
            ExemptionStep::Add
        },
{
    if listed {
        ExemptionStep::AlreadyThere
    } else {
        ExemptionStep::Add
    }
}

/// What a second look after adding a container means.
pub fn exemption_kept(listed: bool) -> (r: Result<(), SandboxError>)
    ensures
        match r {
            Ok(_) => listed,
            Err(e) => !listed && e@ == ErrorView::Windows(
                "NetworkIsolationSetAppContainerConfig did not retain the requested AppContainer SID"@,
            ),
        },
{
    if listed {
        Ok(())
    } else {
        Err(
            SandboxError::Windows(
                "NetworkIsolationSetAppContainerConfig did not retain the requested AppContainer SID".to_owned(),
            ),
        )
    }
}

/// A container without network has no capability for it, and every other one has all three.
pub proof fn only_networked_containers_have_capabilities(policy: SandboxCoarseNetworkPolicy)
    ensures
        capabilities(policy).len() == if policy == SandboxCoarseNetworkPolicy::Disabled {
            0int
        } else {
            3int
        },
{
}

/// The three capabilities of a container with network are those of its clients and servers, on the
/// internet and in private networks; a container without network has none of them.
pub proof fn capabilities_are_those_of_the_network(policy: SandboxCoarseNetworkPolicy, sid: Seq<char>)
    ensures
        capabilities(policy).contains(sid) <==> policy != SandboxCoarseNetworkPolicy::Disabled && (sid
            == "S-1-15-3-1"@ || sid == "S-1-15-3-2"@ || sid == "S-1-15-3-3"@),
{
    let c = capabilities(policy);
    if policy != SandboxCoarseNetworkPolicy::Disabled {
        assert(c[0] == "S-1-15-3-1"@ && c[1] == "S-1-15-3-2"@ && c[2] == "S-1-15-3-3"@);
    }
}

/// The name of something that a run makes starts with what it is for and the number of the process,
/// and ends with the random number.
pub proof fn names_hold_their_numbers(purpose: NamePurpose, pid: u32, nonce: u32)
    ensures
        ({
            let name = numbered_name(name_prefix(purpose), pid, name_separator(purpose), nonce);
            let start = match purpose {
                NamePurpose::Container => "procwarden_"@,
                NamePurpose::HelperDirectory => "procwarden-elevated-ops-"@,
                NamePurpose::HelperRules => "procwarden-elevated-all-"@,
                NamePurpose::FirewallDirectory => "procwarden-elevated-wfp-"@,
                NamePurpose::FirewallRules => "procwarden-elevated-"@,
            };
            let between = if purpose == NamePurpose::Container {
                '_'
            } else {
                '-'
            };
            let pid_text = decimal(pid as nat);
            let nonce_text = decimal(nonce as nat);
            &&& name.len() == start.len() + pid_text.len() + 1 + nonce_text.len()
            &&& name.take(start.len() as int) == start
            &&& name.subrange(start.len() as int, (start.len() + pid_text.len()) as int) == pid_text
            &&& name[(start.len() + pid_text.len()) as int] == between
            &&& name.subrange(name.len() - nonce_text.len(), name.len() as int) == nonce_text
        }),
{
    reveal_strlit("_");
    reveal_strlit("-");
    let start = name_prefix(purpose);
    let pid_text = decimal(pid as nat);
    let nonce_text = decimal(nonce as nat);
    let name = numbered_name(start, pid, name_separator(purpose), nonce);
    assert(name.take(start.len() as int) =~= start);
    assert(name.subrange(start.len() as int, (start.len() + pid_text.len()) as int) =~= pid_text);
    assert(name.subrange(name.len() - nonce_text.len(), name.len() as int) =~= nonce_text);
}

/// A result code is shown by its bits: as the number itself, or as that number and 2 to the power
/// of 32.
pub proof fn result_codes_are_shown_by_their_bits(code: i32)
    ensures
        result_bits(code) < 0x1_0000_0000,
        result_bits(code) == code || result_bits(code) == code + 0x1_0000_0000,
        result_text(code).len() == 10,
        result_text(code).subrange(2, 10) == hexadecimal(result_bits(code), 8),
{
    reveal_strlit("0x");
    hexadecimals_read_back(result_bits(code), 8);
    assert(result_text(code).subrange(2, 10) =~= hexadecimal(result_bits(code), 8));
}

} // verus!
