//! From a request and a policy to a run that a platform can carry out.
//!
//! Whether paths exist and what they resolve to is observed outside and handed in as
//! [`PathProbe`] values. Everything that is decided on these observations is decided here.
use vstd::prelude::*;
use vstd::string::StringExecFns;

use crate::env::{sanitize_env_vars, sanitized_env, EnvMap};
use crate::error::{ErrorView, SandboxError};
use crate::overlay::{
    access_label, amounts_to, overlay_rules, path_access_label, rules_or_error,
};
use crate::path::{
    display_text, strip_windows_verbatim_prefix, without_verbatim_prefix, PathStyle, SandboxPath,
};
use crate::policy::{
    permission_views, PermissionView, SandboxPathAccess, SandboxPathPermission, SandboxPolicy,
};
use crate::text::{blank, copy_strings, is_blank, texts};

verus! {

/// What was observed of a path.
#[derive(Debug, PartialEq, Eq)]
pub enum PathProbe {
    /// Nothing exists there.
    Missing,
    /// Something exists there, and resolving it failed with this text.
    Unresolvable(String),
    /// Something exists there, under this canonical path.
    Resolved { canonical: SandboxPath, is_dir: bool },
}

/// The mathematical value of an observation.
pub enum ProbeView {
    Missing,
    Unresolvable(Seq<char>),
    Resolved(Seq<u8>, bool),
}

impl View for PathProbe {
    type V = ProbeView;

    open spec fn view(&self) -> ProbeView {
        match *self {
            PathProbe::Missing => ProbeView::Missing,
            PathProbe::Unresolvable(m) => ProbeView::Unresolvable(m@),
            PathProbe::Resolved { canonical, is_dir } => ProbeView::Resolved(canonical@, is_dir),
        }
    }
}

/// The values of a list of observations.
pub open spec fn probe_views(v: Seq<PathProbe>) -> Seq<ProbeView> {
    Seq::new(v.len(), |i: int| v[i]@)
}

/// A command to run, where, with which environment and for how long at most.
#[derive(Debug, PartialEq, Eq)]
pub struct SandboxCommandRequest {
    pub command: Vec<String>,
    pub cwd: SandboxPath,
    pub env: EnvMap,
    pub timeout_ms: Option<u64>,
}

/// The mathematical value of a request.
pub struct RequestView {
    pub command: Seq<Seq<char>>,
    pub cwd: Seq<u8>,
    pub env: Map<Seq<char>, Seq<char>>,
    pub timeout_ms: Option<u64>,
}

impl View for SandboxCommandRequest {
    type V = RequestView;

    open spec fn view(&self) -> RequestView {
        RequestView {
            command: texts(self.command@),
            cwd: self.cwd@,
            env: self.env@,
            timeout_ms: self.timeout_ms,
        }
    }
}

impl Clone for SandboxCommandRequest {
    fn clone(&self) -> (r: Self)
        ensures
            r@ == self@,
    {
        SandboxCommandRequest {
            command: copy_strings(&self.command),
            cwd: self.cwd.clone(),
            env: self.env.clone(),
            timeout_ms: self.timeout_ms,
        }
    }
}

/// What is wrong with a command: it has no token, or its first token is blank.
pub open spec fn command_error(command: Seq<Seq<char>>) -> Option<ErrorView> {
    if command.len() == 0 {
        Some(ErrorView::InvalidRequest("command must contain at least one token"@))
    } else if is_blank(command[0]) {
        Some(ErrorView::InvalidRequest("command executable must not be empty"@))
    } else {
        None
    }
}

/// The canonical path in the form in which rules compare it: without a verbatim prefix.
pub open spec fn canonical_form(style: PathStyle, canonical: Seq<u8>) -> Seq<u8> {
    match style {
        PathStyle::Unix => canonical,
        PathStyle::Windows => without_verbatim_prefix(canonical),
    }
}

/// The text that a path with a given label does not exist.
pub open spec fn missing_text(
    style: PathStyle,
    path: Seq<u8>,
    label: Seq<char>,
    allow: bool,
) -> Seq<char> {
    let text = label + " does not exist: "@ + display_text(style, path);
    if allow {
        text + " (allow path does not exist)"@
    } else {
        text
    }
}

/// The text that a path with a given label is empty.
pub open spec fn empty_text(label: Seq<char>, allow: bool) -> Seq<char> {
    let text = label + " must not be empty"@;
    if allow {
        text + " (allow path must not be empty)"@
    } else {
        text
    }
}

/// The canonical form of a path that has to exist, or why there is none. `allow` says whether
/// the path is one that a rule grants access to.
pub open spec fn existing_path(
    style: PathStyle,
    path: Seq<u8>,
    label: Seq<char>,
    reject_empty: bool,
    allow: bool,
    probe: ProbeView,
) -> Result<Seq<u8>, ErrorView> {
    if reject_empty && path.len() == 0 {
        Err(ErrorView::InvalidRequest(empty_text(label, allow)))
    } else {
        match probe {
            ProbeView::Missing => Err(
                ErrorView::InvalidRequest(missing_text(style, path, label, allow)),
            ),
            ProbeView::Unresolvable(error) => Err(
                ErrorView::InvalidRequest(
                    label + " cannot be canonicalized: "@ + display_text(style, path) + ": "@
                        + error,
                ),
            ),
            ProbeView::Resolved(canonical, _) => Ok(canonical_form(style, canonical)),
        }
    }
}

/// The canonical form of a directory that has to exist, or why there is none.
pub open spec fn existing_dir(
    style: PathStyle,
    path: Seq<u8>,
    label: Seq<char>,
    probe: ProbeView,
) -> Result<Seq<u8>, ErrorView> {
    match existing_path(style, path, label, false, false, probe) {
        Err(e) => Err(e),
        Ok(canonical) => if probe->Resolved_1 {
            Ok(canonical)
        } else {
            Err(
                ErrorView::InvalidRequest(
                    label + " is not a directory: "@ + display_text(style, path),
                ),
            )
        },
    }
}

/// The request as it is run, or why it is not: the command is checked first, and then the
/// working directory.
pub open spec fn sanitized_request(
    style: PathStyle,
    request: RequestView,
    cwd: ProbeView,
) -> Result<RequestView, ErrorView> {
    match command_error(request.command) {
        Some(e) => Err(e),
        None => match existing_dir(style, request.cwd, "sandbox cwd"@, cwd) {
            Err(e) => Err(e),
            Ok(canonical) => Ok(
                RequestView { cwd: canonical, env: sanitized_env(request.env), ..request },
            ),
        },
    }
}

/// The rule with its path in canonical form, or why there is none.
pub open spec fn resolved_rule(
    style: PathStyle,
    rule: PermissionView,
    probe: ProbeView,
) -> Result<PermissionView, ErrorView> {
    match existing_path(
        style,
        rule.path,
        access_label(rule.access) + " path"@,
        true,
        rule.access != SandboxPathAccess::Deny,
        probe,
    ) {
        Ok(path) => Ok(PermissionView { path, access: rule.access }),
        Err(e) => Err(e),
    }
}

/// The rules with their paths in canonical form; the first rule that has none gives the error.
pub open spec fn resolved_rules(
    style: PathStyle,
    rules: Seq<PermissionView>,
    probes: Seq<ProbeView>,
) -> Result<Seq<PermissionView>, ErrorView>
    decreases rules.len(),
{
    if rules.len() == 0 {
        Ok(Seq::empty())
    } else {
        match resolved_rules(style, rules.drop_last(), probes.drop_last()) {
            Err(e) => Err(e),
            Ok(front) => match resolved_rule(style, rules.last(), probes.last()) {
                Err(e) => Err(e),
                Ok(rule) => Ok(front.push(rule)),
            },
        }
    }
}

fn sanitize_existing_path(
    style: PathStyle,
    path: &SandboxPath,
    label: &str,
    reject_empty: bool,
    allow: bool,
    probe: &PathProbe,
) -> (r: Result<SandboxPath, SandboxError>)
    ensures
        match r {
            Ok(p) => existing_path(style, path@, label@, reject_empty, allow, probe@) == Ok::<
                Seq<u8>,
                ErrorView,
            >(p@),
            Err(e) => existing_path(style, path@, label@, reject_empty, allow, probe@) == Err::<
                Seq<u8>,
                ErrorView,
            >(e@),
        },
{
    if reject_empty && path.is_empty() {
        let mut message = label.to_owned();
        message.append(" must not be empty");
        if allow {
            message.append(" (allow path must not be empty)");
        }
        return Err(SandboxError::InvalidRequest(message));
    }
    match probe {
        PathProbe::Missing => {
            let mut message = label.to_owned();
            message.append(" does not exist: ");
            message.append(path.display(style).as_str());
            if allow {
                message.append(" (allow path does not exist)");
            }
            Err(SandboxError::InvalidRequest(message))
        },
        PathProbe::Unresolvable(error) => {
            let mut message = label.to_owned();
            message.append(" cannot be canonicalized: ");
            message.append(path.display(style).as_str());
            message.append(": ");
            message.append(error.as_str());
            Err(SandboxError::InvalidRequest(message))
        },
        PathProbe::Resolved { canonical, is_dir: _ } => match style {
            PathStyle::Unix => Ok(canonical.clone()),
            PathStyle::Windows => Ok(strip_windows_verbatim_prefix(canonical)),
        },
    }
}

fn sanitize_existing_dir(
    style: PathStyle,
    path: &SandboxPath,
    label: &str,
    probe: &PathProbe,
) -> (r: Result<SandboxPath, SandboxError>)
    ensures
        match r {
            Ok(p) => existing_dir(style, path@, label@, probe@) == Ok::<Seq<u8>, ErrorView>(p@),
            Err(e) => existing_dir(style, path@, label@, probe@) == Err::<Seq<u8>, ErrorView>(e@),
        },
{
    let canonical = sanitize_existing_path(style, path, label, false, false, probe)?;
    let directory = match probe {
        PathProbe::Resolved { canonical: _, is_dir } => *is_dir,
        _ => false,
    };
    if !directory {
        let mut message = label.to_owned();
        message.append(" is not a directory: ");
        message.append(path.display(style).as_str());
        return Err(SandboxError::InvalidRequest(message));
    }
    Ok(canonical)
}

impl SandboxCommandRequest {
    fn validate_command(&self) -> (r: Result<(), SandboxError>)
        ensures
            match r {
                Ok(_) => command_error(self@.command) is None,
                Err(e) => command_error(self@.command) == Some(e@),
            },
    {
        if self.command.len() == 0 {
            return Err(
                SandboxError::InvalidRequest("command must contain at least one token".to_owned()),
            );
        }
        assert(self@.command[0] == self.command@[0]@);
        if blank(self.command[0].as_str()) {
            return Err(
                SandboxError::InvalidRequest("command executable must not be empty".to_owned()),
            );
        }
        Ok(())
    }

    /// Checks that there is a command and that the working directory exists.
    pub fn validate(&self, style: PathStyle, cwd: &PathProbe) -> (r: Result<(), SandboxError>)
        ensures
            match r {
                Ok(_) => sanitized_request(style, self@, cwd@) is Ok,
                Err(e) => sanitized_request(style, self@, cwd@) == Err::<RequestView, ErrorView>(
                    e@,
                ),
            },
    {
        self.validate_command()?;
        match sanitize_existing_dir(style, &self.cwd, "sandbox cwd", cwd) {
            Ok(_) => Ok(()),
            Err(e) => Err(e),
        }
    }

    /// The request as it is run: in the canonical working directory and with a sanitized
    /// environment.
    pub fn sanitized_for_execution(&self, style: PathStyle, cwd: &PathProbe) -> (r: Result<
        Self,
        SandboxError,
    >)
        ensures
            match r {
                Ok(s) => sanitized_request(style, self@, cwd@) == Ok::<RequestView, ErrorView>(s@),
                Err(e) => sanitized_request(style, self@, cwd@) == Err::<RequestView, ErrorView>(
                    e@,
                ),
            },
    {
        self.validate_command()?;
        let directory = sanitize_existing_dir(style, &self.cwd, "sandbox cwd", cwd)?;
        Ok(
            SandboxCommandRequest {
                command: copy_strings(&self.command),
                cwd: directory,
                env: sanitize_env_vars(&self.env),
                timeout_ms: self.timeout_ms,
            },
        )
    }
}

fn sanitize_policy_path(
    style: PathStyle,
    rule: &SandboxPathPermission,
    probe: &PathProbe,
) -> (r: Result<SandboxPathPermission, SandboxError>)
    ensures
        match r {
            Ok(p) => resolved_rule(style, rule@, probe@) == Ok::<PermissionView, ErrorView>(p@),
            Err(e) => resolved_rule(style, rule@, probe@) == Err::<PermissionView, ErrorView>(e@),
        },
{
    let mut label = path_access_label(rule.access).to_owned();
    label.append(" path");
    let allow = rule.access != SandboxPathAccess::Deny;
    let path = sanitize_existing_path(style, &rule.path, label.as_str(), true, allow, probe)?;
    Ok(SandboxPathPermission { path, access: rule.access })
}

proof fn lemma_error_stays(
    style: PathStyle,
    rules: Seq<PermissionView>,
    probes: Seq<ProbeView>,
    n: int,
)
    requires
        rules.len() == probes.len(),
        0 <= n <= rules.len(),
        resolved_rules(style, rules.take(n), probes.take(n)) is Err,
    ensures
        resolved_rules(style, rules, probes) == resolved_rules(style, rules.take(n), probes.take(n)),
    decreases rules.len(),
{
    if n == rules.len() {
        assert(rules.take(n) =~= rules);
        assert(probes.take(n) =~= probes);
    } else {
        assert(rules.drop_last().take(n) =~= rules.take(n));
        assert(probes.drop_last().take(n) =~= probes.take(n));
        lemma_error_stays(style, rules.drop_last(), probes.drop_last(), n);
    }
}

fn resolve_rules(
    style: PathStyle,
    rules: &Vec<SandboxPathPermission>,
    probes: &Vec<PathProbe>,
) -> (r: Result<Vec<SandboxPathPermission>, SandboxError>)
    requires
        rules.len() == probes.len(),
    ensures
        rules_or_error(r) == resolved_rules(
            style,
            permission_views(rules@),
            probe_views(probes@),
        ),
{
    let mut out: Vec<SandboxPathPermission> = Vec::new();
    let ghost all = permission_views(rules@);
    let ghost seen = probe_views(probes@);
    assert(permission_views(out@) =~= Seq::empty());
    for n in 0..rules.len()
        invariant
            rules.len() == probes.len(),
            all == permission_views(rules@),
            seen == probe_views(probes@),
            resolved_rules(style, all.take(n as int), seen.take(n as int)) == Ok::<
                Seq<PermissionView>,
                ErrorView,
            >(permission_views(out@)),
    {
        proof {
            assert(all.take(n + 1).drop_last() =~= all.take(n as int));
            assert(seen.take(n + 1).drop_last() =~= seen.take(n as int));
            assert(all.take(n + 1).last() == rules@[n as int]@);
            assert(seen.take(n + 1).last() == probes@[n as int]@);
        }
        match sanitize_policy_path(style, &rules[n], &probes[n]) {
            Err(e) => {
                proof {
                    lemma_error_stays(style, all, seen, n + 1);
                }
                return Err(e);
            },
            Ok(rule) => {
                let ghost before = permission_views(out@);
                out.push(rule);
                assert(permission_views(out@) =~= before.push(rule@));
            },
        }
    }
    assert(all.take(all.len() as int) =~= all);
    assert(seen.take(seen.len() as int) =~= seen);
    Ok(out)
}

/// How a policy is turned into the one that is enforced.
pub open spec fn sanitizes_policy(
    style: PathStyle,
    policy: SandboxPolicy,
    probes: Seq<ProbeView>,
    r: Result<SandboxPolicy, SandboxError>,
) -> bool {
    &&& match resolved_rules(style, policy@.path_permissions, probes) {
        Err(e) => r matches Err(x) && x@ == e,
        Ok(rules) => amounts_to(style, policy.default_access, rules, policy_rules(r)),
    }
    &&& r matches Ok(p) ==> p.default_access == policy.default_access && p.network_policy
        == policy.network_policy
}

/// The rules of a policy or the error in its place.
pub open spec fn policy_rules(r: Result<SandboxPolicy, SandboxError>) -> Result<
    Seq<PermissionView>,
    ErrorView,
> {
    match r {
        Ok(p) => Ok(p@.path_permissions),
        Err(e) => Err(e@),
    }
}

/// The policy that is enforced: every path in canonical form, and of the rules what they amount
/// to. One observation is handed in for each rule.
pub fn sanitize_policy_for_execution(
    style: PathStyle,
    policy: &SandboxPolicy,
    probes: &Vec<PathProbe>,
) -> (r: Result<SandboxPolicy, SandboxError>)
    requires
        probes.len() == policy.path_permissions.len(),
    ensures
        sanitizes_policy(style, *policy, probe_views(probes@), r),
{
    let rules = match resolve_rules(style, &policy.path_permissions, probes) {
        Ok(rules) => rules,
        Err(e) => {
            return Err(e);
        },
    };
    let result = overlay_rules(style, policy.default_access, &rules);
    let r = match result {
        Err(e) => Err(e),
        Ok(path_permissions) => Ok(
            SandboxPolicy {
                path_permissions,
                default_access: policy.default_access,
                network_policy: policy.network_policy,
            },
        ),
    };
    assert(policy_rules(r) == rules_or_error(result));
    r
}

/// A request and a policy that are ready to be carried out by a platform.
#[derive(Debug, PartialEq, Eq)]
pub struct PreparedExecution {
    pub request: SandboxCommandRequest,
    pub policy: SandboxPolicy,
}

/// Prepares sandboxed runs.
#[derive(Debug, Clone, Copy, PartialEq, Eq)]
pub struct SandboxManager;

impl Default for SandboxManager {
    fn default() -> (r: Self)
        ensures
            r == SandboxManager,
    {
        SandboxManager
    }
}

impl SandboxManager {
    /// A manager.
    pub fn new() -> (r: Self)
        ensures
            r == SandboxManager,
    {
        SandboxManager
    }

    /// Prepares a run: the request is checked and sanitized first, and then the policy. What was
    /// observed of the working directory and of each rule's path is handed in.
    pub fn execute(
        &self,
        style: PathStyle,
        request: &SandboxCommandRequest,
        policy: &SandboxPolicy,
        cwd: &PathProbe,
        probes: &Vec<PathProbe>,
    ) -> (r: Result<PreparedExecution, SandboxError>)
        requires
            probes.len() == policy.path_permissions.len(),
        ensures
            match sanitized_request(style, request@, cwd@) {
                Err(e) => r matches Err(x) && x@ == e,
                Ok(sanitized) => sanitizes_policy(
                    style,
                    *policy,
                    probe_views(probes@),
                    match r {
                        Ok(prepared) => Ok(prepared.policy),
                        Err(e) => Err(e),
                    },
                ) && (r matches Ok(prepared) ==> prepared.request@ == sanitized),
            },
    {
        let sanitized = request.sanitized_for_execution(style, cwd)?;
        let enforced = sanitize_policy_for_execution(style, policy, probes)?;
        Ok(PreparedExecution { request: sanitized, policy: enforced })
    }
}

} // verus!
