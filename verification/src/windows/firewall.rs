//! How a run without network is kept off it on Windows.
use vstd::prelude::*;
use vstd::string::StringExecFns;

use crate::error::{error_text, ErrorView, SandboxError};
use crate::text::{decimal, number};

verus! {

/// The places in the network stack at which a run without network is blocked.
#[derive(Debug, Clone, Copy, PartialEq, Eq, Structural)]
pub enum BlockLayer {
    ConnectV4,
    ConnectV6,
    ReceiveAcceptV4,
    ReceiveAcceptV6,
    ResourceAssignmentV4,
    ResourceAssignmentV6,
}

/// All places, in the order in which they are blocked.
pub open spec fn all_layers() -> Seq<BlockLayer> {
    seq![
        BlockLayer::ConnectV4,
        BlockLayer::ConnectV6,
        BlockLayer::ReceiveAcceptV4,
        BlockLayer::ReceiveAcceptV6,
        BlockLayer::ResourceAssignmentV4,
        BlockLayer::ResourceAssignmentV6,
    ]
}

/// The places at which a run without network is blocked.
pub fn block_layers() -> (r: Vec<BlockLayer>)
    ensures
        r@ == all_layers(),
{
    let mut r: Vec<BlockLayer> = Vec::new();
    r.push(BlockLayer::ConnectV4);
    r.push(BlockLayer::ConnectV6);
    r.push(BlockLayer::ReceiveAcceptV4);
    r.push(BlockLayer::ReceiveAcceptV6);
    r.push(BlockLayer::ResourceAssignmentV4);
    r.push(BlockLayer::ResourceAssignmentV6);
    assert(r@ =~= all_layers());
    r
}

/// The name of the filter at a place.
pub fn block_filter_name(index: usize) -> (r: String)
    ensures
        r@ == "procwarden-network-block-"@ + decimal(index as nat),
{
    "procwarden-network-block-".to_owned().concat(number(index as u128).as_str())
}

/// The system's number for access that is denied.
pub const ACCESS_DENIED: u32 = 5;

/// The system's number for what is not supported.
pub const NOT_SUPPORTED: u32 = 50;

/// The error of a call that installs filters. `detail` is the system's text for the status.
pub open spec fn filter_error(context: Seq<char>, status: u32, detail: Seq<char>) -> ErrorView {
    if status == ACCESS_DENIED {
        ErrorView::Denied(
            context + " failed with access denied ("@ + detail
                + "): requires privileges to install temporary WFP filters"@,
        )
    } else {
        ErrorView::Windows(
            context + " failed: "@ + decimal(status as nat) + " ("@ + detail + ")"@,
        )
    }
}

/// The error of a call that installs filters.
pub fn wfp_error(context: &str, status: u32, detail: &str) -> (r: SandboxError)
    ensures
        r@ == filter_error(context@, status, detail@),
{
    let mut message = context.to_owned();
    if status == ACCESS_DENIED {
        message.append(" failed with access denied (");
        message.append(detail);
        message.append("): requires privileges to install temporary WFP filters");
        SandboxError::Denied(message)
    } else {
        message.append(" failed: ");
        message.append(number(status as u128).as_str());
        message.append(" (");
        message.append(detail);
        message.append(")");
        SandboxError::Windows(message)
    }
}

/// A call that installs filters and its failure.
#[derive(Debug, PartialEq, Eq)]
pub struct WfpStatusError {
    pub context: String,
    pub status: u32,
    pub detail: String,
}

impl WfpStatusError {
    /// The error that this failure is reported as.
    pub open spec fn reported(self) -> ErrorView {
        filter_error(self.context@, self.status, self.detail@)
    }

    /// A failure that an administrator would not have had.
    pub open spec fn lacks_rights(self) -> bool {
        self.status == ACCESS_DENIED || self.status == NOT_SUPPORTED
    }

    /// The error that this failure is reported as.
    pub fn into_sandbox_error(&self) -> (r: SandboxError)
        ensures
            r@ == self.reported(),
    {
        wfp_error(self.context.as_str(), self.status, self.detail.as_str())
    }

    /// Whether to try again with the rights of an administrator.
    pub fn should_try_auto_elevation(&self) -> (r: bool)
        ensures
            r == self.lacks_rights(),
    {
        self.status == ACCESS_DENIED || self.status == NOT_SUPPORTED
    }
}

/// The calls that install filters, in this order: a transaction is begun, a filter is added for
/// each place, and the transaction is committed.
#[derive(Debug, Clone, Copy, PartialEq, Eq, Structural)]
pub enum FilterCall {
    Begin,
    /// The filter at the place with this index.
    Add(usize),
    Commit,
}

/// What follows a call that installs filters.
#[derive(Debug, Clone, Copy, PartialEq, Eq, Structural)]
pub enum FilterStep {
    /// This call comes next.
    Next(FilterCall),
    /// The filters are installed.
    Done,
    /// The attempt has failed, and there is no transaction to abort.
    Fail,
    /// The transaction is aborted, and the attempt has failed.
    AbortThenFail,
}

/// What follows a call that installs filters and succeeded.
pub open spec fn filter_call_behind(call: FilterCall) -> FilterStep {
    match call {
        FilterCall::Begin => FilterStep::Next(FilterCall::Add(0)),
        FilterCall::Add(index) => if index + 1 < all_layers().len() {
            FilterStep::Next(FilterCall::Add((index + 1) as usize))
        } else {
            FilterStep::Next(FilterCall::Commit)
        },
        FilterCall::Commit => FilterStep::Done,
    }
}

/// What follows a call that installs filters. A status of zero is success; behind a transaction
/// that was begun, every failure aborts it.
pub open spec fn after_filter_call(call: FilterCall, status: u32) -> FilterStep {
    if status == 0 {
        filter_call_behind(call)
    } else if call == FilterCall::Begin {
        FilterStep::Fail
    } else {
        FilterStep::AbortThenFail
    }
}

/// What follows a call that installs filters.
pub fn following_filter_call(call: FilterCall, status: u32) -> (r: FilterStep)
    ensures
        r == after_filter_call(call, status),
{
    match call {
        FilterCall::Begin => if status == 0 {
            FilterStep::Next(FilterCall::Add(0))
        } else {
            FilterStep::Fail
        },
        FilterCall::Add(index) => if status != 0 {
            FilterStep::AbortThenFail
        } else if index < 5 {
            FilterStep::Next(FilterCall::Add(index + 1))
        } else {
            FilterStep::Next(FilterCall::Commit)
        },
        FilterCall::Commit => if status == 0 {
            FilterStep::Done
        } else {
            FilterStep::AbortThenFail
        },
    }
}

/// The name of a call that installs filters.
pub open spec fn filter_call_name(call: FilterCall) -> Seq<char> {
    match call {
        FilterCall::Begin => "FwpmTransactionBegin0"@,
        FilterCall::Add(_) => "FwpmFilterAdd0"@,
        FilterCall::Commit => "FwpmTransactionCommit0"@,
    }
}

/// The failure of a call that installs filters. `detail` is the system's text for the status.
pub fn filter_call_failure(call: FilterCall, status: u32, detail: &str) -> (r: WfpStatusError)
    ensures
        r.context@ == filter_call_name(call),
        r.status == status,
        r.detail@ == detail@,
{
    let context = match call {
        FilterCall::Begin => "FwpmTransactionBegin0".to_owned(),
        FilterCall::Add(_) => "FwpmFilterAdd0".to_owned(),
        FilterCall::Commit => "FwpmTransactionCommit0".to_owned(),
    };
    WfpStatusError { context, status, detail: detail.to_owned() }
}

/// The call with this number in a transaction of which every call succeeds.
pub open spec fn nth_filter_call(n: int) -> FilterCall {
    if n <= 0 {
        FilterCall::Begin
    } else if n <= all_layers().len() {
        FilterCall::Add((n - 1) as usize)
    } else {
        FilterCall::Commit
    }
}

/// A transaction begins, adds the filter of each place in order and commits; it is done only
/// behind a commit that succeeded, and aborted exactly where a call behind its begin fails.
pub proof fn transactions_are_whole(call: FilterCall, status: u32, n: int)
    requires
        0 <= n <= all_layers().len(),
    ensures
        filter_call_behind(nth_filter_call(n)) == FilterStep::Next(nth_filter_call(n + 1)),
        nth_filter_call(all_layers().len() + 1int) == FilterCall::Commit,
        after_filter_call(call, status) is Done <==> call == FilterCall::Commit && status == 0,
        after_filter_call(call, status) is AbortThenFail <==> call != FilterCall::Begin && status
            != 0,
{
}

/// What follows a failure to install filters: the helper is tried where rights are lacking and the
/// process does not have those of an administrator; otherwise the failure stands.
pub fn after_filter_failure(failure: &WfpStatusError, is_elevated: bool) -> (r: Option<
    SandboxError,
>)
    ensures
        match r {
            None => failure.lacks_rights() && !is_elevated,
            Some(e) => (!failure.lacks_rights() || is_elevated) && e@ == failure.reported(),
        },
{
    if !failure.should_try_auto_elevation() || is_elevated {
        Some(failure.into_sandbox_error())
    } else {
        None
    }
}

/// The error where the helper failed, too.
pub fn failed_elevation(failure: &WfpStatusError, helper: &SandboxError) -> (r: SandboxError)
    ensures
        r@ == ErrorView::Denied(
            error_text(failure.reported()) + "; automatic administrator elevation failed: "@
                + error_text(helper@),
        ),
{
    let mut message = failure.into_sandbox_error().message();
    message.append("; automatic administrator elevation failed: ");
    message.append(helper.message().as_str());
    SandboxError::Denied(message)
}

/// Connections, acceptances and the use of ports are blocked for both versions of the protocol,
/// each once.
pub proof fn every_layer_is_blocked_once(layer: BlockLayer)
    ensures
        all_layers().contains(layer),
        all_layers().no_duplicates(),
{
    let l = all_layers();
    assert(l[0] == BlockLayer::ConnectV4 && l[1] == BlockLayer::ConnectV6 && l[2]
        == BlockLayer::ReceiveAcceptV4 && l[3] == BlockLayer::ReceiveAcceptV6 && l[4]
        == BlockLayer::ResourceAssignmentV4 && l[5] == BlockLayer::ResourceAssignmentV6);
}

/// The calls of a transaction one by one: it begins, adds six filters and commits.
pub proof fn six_filters_are_added(index: usize)
    ensures
        filter_call_behind(FilterCall::Begin) == FilterStep::Next(FilterCall::Add(0)),
        index < 5 ==> filter_call_behind(FilterCall::Add(index)) == FilterStep::Next(
            FilterCall::Add((index + 1) as usize),
        ),
        filter_call_behind(FilterCall::Add(5)) == FilterStep::Next(FilterCall::Commit),
        filter_call_behind(FilterCall::Commit) == FilterStep::Done,
        all_layers().len() == 6,
{
}

/// A call that succeeds leads on, and one that fails does not: behind the begin of a transaction it
/// is aborted.
pub proof fn failed_calls_end_the_transaction(call: FilterCall, status: u32)
    ensures
        status == 0 ==> after_filter_call(call, status) == filter_call_behind(call),
        status != 0 && call == FilterCall::Begin ==> after_filter_call(call, status)
            == FilterStep::Fail,
        status != 0 && call != FilterCall::Begin ==> after_filter_call(call, status)
            == FilterStep::AbortThenFail,
{
}

/// A failure is a denial exactly where access was denied, and lacks rights exactly there and where
/// the call is not supported.
pub proof fn denied_filters_are_denials(failure: WfpStatusError)
    ensures
        failure.reported() is Denied <==> failure.status == 5,
        failure.reported() is Windows <==> failure.status != 5,
        failure.lacks_rights() <==> failure.status == 5 || failure.status == 50,
{
}

/// The calls of a transaction by the names that the system gives them, and the texts of their
/// failures.
pub proof fn filter_failures_are_named(context: Seq<char>, status: u32, detail: Seq<char>, n: usize)
    ensures
        filter_call_name(FilterCall::Begin) == "FwpmTransactionBegin0"@,
        filter_call_name(FilterCall::Add(n)) == "FwpmFilterAdd0"@,
        filter_call_name(FilterCall::Commit) == "FwpmTransactionCommit0"@,
        status == 5 ==> filter_error(context, status, detail) == ErrorView::Denied(
            context + " failed with access denied ("@ + detail
                + "): requires privileges to install temporary WFP filters"@,
        ),
        status != 5 ==> filter_error(context, status, detail) == ErrorView::Windows(
            context + " failed: "@ + decimal(status as nat) + " ("@ + detail + ")"@,
        ),
{
}

} // verus!
