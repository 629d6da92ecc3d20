//! From a connection attempt to a liveness verdict.
//!
//! The attempt itself is made by the caller, once and under its own
//! timeout; this module decides what its outcome means.

use vstd::prelude::*;

verus! {

/// How one attempt to connect to a server ended.
#[derive(Debug, PartialEq, Eq)]
pub enum ConnectOutcome {
    /// The connection was established within the timeout.
    Connected,
    /// The peer refused the connection.
    Refused,
    /// The host or its network cannot be reached.
    Unreachable,
    /// The timeout expired first.
    TimedOut,
    /// Name resolution or the network failed; the text says how.
    Failed(String),
}

/// Whether a server is alive, as far as one attempt can tell.
#[derive(Debug, PartialEq, Eq)]
pub enum Verdict {
    Online,
    Offline,
    /// The attempt was inconclusive; the text says why.
    Unknown(String),
}

/// The mathematical value of a [`Verdict`].
pub enum VerdictView {
    Online,
    Offline,
    Unknown(Seq<char>),
}

impl View for Verdict {
    type V = VerdictView;

    open spec fn view(&self) -> VerdictView {
        match self {
            Verdict::Online => VerdictView::Online,
            Verdict::Offline => VerdictView::Offline,
            Verdict::Unknown(reason) => VerdictView::Unknown(reason@),
        }
    }
}

/// The verdict that an outcome stands for: a connection means online, a
/// refusal or an unreachable host means offline, and a timeout or any other
/// failure leaves the matter unknown.
pub open spec fn verdict_for(outcome: ConnectOutcome) -> VerdictView {
    match outcome {
        ConnectOutcome::Connected => VerdictView::Online,
        ConnectOutcome::Refused => VerdictView::Offline,
        ConnectOutcome::Unreachable => VerdictView::Offline,
        ConnectOutcome::TimedOut => VerdictView::Unknown("timed out"@),
        ConnectOutcome::Failed(reason) => VerdictView::Unknown(reason@),
    }
}

/// The liveness verdict for the outcome of a connection attempt.
pub fn verdict_of(outcome: ConnectOutcome) -> (v: Verdict)
    ensures
        v@ == verdict_for(outcome),
{
    match outcome {
        ConnectOutcome::Connected => Verdict::Online,
        ConnectOutcome::Refused => Verdict::Offline,
        ConnectOutcome::Unreachable => Verdict::Offline,
        ConnectOutcome::TimedOut => Verdict::Unknown("timed out".to_owned()),
        ConnectOutcome::Failed(reason) => Verdict::Unknown(reason),
    }
}

/// A closed or unreachable port is never reported as online.
pub proof fn law_closed_port_not_online(outcome: ConnectOutcome)
    requires
        !(outcome is Connected),
    ensures
        verdict_for(outcome) is Offline || verdict_for(outcome) is Unknown,
{
}

} // verus!
