//! Classification of raw probe results into reporting verdicts.
//!
//! A probe of one link ends either in a numeric response status (with the
//! elapsed latency) or in a transport failure.  The classifier decides,
//! for every such outcome, what is reported: nothing, a message specific
//! to the status, or a generic notice.

use vstd::prelude::*;

verus! {

/// The reason a probe failed before any response status was obtained.
#[derive(Clone, Copy, Debug, PartialEq, Eq, Structural)]
pub enum TransportFailure {
    Timeout,
    DnsResolution,
    ConnectionRefused,
    Tls,
    Other,
}

/// The raw result of probing one link: a response status together with the
/// elapsed latency in milliseconds, or a transport failure.  Never both.
#[derive(Clone, Copy, Debug, PartialEq, Eq, Structural)]
pub enum ProbeOutcome {
    Status(u16, u128),
    Transport(TransportFailure),
}

/// The statuses that carry a message of their own rather than the generic
/// one.
#[derive(Clone, Copy, Debug, PartialEq, Eq, Structural)]
pub enum SpecificKind {
    AccessDenied,
    NotFound,
    InternalServerError,
    ServiceUnavailable,
}

/// What the scheduler should report for one probed link.
#[derive(Clone, Copy, Debug, PartialEq, Eq, Structural)]
pub enum Verdict {
    /// The link is healthy: no notification.
    Silent,
    /// A status with a message of its own: the status and that message.
    SpecificFailure { code: u16, kind: SpecificKind },
    /// Any other failing status: notified with the bare status.
    GenericFailure { code: u16 },
    /// A transport failure: notified with the failure reason in place of a
    /// status.
    GenericTransport { failure: TransportFailure },
}

/// The verdict for a response status: statuses 200 through 399 are silent,
/// 403, 404, 500 and 503 carry their specific messages, and every other
/// status is reported generically.
pub open spec fn classify_status_spec(code: u16) -> Verdict {
    if 200 <= code <= 399 {
        Verdict::Silent
    } else if code == 403 {
        Verdict::SpecificFailure { code: 403, kind: SpecificKind::AccessDenied }
    } else if code == 404 {
        Verdict::SpecificFailure { code: 404, kind: SpecificKind::NotFound }
    } else if code == 500 {
        Verdict::SpecificFailure { code: 500, kind: SpecificKind::InternalServerError }
    } else if code == 503 {
        Verdict::SpecificFailure { code: 503, kind: SpecificKind::ServiceUnavailable }
    } else {
        Verdict::GenericFailure { code }
    }
}

/// The verdict for a raw probe outcome: statuses go by their code, and a
/// transport failure is always reported, carrying its reason.
pub open spec fn classify_spec(o: ProbeOutcome) -> Verdict {
    match o {
        ProbeOutcome::Status(code, _) => classify_status_spec(code),
        ProbeOutcome::Transport(failure) => Verdict::GenericTransport { failure },
    }
}

/// Maps one probe outcome to its verdict.
pub fn classify(o: &ProbeOutcome) -> (v: Verdict)
    ensures
        v == classify_spec(*o),
{
    match *o {
        ProbeOutcome::Status(code, _) => {
            if 200 <= code && code <= 399 {
                Verdict::Silent
            } else if code == 403 {
                Verdict::SpecificFailure { code: 403, kind: SpecificKind::AccessDenied }
            } else if code == 404 {
                Verdict::SpecificFailure { code: 404, kind: SpecificKind::NotFound }
            } else if code == 500 {
                Verdict::SpecificFailure { code: 500, kind: SpecificKind::InternalServerError }
            } else if code == 503 {
                Verdict::SpecificFailure { code: 503, kind: SpecificKind::ServiceUnavailable }
            } else {
                Verdict::GenericFailure { code }
            }
        },
        ProbeOutcome::Transport(failure) => Verdict::GenericTransport { failure },
    }
}

impl TransportFailure {
    /// The human-readable reason for this failure.
    pub open spec fn reason_spec(self) -> Seq<char> {
        match self {
            TransportFailure::Timeout => "timed out"@,
            TransportFailure::DnsResolution => "name resolution failed"@,
            TransportFailure::ConnectionRefused => "connection refused"@,
            TransportFailure::Tls => "TLS failure"@,
            TransportFailure::Other => "transport failure"@,
        }
    }

    /// Renders the human-readable reason for this failure.
    pub fn reason_text(&self) -> (r: String)
        ensures
            r@ == self.reason_spec(),
    {
        match self {
            TransportFailure::Timeout => "timed out".to_owned(),
            TransportFailure::DnsResolution => "name resolution failed".to_owned(),
            TransportFailure::ConnectionRefused => "connection refused".to_owned(),
            TransportFailure::Tls => "TLS failure".to_owned(),
            TransportFailure::Other => "transport failure".to_owned(),
        }
    }
}

impl SpecificKind {
    /// The message text attached to this status.
    pub open spec fn message_spec(self) -> Seq<char> {
        match self {
            SpecificKind::AccessDenied => "access denied"@,
            SpecificKind::NotFound => "resource not found"@,
            SpecificKind::InternalServerError => "internal server error"@,
            SpecificKind::ServiceUnavailable => "service unavailable"@,
        }
    }

    /// Renders the message text attached to this status.
    pub fn message(&self) -> (r: String)
        ensures
            r@ == self.message_spec(),
    {
        match self {
            SpecificKind::AccessDenied => "access denied".to_owned(),
            SpecificKind::NotFound => "resource not found".to_owned(),
            SpecificKind::InternalServerError => "internal server error".to_owned(),
            SpecificKind::ServiceUnavailable => "service unavailable".to_owned(),
        }
    }
}

/// The classifier is total and the table is exhaustive: every outcome maps
/// to exactly one verdict; statuses 200 through 399 and only those are
/// silent; 403, 404, 500 and 503 and only those carry a specific message;
/// every other status is reported with its bare code; and a transport
/// failure is always reported, never silent.
pub proof fn lemma_classifier_total(o: ProbeOutcome)
    ensures
        classify_spec(o) is Silent || classify_spec(o) is SpecificFailure || classify_spec(
            o,
        ) is GenericFailure || classify_spec(o) is GenericTransport,
        o matches ProbeOutcome::Status(code, _) ==> {
            &&& (classify_spec(o) == Verdict::Silent <==> 200 <= code <= 399)
            &&& (classify_spec(o) is SpecificFailure <==> (code == 403 || code == 404 || code
                == 500 || code == 503))
            &&& (code == 403 ==> classify_spec(o) == (Verdict::SpecificFailure {
                code: 403,
                kind: SpecificKind::AccessDenied,
            }))
            &&& (code == 404 ==> classify_spec(o) == (Verdict::SpecificFailure {
                code: 404,
                kind: SpecificKind::NotFound,
            }))
            &&& (code == 500 ==> classify_spec(o) == (Verdict::SpecificFailure {
                code: 500,
                kind: SpecificKind::InternalServerError,
            }))
            &&& (code == 503 ==> classify_spec(o) == (Verdict::SpecificFailure {
                code: 503,
                kind: SpecificKind::ServiceUnavailable,
            }))
            &&& (!(200 <= code <= 399) && code != 403 && code != 404 && code != 500 && code != 503
                ==> classify_spec(o) == (Verdict::GenericFailure { code }))
        },
        o matches ProbeOutcome::Transport(failure) ==> classify_spec(o) == (
        Verdict::GenericTransport { failure }) && !(classify_spec(o) is Silent),
{
}

} // verus!
