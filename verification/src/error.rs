//! The daemon's error vocabulary: one variant per `net.reactivated.Fprint.Error.*` name that
//! fingerprint clients recognise, each carrying a human-readable message, and the lift of a
//! reader operation's failure into the closest of them.

use vstd::prelude::*;

verus! {

/// Errors returned to the daemon's D-Bus callers.
#[derive(Debug)]
pub enum DaemonError {
    /// No such fingerprint reader.
    NoSuchDevice(String),
    /// The device was not claimed before an operation that requires a claim.
    ClaimDevice(String),
    /// The device is already claimed, or an operation is already in flight.
    AlreadyInUse(String),
    /// An internal failure.
    Internal(String),
    /// The caller lacks the required authorization.
    PermissionDenied(String),
    /// The user has no prints enrolled for the requested finger.
    NoEnrolledPrints(String),
    /// A stop with nothing in progress.
    NoActionInProgress(String),
    /// The finger name was empty, `"any"`, or otherwise not a real finger.
    InvalidFingername(String),
    /// A stored print could not be removed.
    PrintsNotDeleted(String),
}

/// The D-Bus name of each error: the `net.reactivated.Fprint.Error.` prefix and the variant's name.
pub open spec fn error_name_of(e: DaemonError) -> Seq<char> {
    "net.reactivated.Fprint.Error."@ + match e {
        DaemonError::NoSuchDevice(_) => "NoSuchDevice"@,
        DaemonError::ClaimDevice(_) => "ClaimDevice"@,
        DaemonError::AlreadyInUse(_) => "AlreadyInUse"@,
        DaemonError::Internal(_) => "Internal"@,
        DaemonError::PermissionDenied(_) => "PermissionDenied"@,
        DaemonError::NoEnrolledPrints(_) => "NoEnrolledPrints"@,
        DaemonError::NoActionInProgress(_) => "NoActionInProgress"@,
        DaemonError::InvalidFingername(_) => "InvalidFingername"@,
        DaemonError::PrintsNotDeleted(_) => "PrintsNotDeleted"@,
    }
}

impl DaemonError {
    /// The error's D-Bus name.
    pub fn name(&self) -> (s: String)
        ensures
            s@ == error_name_of(*self),
    {
        let tail = match self {
            DaemonError::NoSuchDevice(_) => "NoSuchDevice",
            DaemonError::ClaimDevice(_) => "ClaimDevice",
            DaemonError::AlreadyInUse(_) => "AlreadyInUse",
            DaemonError::Internal(_) => "Internal",
            DaemonError::PermissionDenied(_) => "PermissionDenied",
            DaemonError::NoEnrolledPrints(_) => "NoEnrolledPrints",
            DaemonError::NoActionInProgress(_) => "NoActionInProgress",
            DaemonError::InvalidFingername(_) => "InvalidFingername",
            DaemonError::PrintsNotDeleted(_) => "PrintsNotDeleted",
        };
        String::from_str("net.reactivated.Fprint.Error.").concat(tail)
    }

    /// The message the error carries.
    pub fn message(&self) -> (m: &str)
        ensures
            m@ == match *self {
                DaemonError::NoSuchDevice(s) => s@,
                DaemonError::ClaimDevice(s) => s@,
                DaemonError::AlreadyInUse(s) => s@,
                DaemonError::Internal(s) => s@,
                DaemonError::PermissionDenied(s) => s@,
                DaemonError::NoEnrolledPrints(s) => s@,
                DaemonError::NoActionInProgress(s) => s@,
                DaemonError::InvalidFingername(s) => s@,
                DaemonError::PrintsNotDeleted(s) => s@,
            },
    {
        match self {
            DaemonError::NoSuchDevice(s) => s.as_str(),
            DaemonError::ClaimDevice(s) => s.as_str(),
            DaemonError::AlreadyInUse(s) => s.as_str(),
            DaemonError::Internal(s) => s.as_str(),
            DaemonError::PermissionDenied(s) => s.as_str(),
            DaemonError::NoEnrolledPrints(s) => s.as_str(),
            DaemonError::NoActionInProgress(s) => s.as_str(),
            DaemonError::InvalidFingername(s) => s.as_str(),
            DaemonError::PrintsNotDeleted(s) => s.as_str(),
        }
    }
}

/// How a reader operation failed.
#[derive(Clone, Copy, Debug, PartialEq, Eq, Structural)]
pub enum CoreError {
    /// The device was not found.
    NotFound,
    /// The device is busy.
    Busy,
    /// The device is not in a state to do this.
    ProtoState,
    /// No such print.
    DataNotFound,
    /// The device's storage is full.
    DataFull,
    /// The print is already enrolled.
    DataDuplicate,
    /// The operation was cancelled.
    Cancelled,
    /// The transport to the device failed.
    Transport,
    /// The device spoke out of protocol.
    Protocol,
    /// Any other failure.
    Other,
}

/// The daemon error a failure becomes, with its message.
pub open spec fn lifted(e: CoreError, r: DaemonError) -> bool {
    match e {
        CoreError::NotFound => r matches DaemonError::NoSuchDevice(m) && m@ == "device not found"@,
        CoreError::Busy => r matches DaemonError::AlreadyInUse(m) && m@ == "device busy"@,
        CoreError::ProtoState => r matches DaemonError::ClaimDevice(m) && m@
            == "device not ready for use"@,
        CoreError::DataNotFound => r matches DaemonError::NoEnrolledPrints(m) && m@
            == "no such print"@,
        _ => r is Internal,
    }
}

/// Lift a reader failure into the closest daemon error: not found, busy, wrong state and
/// missing print have their own names; anything else is internal.
pub fn daemon_error_from(e: CoreError) -> (r: DaemonError)
    ensures
        lifted(e, r),
{
    match e {
        CoreError::NotFound => DaemonError::NoSuchDevice(String::from_str("device not found")),
        CoreError::Busy => DaemonError::AlreadyInUse(String::from_str("device busy")),
        CoreError::ProtoState => DaemonError::ClaimDevice(
            String::from_str("device not ready for use"),
        ),
        CoreError::DataNotFound => DaemonError::NoEnrolledPrints(String::from_str("no such print")),
        _ => DaemonError::Internal(String::from_str("device operation failed")),
    }
}

} // verus!
