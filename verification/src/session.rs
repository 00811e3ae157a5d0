//! The device object's session rules: one claimer at a time, every operation only from the
//! claimer, one streaming operation in flight, and which user an operation acts for.

use vstd::prelude::*;

use crate::error::DaemonError;
use crate::names::{finger_from_dbus_name, finger_named, str_eq, Finger};

verus! {

/// Who holds the device, recorded at claim.
#[derive(Debug)]
pub struct Session {
    /// The unique bus name that claimed the device.
    pub sender: String,
    /// The user whose prints the session reads and writes.
    pub username: String,
}

/// Which streaming operation is running.
#[derive(Clone, Copy, Debug, PartialEq, Eq, Structural)]
pub enum OpKind {
    /// A verification or identification.
    Verify,
    /// An enrolment.
    Enroll,
}

/// What the rules read of a running operation: its kind and whether it has completed.
#[derive(Clone, Copy, Debug, PartialEq, Eq, Structural)]
pub struct ActiveOp {
    /// The operation's kind.
    pub kind: OpKind,
    /// Whether it has completed on its own.
    pub finished: bool,
}

/// The message of a refused claim check: `0` not claimed, `1` claimed by another.
pub open spec fn require_refusal(claim: Option<Session>, sender: Seq<char>) -> Option<int> {
    match claim {
        None => Some(0),
        Some(s) => if s.sender@ == sender {
            None
        } else {
            Some(1)
        },
    }
}

/// The username of the session iff `sender` holds the claim; `ClaimDevice` when nobody does,
/// `AlreadyInUse` when someone else does.
pub fn require_claimed(claim: &Option<Session>, sender: &str) -> (r: Result<String, DaemonError>)
    ensures
        match *claim {
            None => r matches Err(e) && (e matches DaemonError::ClaimDevice(m) && m@
                == "Device was not claimed before use"@),
            Some(s) => if s.sender@ == sender@ {
                r matches Ok(u) && u@ == s.username@
            } else {
                r matches Err(e) && (e matches DaemonError::AlreadyInUse(m) && m@
                    == "Device already in use by another user"@)
            },
        },
{
    match claim {
        None => Err(DaemonError::ClaimDevice(String::from_str("Device was not claimed before use"))),
        Some(s) => {
            if str_eq(s.sender.as_str(), sender) {
                Ok(s.username.clone())
            } else {
                Err(
                    DaemonError::AlreadyInUse(
                        String::from_str("Device already in use by another user"),
                    ),
                )
            }
        },
    }
}

/// Record a claim for `sender` acting as `username`; refused with `AlreadyInUse` when the
/// device is already claimed, leaving the existing claim as it was.
pub fn claim_session(claim: &mut Option<Session>, sender: String, username: String) -> (r: Result<
    (),
    DaemonError,
>)
    ensures
        old(claim).is_some() ==> (r matches Err(e) && (e matches DaemonError::AlreadyInUse(m) && m@
            == "Device was already claimed"@)) && *final(claim) == *old(claim),
        old(claim).is_none() ==> r is Ok && (*final(claim) matches Some(s) && s.sender@ == sender@
            && s.username@ == username@),
{
    if claim.is_some() {
        return Err(DaemonError::AlreadyInUse(String::from_str("Device was already claimed")));
    }
    *claim = Some(Session { sender, username });
    Ok(())
}

/// Drop the claim (on release, or when a claim's open fails).
pub fn end_session(claim: &mut Option<Session>)
    ensures
        final(claim).is_none(),
{
    *claim = None;
}

/// After a client claims a free device, only that client passes the claim check, a second
/// claim is refused, and the first claim stands.
pub proof fn lemma_claim_isolation(first: Session, other: Seq<char>)
    requires
        other != first.sender@,
    ensures
        require_refusal(Some(first), first.sender@) is None,
        require_refusal(Some(first), other) == Some(1int),
        require_refusal(None, other) == Some(0int),
{
}

/// Refuse while a streaming operation is still running (`AlreadyInUse`); otherwise clear any
/// finished one.
pub fn ensure_idle(active: &mut Option<ActiveOp>) -> (r: Result<(), DaemonError>)
    ensures
        (*old(active) matches Some(op) && !op.finished) ==> (r matches Err(e) && (e matches DaemonError::AlreadyInUse(
            m,
        ) && m@ == "Another operation is already in progress"@)) && *final(active) == *old(active),
        !(*old(active) matches Some(op) && !op.finished) ==> r is Ok && final(active).is_none(),
{
    if let Some(op) = active {
        if !op.finished {
            return Err(
                DaemonError::AlreadyInUse(String::from_str("Another operation is already in progress")),
            );
        }
    }
    *active = None;
    Ok(())
}

/// The message of a stop with nothing of its kind in progress.
pub open spec fn no_action_text(kind: OpKind) -> Seq<char> {
    match kind {
        OpKind::Verify => "No verification in progress"@,
        OpKind::Enroll => "No enrollment in progress"@,
    }
}

/// The `NoActionInProgress` message for a stop of the given kind.
pub fn no_action_message(kind: OpKind) -> (s: String)
    ensures
        s@ == no_action_text(kind),
{
    match kind {
        OpKind::Verify => String::from_str("No verification in progress"),
        OpKind::Enroll => String::from_str("No enrollment in progress"),
    }
}

/// Stop the running operation of kind `expected`.
///
/// Nothing recorded is `NoActionInProgress`; an operation that already completed is just
/// cleared (`Ok(false)`); a running operation of the other kind is `AlreadyInUse` and stays; a
/// running operation of this kind is taken, and `Ok(true)` says it must be told to stop.
pub fn stop_active(active: &mut Option<ActiveOp>, expected: OpKind) -> (r: Result<bool, DaemonError>)
    ensures
        match *old(active) {
            None => (r matches Err(e) && (e matches DaemonError::NoActionInProgress(m) && m@
                == no_action_text(expected))) && final(active).is_none(),
            Some(op) => if op.finished {
                r == Ok::<bool, DaemonError>(false) && final(active).is_none()
            } else if op.kind != expected {
                (r matches Err(e) && (e matches DaemonError::AlreadyInUse(m) && m@
                    == "Another operation is already in progress"@)) && *final(active) == *old(active)
            } else {
                r == Ok::<bool, DaemonError>(true) && final(active).is_none()
            },
        },
{
    let (finished, kind) = match active {
        None => return Err(DaemonError::NoActionInProgress(no_action_message(expected))),
        Some(op) => (op.finished, op.kind),
    };
    if finished {
        *active = None;
        return Ok(false);
    }
    if kind != expected {
        return Err(
            DaemonError::AlreadyInUse(String::from_str("Another operation is already in progress")),
        );
    }
    *active = None;
    Ok(true)
}

/// A real finger from its wire name; empty, `"any"` and unknown names are `InvalidFingername`.
pub fn real_finger(finger_name: &str) -> (r: Result<Finger, DaemonError>)
    ensures
        (finger_named(finger_name@) matches Some(f) && f != Finger::Unknown) ==> r == Ok::<
            Finger,
            DaemonError,
        >(finger_named(finger_name@)->0),
        !(finger_named(finger_name@) matches Some(f) && f != Finger::Unknown) ==> (r matches Err(e)
            && (e matches DaemonError::InvalidFingername(m) && m@ == "Invalid finger name"@)),
{
    match finger_from_dbus_name(finger_name) {
        Some(f) => {
            if f != Finger::Unknown {
                return Ok(f);
            }
        },
        None => {},
    }
    Err(DaemonError::InvalidFingername(String::from_str("Invalid finger name")))
}

/// Whose prints a request acts on.
#[derive(Debug)]
pub enum UserChoice {
    /// The caller's own user, asked for by an empty name.
    Own(String),
    /// The requested user, who is the caller's own.
    Requested(String),
    /// Another user: allowed only with the `setusername` authorization.
    NeedsSetUsername(String),
}

/// Resolve the user a request acts for: an empty request is the caller's own user (an error
/// when that cannot be determined); the caller's own name is taken as is; any other name needs
/// the `setusername` authorization.
pub fn resolve_user(own: Option<&str>, requested: &str) -> (r: Result<UserChoice, DaemonError>)
    ensures
        requested@.len() == 0 ==> match own {
            Some(o) => r matches Ok(UserChoice::Own(u)) && u@ == o@,
            None => r matches Err(e) && (e matches DaemonError::Internal(m) && m@
                == "could not determine caller's username"@),
        },
        requested@.len() > 0 && (own matches Some(o) && o@ == requested@) ==> (r matches Ok(
            UserChoice::Requested(u),
        ) && u@ == requested@),
        requested@.len() > 0 && !(own matches Some(o) && o@ == requested@) ==> (r matches Ok(
            UserChoice::NeedsSetUsername(u),
        ) && u@ == requested@),
{
    if requested.unicode_len() == 0 {
        return match own {
            Some(o) => Ok(UserChoice::Own(String::from_str(o))),
            None => Err(
                DaemonError::Internal(String::from_str("could not determine caller's username")),
            ),
        };
    }
    if let Some(o) = own {
        if str_eq(o, requested) {
            return Ok(UserChoice::Requested(String::from_str(requested)));
        }
    }
    Ok(UserChoice::NeedsSetUsername(String::from_str(requested)))
}

/// The `num-enroll-stages` property: `-1` until claimed, then the stage count (capped at
/// `i32::MAX`).
pub fn num_enroll_stages(claimed: bool, stages: u32) -> (n: i32)
    ensures
        !claimed ==> n == -1,
        claimed ==> n == if stages <= i32::MAX {
            stages as int
        } else {
            i32::MAX as int
        },
{
    if claimed {
        if stages <= 0x7fff_ffff {
            stages as i32
        } else {
            i32::MAX
        }
    } else {
        -1
    }
}

/// What came back from opening the reader after a claim.
#[derive(Debug)]
pub enum OpenReply {
    /// The reader is open.
    Opened,
    /// Opening failed, with the reader's account of why.
    Failed(String),
    /// The reader's actor is gone.
    ActorGone,
}

/// Finish a claim once the reader has answered the open: an opened reader keeps the claim;
/// otherwise the claim is dropped and the failure reported (`Internal`).
pub fn finish_claim(claim: &mut Option<Session>, reply: OpenReply) -> (r: Result<(), DaemonError>)
    ensures
        match reply {
            OpenReply::Opened => r is Ok && *final(claim) == *old(claim),
            OpenReply::Failed(why) => (r matches Err(e) && (e matches DaemonError::Internal(m) && m@
                == "Open failed with error: "@ + why@)) && final(claim).is_none(),
            OpenReply::ActorGone => (r matches Err(e) && (e matches DaemonError::Internal(m) && m@
                == "device actor stopped"@)) && final(claim).is_none(),
        },
{
    match reply {
        OpenReply::Opened => Ok(()),
        OpenReply::Failed(why) => {
            *claim = None;
            Err(DaemonError::Internal(String::from_str("Open failed with error: ").concat(why.as_str())))
        },
        OpenReply::ActorGone => {
            *claim = None;
            Err(DaemonError::Internal(String::from_str("device actor stopped")))
        },
    }
}

/// Release the device for `sender`: only the claimer may. A release by anyone else is refused
/// as the claim check refuses it, and changes nothing. The claimer's release takes any
/// operation (`Ok(true)` when a running one must be told to stop) and drops the claim.
pub fn release_session(claim: &mut Option<Session>, active: &mut Option<ActiveOp>, sender: &str) -> (r:
    Result<bool, DaemonError>)
    ensures
        require_refusal(*old(claim), sender@) is Some ==> r is Err && *final(claim) == *old(claim)
            && *final(active) == *old(active),
        require_refusal(*old(claim), sender@) == Some(0int) ==> (r matches Err(e) && e is ClaimDevice),
        require_refusal(*old(claim), sender@) == Some(1int) ==> (r matches Err(e) && e is AlreadyInUse),
        require_refusal(*old(claim), sender@) is None ==> r == Ok::<bool, DaemonError>(
            *old(active) matches Some(op) && !op.finished,
        ) && final(claim).is_none() && final(active).is_none(),
{
    match require_claimed(claim, sender) {
        Err(e) => return Err(e),
        Ok(_) => {},
    }
    let stop = match active {
        Some(op) => !op.finished,
        None => false,
    };
    *active = None;
    *claim = None;
    Ok(stop)
}

/// A streaming operation is running.
pub open spec fn busy(active: Option<ActiveOp>) -> bool {
    active matches Some(op) && !op.finished
}

/// Start a streaming operation of `kind`: refused (`AlreadyInUse`) while another runs, else
/// recorded as running.
pub fn begin_op(active: &mut Option<ActiveOp>, kind: OpKind) -> (r: Result<(), DaemonError>)
    ensures
        busy(*old(active)) ==> (r matches Err(e) && (e matches DaemonError::AlreadyInUse(m) && m@
            == "Another operation is already in progress"@)) && *final(active) == *old(active),
        !busy(*old(active)) ==> r is Ok && *final(active) == Some(ActiveOp { kind, finished: false }),
{
    match ensure_idle(active) {
        Err(e) => Err(e),
        Ok(()) => {
            *active = Some(ActiveOp { kind, finished: false });
            Ok(())
        },
    }
}

/// One operation at a time: the state a successful start leaves is busy, so every further
/// start is refused, until the operation finishes or is stopped, which leaves it idle.
pub proof fn lemma_one_operation_at_a_time(kind: OpKind)
    ensures
        busy(Some(ActiveOp { kind, finished: false })),
        !busy(Some(ActiveOp { kind, finished: true })),
        !busy(None),
{
}

} // verus!
