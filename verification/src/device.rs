//! The device object's operation rules: which print(s) a verification matches against, what
//! the verify and enroll pumps signal for each reply from the reader, and the answers of the
//! listing and deleting methods.
//!
//! A verification that matches one finger reports `VerifyFingerMatched` before
//! `VerifyStatus verify-match`; a retry re-issues the verification; any other outcome ends it.

use vstd::prelude::*;

use crate::error::{CoreError, DaemonError};
use crate::names::{finger_dbus_name, finger_names, finger_num, Finger};
use crate::status::{
    enroll_error, enroll_error_name, verify_error, verify_error_name, verify_match, verify_retry,
    verify_retry_name, RetryReason,
};

verus! {

/// The decimal spelling of a finger's number.
pub open spec fn finger_num_text(f: Finger) -> Seq<char> {
    match f {
        Finger::Unknown => "0"@,
        Finger::LeftThumb => "1"@,
        Finger::LeftIndex => "2"@,
        Finger::LeftMiddle => "3"@,
        Finger::LeftRing => "4"@,
        Finger::LeftLittle => "5"@,
        Finger::RightThumb => "6"@,
        Finger::RightIndex => "7"@,
        Finger::RightMiddle => "8"@,
        Finger::RightRing => "9"@,
        Finger::RightLittle => "10"@,
    }
}

/// The decimal spelling of a finger's number.
pub fn finger_num_str(f: Finger) -> (s: &'static str)
    ensures
        s@ == finger_num_text(f),
{
    match f {
        Finger::Unknown => "0",
        Finger::LeftThumb => "1",
        Finger::LeftIndex => "2",
        Finger::LeftMiddle => "3",
        Finger::LeftRing => "4",
        Finger::LeftLittle => "5",
        Finger::RightThumb => "6",
        Finger::RightIndex => "7",
        Finger::RightMiddle => "8",
        Finger::RightRing => "9",
        Finger::RightLittle => "10",
    }
}

/// What a verification matches against.
#[derive(Debug)]
pub enum VerifyChoice {
    /// One print, of this finger (1:1).
    Single(Finger),
    /// Every enrolled print, of these fingers in order (1:N).
    Identify(Vec<Finger>),
}

/// Resolve a verification's prints.
///
/// A specific finger needs its print (`NoEnrolledPrints`, "No such print <n>", when it cannot
/// be loaded). "Any finger" needs at least one enrolled print ("No fingerprints enrolled"); one
/// print is matched 1:1; several are identified 1:N when the reader can identify, otherwise the
/// first is matched 1:1.
pub fn choose_verify_op(
    requested: Finger,
    requested_loaded: bool,
    gallery: &[Finger],
    can_identify: bool,
) -> (r: Result<VerifyChoice, DaemonError>)
    ensures
        requested != Finger::Unknown ==> if requested_loaded {
            r matches Ok(VerifyChoice::Single(f)) && f == requested
        } else {
            r matches Err(e) && (e matches DaemonError::NoEnrolledPrints(m) && m@ == "No such print "@
                + finger_num_text(requested))
        },
        requested == Finger::Unknown ==> if gallery@.len() == 0 {
            r matches Err(e) && (e matches DaemonError::NoEnrolledPrints(m) && m@
                == "No fingerprints enrolled"@)
        } else if gallery@.len() == 1 || !can_identify {
            r matches Ok(VerifyChoice::Single(f)) && f == gallery@[0]
        } else {
            r matches Ok(VerifyChoice::Identify(g)) && g@ == gallery@
        },
{
    if requested != Finger::Unknown {
        if requested_loaded {
            return Ok(VerifyChoice::Single(requested));
        }
        let msg = String::from_str("No such print ").concat(finger_num_str(requested));
        return Err(DaemonError::NoEnrolledPrints(msg));
    }
    if gallery.len() == 0 {
        return Err(DaemonError::NoEnrolledPrints(String::from_str("No fingerprints enrolled")));
    }
    if gallery.len() == 1 || !can_identify {
        return Ok(VerifyChoice::Single(gallery[0]));
    }
    let mut g: Vec<Finger> = Vec::with_capacity(gallery.len());
    let mut k: usize = 0;
    while k < gallery.len()
        invariant
            k <= gallery@.len(),
            g@ == gallery@.subrange(0, k as int),
        decreases gallery@.len() - k,
    {
        g.push(gallery[k]);
        k += 1;
        assert(g@ =~= gallery@.subrange(0, k as int));
    }
    assert(g@ =~= gallery@);
    Ok(VerifyChoice::Identify(g))
}

/// The finger name announced as selected: the single finger's, or `"any"` for identification.
pub fn selected_finger_name(choice: &VerifyChoice) -> (s: &'static str)
    ensures
        match *choice {
            VerifyChoice::Single(f) => s@ == finger_names()[finger_num(f)],
            VerifyChoice::Identify(_) => s@ == "any"@,
        },
{
    match choice {
        VerifyChoice::Single(f) => finger_dbus_name(*f),
        VerifyChoice::Identify(_) => "any",
    }
}

/// A signal the verify pump emits.
#[derive(Debug, PartialEq, Eq)]
pub enum VerifySignal {
    /// `VerifyFingerMatched` with the finger's wire name.
    FingerMatched(&'static str),
    /// `VerifyStatus` with the status string and whether the verification is done.
    Status(&'static str, bool),
}

/// The reader's answer to one verify or identify attempt.
#[derive(Clone, Copy, Debug, PartialEq, Eq, Structural)]
pub enum VerifyReply {
    /// A 1:1 verification finished: matched or not.
    Verified(bool),
    /// An identification finished: the index of the matching gallery print, if any.
    Identified(Option<usize>),
    /// The capture must be retried.
    Retry(RetryReason),
    /// The attempt failed.
    Failed(CoreError),
    /// The reader's actor is gone.
    ActorGone,
}

/// The finger a reply matched, if any: the single finger for a 1:1 match, the gallery entry at
/// the matched index (if it exists) for an identification.
pub open spec fn matched_finger(choice: VerifyChoice, reply: VerifyReply) -> Option<Finger> {
    match reply {
        VerifyReply::Verified(true) => match choice {
            VerifyChoice::Single(f) => Some(f),
            VerifyChoice::Identify(_) => None,
        },
        VerifyReply::Identified(Some(i)) => match choice {
            VerifyChoice::Identify(g) => if i < g@.len() {
                Some(g@[i as int])
            } else {
                None
            },
            VerifyChoice::Single(_) => None,
        },
        _ => None,
    }
}

/// What the verify pump does with one reply: the signals it emits, in order, and whether it
/// re-issues the verification. A match announces the finger before the `verify-match` status;
/// a finished attempt reports `verify-match` or `verify-no-match` and ends; a retry reports the
/// retry status and goes again; a failure reports its status and ends; a vanished actor ends
/// silently.
pub fn verify_pump_step(choice: &VerifyChoice, reply: VerifyReply) -> (r: (Vec<VerifySignal>, bool))
    ensures
        match reply {
            VerifyReply::Verified(_) | VerifyReply::Identified(_) => !r.1 && match matched_finger(
                *choice,
                reply,
            ) {
                Some(f) => r.0@.len() == 2 && (r.0@[0] matches VerifySignal::FingerMatched(n) && n@
                    == finger_names()[finger_num(f)]) && (r.0@[1] matches VerifySignal::Status(s, d)
                    && s@ == "verify-match"@ && d),
                None => r.0@.len() == 1 && (r.0@[0] matches VerifySignal::Status(s, d) && s@
                    == "verify-no-match"@ && d),
            },
            VerifyReply::Retry(reason) => r.1 && r.0@.len() == 1 && (r.0@[0] matches VerifySignal::Status(
                s,
                d,
            ) && s@ == verify_retry_name(reason) && !d),
            VerifyReply::Failed(e) => !r.1 && r.0@.len() == 1 && (r.0@[0] matches VerifySignal::Status(
                s,
                d,
            ) && s@ == verify_error_name(e) && d),
            VerifyReply::ActorGone => !r.1 && r.0@.len() == 0,
        },
{
    let mut signals: Vec<VerifySignal> = Vec::new();
    match reply {
        VerifyReply::Verified(_) | VerifyReply::Identified(_) => {
            let matched: Option<Finger> = match (choice, reply) {
                (VerifyChoice::Single(f), VerifyReply::Verified(true)) => Some(*f),
                (VerifyChoice::Identify(g), VerifyReply::Identified(Some(i))) => {
                    if i < g.len() {
                        Some(g[i])
                    } else {
                        None
                    }
                },
                _ => None,
            };
            if let Some(f) = matched {
                signals.push(VerifySignal::FingerMatched(finger_dbus_name(f)));
            }
            let (s, done) = verify_match(matched.is_some());
            signals.push(VerifySignal::Status(s, done));
            (signals, false)
        },
        VerifyReply::Retry(reason) => {
            let (s, done) = verify_retry(reason);
            signals.push(VerifySignal::Status(s, done));
            (signals, true)
        },
        VerifyReply::Failed(e) => {
            let (s, done) = verify_error(&e);
            signals.push(VerifySignal::Status(s, done));
            (signals, false)
        },
        VerifyReply::ActorGone => (signals, false),
    }
}

/// The reader's answer to an enrolment.
#[derive(Clone, Copy, Debug, PartialEq, Eq, Structural)]
pub enum EnrollReply {
    /// The enrolment finished; `saved` says whether the print could then be stored.
    Enrolled {
        /// Whether the finished print was stored.
        saved: bool,
    },
    /// The enrolment failed.
    Failed(CoreError),
    /// The reader's actor is gone.
    ActorGone,
}

/// The final `EnrollStatus` of an enrolment (always done), or none when the actor vanished.
pub fn enroll_final_status(reply: EnrollReply) -> (r: Option<&'static str>)
    ensures
        match reply {
            EnrollReply::Enrolled { saved } => r matches Some(s) && s@ == if saved {
                "enroll-completed"@
            } else {
                "enroll-failed"@
            },
            EnrollReply::Failed(e) => r matches Some(s) && s@ == enroll_error_name(e),
            EnrollReply::ActorGone => r is None,
        },
{
    match reply {
        EnrollReply::Enrolled { saved } => {
            if saved {
                Some("enroll-completed")
            } else {
                Some("enroll-failed")
            }
        },
        EnrollReply::Failed(e) => Some(enroll_error(&e)),
        EnrollReply::ActorGone => None,
    }
}

/// The storage keys of a finished print.
#[derive(Debug)]
pub struct PrintKeys {
    /// The owning user.
    pub username: Option<String>,
    /// The finger.
    pub finger: Option<Finger>,
    /// The driver that made it.
    pub driver: Option<String>,
    /// The reader it was made on.
    pub device_id: Option<String>,
}

/// Fill in whichever storage keys a finished print lacks from the enrolment's own, keeping
/// those it carries.
pub fn complete_keys(keys: &mut PrintKeys, user: &str, finger: Finger, driver: &str, device_id: &str)
    ensures
        match old(keys).username {
            Some(u) => final(keys).username matches Some(v) && v@ == u@,
            None => final(keys).username matches Some(v) && v@ == user@,
        },
        final(keys).finger == match old(keys).finger {
            Some(f) => Some(f),
            None => Some(finger),
        },
        match old(keys).driver {
            Some(u) => final(keys).driver matches Some(v) && v@ == u@,
            None => final(keys).driver matches Some(v) && v@ == driver@,
        },
        match old(keys).device_id {
            Some(u) => final(keys).device_id matches Some(v) && v@ == u@,
            None => final(keys).device_id matches Some(v) && v@ == device_id@,
        },
{
    if keys.username.is_none() {
        keys.username = Some(String::from_str(user));
    }
    if keys.finger.is_none() {
        keys.finger = Some(finger);
    }
    if keys.driver.is_none() {
        keys.driver = Some(String::from_str(driver));
    }
    if keys.device_id.is_none() {
        keys.device_id = Some(String::from_str(device_id));
    }
}

/// The answer to listing a user's enrolled fingers: their wire names, in order, or
/// `NoEnrolledPrints` ("Failed to discover prints") when there are none.
pub fn enrolled_finger_names(fingers: &[Finger]) -> (r: Result<Vec<&'static str>, DaemonError>)
    ensures
        fingers@.len() == 0 ==> (r matches Err(e) && (e matches DaemonError::NoEnrolledPrints(m) && m@
            == "Failed to discover prints"@)),
        fingers@.len() > 0 ==> (r matches Ok(v) && v@.len() == fingers@.len() && forall|k: int|
            0 <= k < fingers@.len() ==> (#[trigger] v@[k])@ == finger_names()[finger_num(fingers@[k])]),
{
    if fingers.len() == 0 {
        return Err(DaemonError::NoEnrolledPrints(String::from_str("Failed to discover prints")));
    }
    let mut names: Vec<&'static str> = Vec::with_capacity(fingers.len());
    let mut k: usize = 0;
    while k < fingers.len()
        invariant
            k <= fingers@.len(),
            names@.len() == k,
            forall|j: int| 0 <= j < k ==> (#[trigger] names@[j])@ == finger_names()[finger_num(fingers@[j])],
        decreases fingers@.len() - k,
    {
        names.push(finger_dbus_name(fingers[k]));
        k += 1;
    }
    Ok(names)
}

/// Whether `fingers` holds `f`.
pub fn holds_finger(fingers: &[Finger], f: Finger) -> (r: bool)
    ensures
        r == fingers@.contains(f),
{
    let mut k: usize = 0;
    while k < fingers.len()
        invariant
            k <= fingers@.len(),
            forall|j: int| 0 <= j < k ==> fingers@[j] != f,
        decreases fingers@.len() - k,
    {
        if fingers[k] == f {
            assert(fingers@[k as int] == f);
            return true;
        }
        k += 1;
    }
    false
}

/// The check before deleting one finger: it must be enrolled, else `NoEnrolledPrints` naming it.
pub fn check_finger_enrolled(fingers: &[Finger], finger: Finger, finger_name: &str) -> (r: Result<
    (),
    DaemonError,
>)
    ensures
        fingers@.contains(finger) ==> r is Ok,
        !fingers@.contains(finger) ==> (r matches Err(e) && (e matches DaemonError::NoEnrolledPrints(m)
            && m@ == "Fingerprint for finger "@ + finger_name@ + " is not enrolled"@)),
{
    if holds_finger(fingers, finger) {
        Ok(())
    } else {
        let msg = String::from_str("Fingerprint for finger ").concat(finger_name).concat(
            " is not enrolled",
        );
        Err(DaemonError::NoEnrolledPrints(msg))
    }
}

/// The check before deleting every finger: there must be at least one, else
/// `NoEnrolledPrints` ("No fingerprint enrolled").
pub fn check_any_enrolled(fingers: &[Finger]) -> (r: Result<(), DaemonError>)
    ensures
        fingers@.len() > 0 ==> r is Ok,
        fingers@.len() == 0 ==> (r matches Err(e) && (e matches DaemonError::NoEnrolledPrints(m) && m@
            == "No fingerprint enrolled"@)),
{
    if fingers.len() == 0 {
        Err(DaemonError::NoEnrolledPrints(String::from_str("No fingerprint enrolled")))
    } else {
        Ok(())
    }
}

} // verus!
