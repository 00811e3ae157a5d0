//! The order in which a device method's checks refuse a request. Each step takes the device's
//! session state, the caller, and the answers of the outside services the method consults
//! (PolicyKit, the caller's user lookup, the print store), and gives the method's verdict; the
//! first check that fails decides the error.

use vstd::prelude::*;

use crate::authorizer::{
    claim_verdict, denial_message, grants, polkit_verdict, AuthDecision, Authorizer,
    PolkitAction,
};
use crate::device::{choose_verify_op, finger_num_text, holds_finger, VerifyChoice};
use crate::error::DaemonError;
use crate::names::{finger_from_dbus_name, finger_named, str_eq, Finger};
use crate::session::{
    busy, claim_session, ensure_idle, finish_claim, real_finger, release_session, require_claimed,
    require_refusal, resolve_user, ActiveOp, OpenReply, Session, UserChoice,
};

verus! {

/// Whether `authz` authorizes `action`: a fixed set by its membership; PolicyKit by what it
/// answered.
pub open spec fn authorized(authz: Authorizer, action: PolkitAction, polkit_answer: bool) -> bool {
    match authz {
        Authorizer::Fixed(s) => grants(s.0, action),
        Authorizer::Polkit => polkit_answer,
    }
}

/// `r` is the refusal of `action`.
pub open spec fn refused_for<T>(r: Result<T, DaemonError>, action: PolkitAction) -> bool {
    r matches Err(e) && (e matches DaemonError::PermissionDenied(m) && m@ == denial_message(action))
}

/// `r` is the error of kind `AlreadyInUse` with message `msg`.
pub open spec fn in_use<T>(r: Result<T, DaemonError>, msg: Seq<char>) -> bool {
    r matches Err(e) && (e matches DaemonError::AlreadyInUse(m) && m@ == msg)
}

/// `r` is the refusal of a caller that has not claimed an unclaimed device.
pub open spec fn unclaimed<T>(r: Result<T, DaemonError>) -> bool {
    r matches Err(e) && (e matches DaemonError::ClaimDevice(m) && m@
        == "Device was not claimed before use"@)
}

/// `r` is the refusal of a name that is not a finger's.
pub open spec fn bad_finger<T>(r: Result<T, DaemonError>) -> bool {
    r matches Err(e) && (e matches DaemonError::InvalidFingername(m) && m@ == "Invalid finger name"@)
}

/// Check one action: a fixed set answers by itself; PolicyKit's answer (`polkit_answer`) is read
/// only for the PolicyKit authorizer.
pub fn check_action(authz: &Authorizer, action: PolkitAction, polkit_answer: bool) -> (r: Result<
    (),
    DaemonError,
>)
    ensures
        authorized(*authz, action, polkit_answer) ==> r is Ok,
        !authorized(*authz, action, polkit_answer) ==> refused_for(r, action),
{
    match authz.decide(action) {
        AuthDecision::Granted => Ok(()),
        AuthDecision::Denied(e) => Err(e),
        AuthDecision::AskPolkit => polkit_verdict(polkit_answer, action),
    }
}

/// The checks `VerifyStart` makes before it looks at any print, in order: the caller holds the
/// claim, verify is authorized, no operation is running (a finished one is cleared), and the
/// name is a finger's (or `"any"`). Gives the claim's user and the requested finger.
pub fn verify_start_gate(
    claim: &Option<Session>,
    active: &mut Option<ActiveOp>,
    sender: &str,
    authz: &Authorizer,
    polkit_verify: bool,
    finger_name: &str,
) -> (r: Result<(String, Finger), DaemonError>)
    ensures
        match *claim {
            None => unclaimed(r) && *final(active) == *old(active),
            Some(s) => if s.sender@ != sender@ {
                in_use(r, "Device already in use by another user"@) && *final(active) == *old(active)
            } else if !authorized(*authz, PolkitAction::Verify, polkit_verify) {
                refused_for(r, PolkitAction::Verify) && *final(active) == *old(active)
            } else if busy(*old(active)) {
                in_use(r, "Another operation is already in progress"@) && *final(active) == *old(
                    active,
                )
            } else {
                final(active).is_none() && match finger_named(finger_name@) {
                    None => bad_finger(r),
                    Some(f) => r matches Ok(p) && p.0@ == s.username@ && p.1 == f,
                }
            },
        },
{
    let user = match require_claimed(claim, sender) {
        Ok(u) => u,
        Err(e) => return Err(e),
    };
    match check_action(authz, PolkitAction::Verify, polkit_verify) {
        Ok(()) => {},
        Err(e) => return Err(e),
    }
    match ensure_idle(active) {
        Ok(()) => {},
        Err(e) => return Err(e),
    }
    match finger_from_dbus_name(finger_name) {
        Some(f) => Ok((user, f)),
        None => Err(DaemonError::InvalidFingername(String::from_str("Invalid finger name"))),
    }
}

/// The answer to `VerifyStart`: the checks of [`verify_start_gate`] in their order, then the
/// choice of prints ([`choose_verify_op`]) from whether the requested finger's print loads and
/// the fingers with a loadable print.
pub fn verify_start_step(
    claim: &Option<Session>,
    active: &mut Option<ActiveOp>,
    sender: &str,
    authz: &Authorizer,
    polkit_verify: bool,
    finger_name: &str,
    requested_loaded: bool,
    gallery: &[Finger],
    can_identify: bool,
) -> (r: Result<VerifyChoice, DaemonError>)
    ensures
        match *claim {
            None => unclaimed(r) && *final(active) == *old(active),
            Some(s) => if s.sender@ != sender@ {
                in_use(r, "Device already in use by another user"@) && *final(active) == *old(active)
            } else if !authorized(*authz, PolkitAction::Verify, polkit_verify) {
                refused_for(r, PolkitAction::Verify) && *final(active) == *old(active)
            } else if busy(*old(active)) {
                in_use(r, "Another operation is already in progress"@) && *final(active) == *old(
                    active,
                )
            } else {
                final(active).is_none() && match finger_named(finger_name@) {
                    None => bad_finger(r),
                    Some(requested) => if requested != Finger::Unknown {
                        if requested_loaded {
                            r matches Ok(VerifyChoice::Single(f)) && f == requested
                        } else {
                            r matches Err(e) && (e matches DaemonError::NoEnrolledPrints(m) && m@
                                == "No such print "@ + finger_num_text(requested))
                        }
                    } else if gallery@.len() == 0 {
                        r matches Err(e) && (e matches DaemonError::NoEnrolledPrints(m) && m@
                            == "No fingerprints enrolled"@)
                    } else if gallery@.len() == 1 || !can_identify {
                        r matches Ok(VerifyChoice::Single(f)) && f == gallery@[0]
                    } else {
                        r matches Ok(VerifyChoice::Identify(g)) && g@ == gallery@
                    },
                }
            },
        },
{
    let requested = match verify_start_gate(claim, active, sender, authz, polkit_verify, finger_name) {
        Ok(p) => p.1,
        Err(e) => return Err(e),
    };
    choose_verify_op(requested, requested_loaded, gallery, can_identify)
}

/// `EnrollStart`'s checks, in order: the caller holds the claim, enroll is authorized, the name
/// is a real finger's, and no operation is running (a finished one is cleared). Gives the claim's
/// user and the finger.
pub fn enroll_start_step(
    claim: &Option<Session>,
    active: &mut Option<ActiveOp>,
    sender: &str,
    authz: &Authorizer,
    polkit_enroll: bool,
    finger_name: &str,
) -> (r: Result<(String, Finger), DaemonError>)
    ensures
        match *claim {
            None => unclaimed(r) && *final(active) == *old(active),
            Some(s) => if s.sender@ != sender@ {
                in_use(r, "Device already in use by another user"@) && *final(active) == *old(active)
            } else if !authorized(*authz, PolkitAction::Enroll, polkit_enroll) {
                refused_for(r, PolkitAction::Enroll) && *final(active) == *old(active)
            } else if !(finger_named(finger_name@) matches Some(f) && f != Finger::Unknown) {
                bad_finger(r) && *final(active) == *old(active)
            } else if busy(*old(active)) {
                in_use(r, "Another operation is already in progress"@) && *final(active) == *old(
                    active,
                )
            } else {
                final(active).is_none() && (r matches Ok(p) && p.0@ == s.username@ && p.1
                    == finger_named(finger_name@)->0)
            },
        },
{
    let user = match require_claimed(claim, sender) {
        Ok(u) => u,
        Err(e) => return Err(e),
    };
    match check_action(authz, PolkitAction::Enroll, polkit_enroll) {
        Ok(()) => {},
        Err(e) => return Err(e),
    }
    let finger = match real_finger(finger_name) {
        Ok(f) => f,
        Err(e) => return Err(e),
    };
    match ensure_idle(active) {
        Ok(()) => {},
        Err(e) => return Err(e),
    }
    Ok((user, finger))
}

/// Whether a claim is authorized: verify or enroll.
pub open spec fn claim_authorized(authz: Authorizer, polkit_verify: bool, polkit_enroll: bool) -> bool {
    authorized(authz, PolkitAction::Verify, polkit_verify) || authorized(
        authz,
        PolkitAction::Enroll,
        polkit_enroll,
    )
}

/// `Claim`'s checks and its record, in order: verify or enroll is authorized (refused as enroll
/// is); the user resolves (an empty name is the caller's own user, which must be known; another
/// user than the caller's own needs `setusername`); the device is free (`AlreadyInUse`). On
/// success the claim records the caller and that user; on any refusal the claim is unchanged.
/// Opening the reader follows ([`crate::session::finish_claim`]).
pub fn claim_step(
    claim: &mut Option<Session>,
    sender: &str,
    authz: &Authorizer,
    polkit_verify: bool,
    polkit_enroll: bool,
    own: Option<&str>,
    requested: &str,
    polkit_setusername: bool,
) -> (r: Result<(), DaemonError>)
    ensures
        !claim_authorized(*authz, polkit_verify, polkit_enroll) ==> refused_for(r, PolkitAction::Enroll)
            && *final(claim) == *old(claim),
        claim_authorized(*authz, polkit_verify, polkit_enroll) ==> if requested@.len() == 0
            && own is None {
            (r matches Err(e) && (e matches DaemonError::Internal(m) && m@
                == "could not determine caller's username"@)) && *final(claim) == *old(claim)
        } else if requested@.len() > 0 && !(own matches Some(o) && o@ == requested@)
            && !authorized(*authz, PolkitAction::SetUsername, polkit_setusername) {
            refused_for(r, PolkitAction::SetUsername) && *final(claim) == *old(claim)
        } else if old(claim).is_some() {
            in_use(r, "Device was already claimed"@) && *final(claim) == *old(claim)
        } else {
            r is Ok && (*final(claim) matches Some(s) && s.sender@ == sender@ && s.username@ == (
            if requested@.len() == 0 {
                own->0@
            } else {
                requested@
            }))
        },
{
    let auth = match authz {
        Authorizer::Fixed(_) => match authz.decide_claim() {
            AuthDecision::Granted => Ok(()),
            AuthDecision::Denied(e) => Err(e),
            AuthDecision::AskPolkit => claim_verdict(polkit_verify, polkit_enroll),
        },
        Authorizer::Polkit => claim_verdict(polkit_verify, polkit_enroll),
    };
    match auth {
        Ok(()) => {},
        Err(e) => return Err(e),
    }
    let user = match resolve_user(own, requested) {
        Err(e) => return Err(e),
        Ok(UserChoice::Own(u)) => u,
        Ok(UserChoice::Requested(u)) => u,
        Ok(UserChoice::NeedsSetUsername(u)) => {
            match check_action(authz, PolkitAction::SetUsername, polkit_setusername) {
                Ok(()) => {},
                Err(e) => return Err(e),
            }
            u
        },
    };
    claim_session(claim, String::from_str(sender), user)
}

/// A print held in the reader's own storage: its finger, and the user it was enrolled for where
/// the reader recorded one.
#[derive(Debug)]
pub struct SensorPrint {
    /// The finger.
    pub finger: Finger,
    /// The user it belongs to.
    pub owner: Option<String>,
}

/// A print on the reader is `user`'s and the host keeps no record of its finger for `user`.
pub open spec fn orphaned(p: SensorPrint, user: Seq<char>, recorded: Seq<Finger>) -> bool {
    (p.owner matches Some(o) && o@ == user) && !recorded.contains(p.finger)
}

/// The positions, in order, among the first `n` of `prints`, of the prints orphaned for `user`.
pub open spec fn orphan_positions(prints: Seq<SensorPrint>, user: Seq<char>, recorded: Seq<Finger>, n: int) -> Seq<usize>
    decreases n,
{
    if n <= 0 {
        Seq::empty()
    } else {
        orphan_positions(prints, user, recorded, n - 1) + if orphaned(prints[n - 1], user, recorded) {
            seq![(n - 1) as usize]
        } else {
            Seq::empty()
        }
    }
}

/// The reader's prints to free when `user` claims it: where the reader can delete from its own
/// storage, each print of `user` whose finger the host no longer records for `user`, in the
/// reader's order; other users' prints and prints of no recorded user are kept. Where it cannot
/// delete, none.
pub fn orphaned_prints(prints: &[SensorPrint], user: &str, recorded: &[Finger], can_delete: bool) -> (r:
    Vec<usize>)
    ensures
        !can_delete ==> r@.len() == 0,
        can_delete ==> r@ == orphan_positions(prints@, user@, recorded@, prints@.len() as int),
{
    let mut out: Vec<usize> = Vec::new();
    if !can_delete {
        return out;
    }
    let mut k: usize = 0;
    while k < prints.len()
        invariant
            k <= prints@.len(),
            out@ == orphan_positions(prints@, user@, recorded@, k as int),
        decreases prints@.len() - k,
    {
        let p = &prints[k];
        let mine = match &p.owner {
            Some(o) => str_eq(o.as_str(), user),
            None => false,
        };
        if mine && !holds_finger(recorded, p.finger) {
            out.push(k);
        }
        proof {
            assert(orphan_positions(prints@, user@, recorded@, k + 1) == orphan_positions(
                prints@,
                user@,
                recorded@,
                k as int,
            ) + if orphaned(prints@[k as int], user@, recorded@) {
                seq![k]
            } else {
                Seq::empty()
            });
        }
        k += 1;
        assert(out@ =~= orphan_positions(prints@, user@, recorded@, k as int));
    }
    out
}

/// `Claim`'s last step, once the reader has answered the open: an opened reader keeps the claim
/// and has the claiming user's orphaned prints freed ([`orphaned_prints`], from the prints the
/// reader holds and the fingers the host records for that user); a failed open drops the claim
/// and reports the failure as [`finish_claim`] does, freeing nothing.
pub fn claim_opened_step(
    claim: &mut Option<Session>,
    reply: OpenReply,
    prints: &[SensorPrint],
    recorded: &[Finger],
    can_delete: bool,
) -> (r: Result<Vec<usize>, DaemonError>)
    ensures
        match reply {
            OpenReply::Opened => *final(claim) == *old(claim) && (r matches Ok(v) && v@ == match *old(
                claim,
            ) {
                Some(s) => if can_delete {
                    orphan_positions(prints@, s.username@, recorded@, prints@.len() as int)
                } else {
                    Seq::empty()
                },
                None => Seq::empty(),
            }),
            OpenReply::Failed(why) => (r matches Err(e) && (e matches DaemonError::Internal(m) && m@
                == "Open failed with error: "@ + why@)) && final(claim).is_none(),
            OpenReply::ActorGone => (r matches Err(e) && (e matches DaemonError::Internal(m) && m@
                == "device actor stopped"@)) && final(claim).is_none(),
        },
{
    match finish_claim(claim, reply) {
        Err(e) => Err(e),
        Ok(()) => {
            match claim {
                Some(s) => Ok(orphaned_prints(prints, s.username.as_str(), recorded, can_delete)),
                None => Ok(Vec::new()),
            }
        },
    }
}

/// A bus name left the bus. If it held the claim, the device is torn down as a release by it
/// would: any operation is taken (`true` when a running one must be told to stop) and the claim
/// dropped. Any other name's leaving changes nothing.
pub fn vanish_step(claim: &mut Option<Session>, active: &mut Option<ActiveOp>, vanished: &str) -> (r: bool)
    ensures
        require_refusal(*old(claim), vanished@) is Some ==> !r && *final(claim) == *old(claim)
            && *final(active) == *old(active),
        require_refusal(*old(claim), vanished@) is None ==> r == busy(*old(active))
            && final(claim).is_none() && final(active).is_none(),
{
    match release_session(claim, active, vanished) {
        Ok(stop) => stop,
        Err(_) => false,
    }
}

/// What deleting all of a user's prints does: the host records of these fingers are deleted, in
/// order, and, where the reader can delete single prints from its own storage, each one's print
/// there too. The reader's storage is never wiped wholesale.
#[derive(Debug)]
pub struct DeletePlan {
    /// The fingers whose prints go.
    pub fingers: Vec<Finger>,
    /// Whether each print is also deleted from the reader's storage.
    pub from_sensor: bool,
}

/// `DeleteEnrolledFingers2`'s checks and plan, in order: the caller holds the claim, enroll is
/// authorized, and the claim's user has at least one recorded finger (`recorded`, as the host
/// store lists them); then every recorded finger is deleted, one print at a time.
pub fn delete_all_step(
    claim: &Option<Session>,
    sender: &str,
    authz: &Authorizer,
    polkit_enroll: bool,
    recorded: &[Finger],
    can_delete: bool,
) -> (r: Result<DeletePlan, DaemonError>)
    ensures
        match *claim {
            None => unclaimed(r),
            Some(s) => if s.sender@ != sender@ {
                in_use(r, "Device already in use by another user"@)
            } else if !authorized(*authz, PolkitAction::Enroll, polkit_enroll) {
                refused_for(r, PolkitAction::Enroll)
            } else if recorded@.len() == 0 {
                r matches Err(e) && (e matches DaemonError::NoEnrolledPrints(m) && m@
                    == "No fingerprint enrolled"@)
            } else {
                r matches Ok(p) && p.fingers@ == recorded@ && p.from_sensor == can_delete
            },
        },
{
    match require_claimed(claim, sender) {
        Ok(_) => {},
        Err(e) => return Err(e),
    }
    match check_action(authz, PolkitAction::Enroll, polkit_enroll) {
        Ok(()) => {},
        Err(e) => return Err(e),
    }
    if recorded.len() == 0 {
        return Err(DaemonError::NoEnrolledPrints(String::from_str("No fingerprint enrolled")));
    }
    let mut fingers: Vec<Finger> = Vec::with_capacity(recorded.len());
    let mut k: usize = 0;
    while k < recorded.len()
        invariant
            k <= recorded@.len(),
            fingers@ == recorded@.subrange(0, k as int),
        decreases recorded@.len() - k,
    {
        fingers.push(recorded[k]);
        k += 1;
        assert(fingers@ =~= recorded@.subrange(0, k as int));
    }
    assert(fingers@ =~= recorded@);
    Ok(DeletePlan { fingers, from_sensor: can_delete })
}

} // verus!
