//! Authorization: a method may require one of three PolicyKit actions, and an authorizer either
//! answers from a set of actions decided in advance or asks PolicyKit.

use vstd::prelude::*;

use crate::error::DaemonError;

verus! {

/// A PolicyKit action a method may require.
#[derive(Clone, Copy, Debug, PartialEq, Eq, Structural)]
pub enum PolkitAction {
    /// `net.reactivated.fprint.device.verify`
    Verify,
    /// `net.reactivated.fprint.device.enroll`
    Enroll,
    /// `net.reactivated.fprint.device.setusername`
    SetUsername,
}

/// The PolicyKit action id of an action.
pub open spec fn action_id(a: PolkitAction) -> Seq<char> {
    match a {
        PolkitAction::Verify => "net.reactivated.fprint.device.verify"@,
        PolkitAction::Enroll => "net.reactivated.fprint.device.enroll"@,
        PolkitAction::SetUsername => "net.reactivated.fprint.device.setusername"@,
    }
}

impl PolkitAction {
    /// The PolicyKit action id string.
    pub fn id(self) -> (s: &'static str)
        ensures
            s@ == action_id(self),
    {
        match self {
            PolkitAction::Verify => "net.reactivated.fprint.device.verify",
            PolkitAction::Enroll => "net.reactivated.fprint.device.enroll",
            PolkitAction::SetUsername => "net.reactivated.fprint.device.setusername",
        }
    }
}

/// A set of [`PolkitAction`]s, one bit each.
#[derive(Clone, Copy, Debug, PartialEq, Eq, Structural)]
pub struct ActionSet(pub u8);

/// The bit of an action.
pub open spec fn action_bit(a: PolkitAction) -> u8 {
    match a {
        PolkitAction::Verify => 1,
        PolkitAction::Enroll => 2,
        PolkitAction::SetUsername => 4,
    }
}

/// Whether the set of bits `s` grants `a`.
pub open spec fn grants(s: u8, a: PolkitAction) -> bool {
    s & action_bit(a) != 0
}

impl ActionSet {
    /// Grants nothing.
    pub fn none() -> (s: ActionSet)
        ensures
            s.0 == 0,
    {
        ActionSet(0)
    }

    /// `net.reactivated.fprint.device.verify`
    pub fn verify() -> (s: ActionSet)
        ensures
            s.0 == 1,
    {
        ActionSet(1)
    }

    /// `net.reactivated.fprint.device.enroll`
    pub fn enroll() -> (s: ActionSet)
        ensures
            s.0 == 2,
    {
        ActionSet(2)
    }

    /// `net.reactivated.fprint.device.setusername`
    pub fn set_username() -> (s: ActionSet)
        ensures
            s.0 == 4,
    {
        ActionSet(4)
    }

    /// Every action.
    pub fn all() -> (s: ActionSet)
        ensures
            s.0 == 7,
    {
        ActionSet(7)
    }

    /// The set holding just `action`.
    pub fn bit(action: PolkitAction) -> (s: ActionSet)
        ensures
            s.0 == action_bit(action),
    {
        match action {
            PolkitAction::Verify => ActionSet::verify(),
            PolkitAction::Enroll => ActionSet::enroll(),
            PolkitAction::SetUsername => ActionSet::set_username(),
        }
    }

    /// Whether this set grants `action`.
    pub fn contains(self, action: PolkitAction) -> (r: bool)
        ensures
            r == grants(self.0, action),
    {
        self.0 & ActionSet::bit(action).0 != 0
    }

    /// The union of two sets.
    pub fn union(self, rhs: ActionSet) -> (r: ActionSet)
        ensures
            r.0 == self.0 | rhs.0,
    {
        ActionSet(self.0 | rhs.0)
    }
}

impl core::ops::BitOr for ActionSet {
    type Output = ActionSet;

    fn bitor(self, rhs: ActionSet) -> (r: ActionSet)
        ensures
            r.0 == self.0 | rhs.0,
    {
        self.union(rhs)
    }
}

impl vstd::std_specs::ops::BitOrSpecImpl for ActionSet {
    open spec fn obeys_bitor_spec() -> bool {
        true
    }

    open spec fn bitor_req(self, rhs: ActionSet) -> bool {
        true
    }

    open spec fn bitor_spec(self, rhs: ActionSet) -> ActionSet {
        ActionSet(self.0 | rhs.0)
    }
}

impl Default for ActionSet {
    /// The empty set: a forgotten initializer grants nothing.
    fn default() -> (r: ActionSet)
        ensures
            r.0 == 0,
    {
        ActionSet::none()
    }
}

/// A union grants what either side grants; each action's bit grants that action and no other;
/// the empty set grants nothing, the full set everything, and the full set is the union of the
/// three action bits.
pub proof fn lemma_action_set_algebra(s: u8, t: u8, a: PolkitAction, b: PolkitAction)
    ensures
        grants(s | t, a) == (grants(s, a) || grants(t, a)),
        grants(action_bit(a), b) == (a == b),
        !grants(0, a),
        grants(7, a),
        (action_bit(PolkitAction::Verify) | action_bit(PolkitAction::Enroll)) | action_bit(
            PolkitAction::SetUsername,
        ) == 7,
{
    let m = action_bit(a);
    assert((s | t) & m != 0 <==> (s & m != 0 || t & m != 0)) by (bit_vector)
        requires
            m == 1 || m == 2 || m == 4,
    ;
    assert(1u8 & 2u8 == 0 && 1u8 & 4u8 == 0 && 2u8 & 4u8 == 0 && 2u8 & 1u8 == 0 && 4u8 & 1u8 == 0
        && 4u8 & 2u8 == 0) by (bit_vector);
    assert(1u8 & 1u8 != 0 && 2u8 & 2u8 != 0 && 4u8 & 4u8 != 0) by (bit_vector);
    assert(0u8 & m == 0) by (bit_vector);
    assert(7u8 & m != 0) by (bit_vector)
        requires
            m == 1 || m == 2 || m == 4,
    ;
    assert((1u8 | 2u8) | 4u8 == 7) by (bit_vector);
}

/// Decides whether a caller may perform an action.
#[derive(Clone, Copy, Debug)]
pub enum Authorizer {
    /// Grants exactly the actions in the set and refuses the rest.
    Fixed(ActionSet),
    /// Consults PolicyKit.
    Polkit,
}

/// An authorizer's answer before any PolicyKit round trip.
#[derive(Debug)]
pub enum AuthDecision {
    /// The action is granted.
    Granted,
    /// The action is refused, with the error to return.
    Denied(DaemonError),
    /// PolicyKit must be asked.
    AskPolkit,
}

/// The refusal message for an action: `Not Authorized: ` and the action id.
pub open spec fn denial_message(a: PolkitAction) -> Seq<char> {
    "Not Authorized: "@ + action_id(a)
}

/// The refusal of `action`: [`DaemonError::PermissionDenied`] naming the action id.
pub fn permission_denied(action: PolkitAction) -> (e: DaemonError)
    ensures
        e matches DaemonError::PermissionDenied(m) && m@ == denial_message(action),
{
    let msg = String::from_str("Not Authorized: ").concat(action.id());
    DaemonError::PermissionDenied(msg)
}

impl Authorizer {
    /// What this authorizer answers for `action`: a fixed set grants its actions and refuses
    /// the rest with [`DaemonError::PermissionDenied`]; PolicyKit must be asked otherwise.
    pub fn decide(&self, action: PolkitAction) -> (d: AuthDecision)
        ensures
            match *self {
                Authorizer::Fixed(s) => if grants(s.0, action) {
                    d is Granted
                } else {
                    d matches AuthDecision::Denied(e) && (e matches DaemonError::PermissionDenied(m)
                        && m@ == denial_message(action))
                },
                Authorizer::Polkit => d is AskPolkit,
            },
    {
        match self {
            Authorizer::Fixed(granted) => {
                if granted.contains(action) {
                    AuthDecision::Granted
                } else {
                    AuthDecision::Denied(permission_denied(action))
                }
            },
            Authorizer::Polkit => AuthDecision::AskPolkit,
        }
    }

    /// What this authorizer answers for a claim, which needs verify or enroll: a fixed set
    /// grants it when it holds either, and otherwise refuses it as it refuses enroll.
    pub fn decide_claim(&self) -> (d: AuthDecision)
        ensures
            match *self {
                Authorizer::Fixed(s) => if grants(s.0, PolkitAction::Verify) || grants(
                    s.0,
                    PolkitAction::Enroll,
                ) {
                    d is Granted
                } else {
                    d matches AuthDecision::Denied(e) && (e matches DaemonError::PermissionDenied(m)
                        && m@ == denial_message(PolkitAction::Enroll))
                },
                Authorizer::Polkit => d is AskPolkit,
            },
    {
        match self.decide(PolkitAction::Verify) {
            AuthDecision::Granted => AuthDecision::Granted,
            _ => self.decide(PolkitAction::Enroll),
        }
    }
}

/// PolicyKit's replies for a claim turned into its result: granted when verify is authorized,
/// else when enroll is (asked only then); else the refusal naming enroll.
pub fn claim_verdict(verify_authorized: bool, enroll_authorized: bool) -> (r: Result<(), DaemonError>)
    ensures
        (verify_authorized || enroll_authorized) ==> r is Ok,
        !(verify_authorized || enroll_authorized) ==> (r matches Err(e) && (e matches DaemonError::PermissionDenied(
            m,
        ) && m@ == denial_message(PolkitAction::Enroll))),
{
    if verify_authorized {
        Ok(())
    } else {
        polkit_verdict(enroll_authorized, PolkitAction::Enroll)
    }
}

/// PolicyKit's reply turned into the method's result: `Ok` when authorized, else the refusal
/// naming the action.
pub fn polkit_verdict(authorized: bool, action: PolkitAction) -> (r: Result<(), DaemonError>)
    ensures
        authorized ==> r is Ok,
        !authorized ==> (r matches Err(e) && (e matches DaemonError::PermissionDenied(m) && m@
            == denial_message(action))),
{
    if authorized {
        Ok(())
    } else {
        Err(permission_denied(action))
    }
}

} // verus!
