//! The daemon's assembly and the per-device actor's command rules.
//!
//! Each reader is driven by one actor that owns it, opened on the first claim. The actor's
//! decision for a command depends only on whether it currently holds an opened reader: without
//! one, every command but open and close is answered "not ready", and a suspend or resume is a
//! no-op. The actor's loop, event by event ([`actor_event`]), runs one streaming operation at a
//! time; ordinary commands wait behind it, but a suspend or resume on the priority channel
//! preempts it: the operation is answered as cancelled and the priority command then runs.

use vstd::prelude::*;

use std::sync::Arc;

use crate::authorizer::Authorizer;
use crate::storage::{root_from, Store};

verus! {

/// A command to the device actor.
#[derive(Clone, Copy, Debug, PartialEq, Eq, Structural)]
pub enum ActorCommand {
    /// Acquire the reader if needed and open it.
    Open,
    /// Close and drop the reader.
    Close,
    /// Enrol a finger (streaming).
    Enroll,
    /// Verify against one print (streaming).
    Verify,
    /// Identify against a gallery (streaming).
    Identify,
    /// List the prints in the reader's storage.
    ListPrints,
    /// Delete one print from the reader's storage.
    DeletePrint,
    /// Wipe the reader's storage.
    ClearStorage,
    /// Prepare for system suspend (priority).
    Suspend,
    /// Resume after system suspend (priority).
    Resume,
}

/// What the actor does for a command.
#[derive(Clone, Copy, Debug, PartialEq, Eq, Structural)]
pub enum ActorAction {
    /// Acquire the reader from the backend, then open it.
    AcquireThenOpen,
    /// Open the reader already held.
    OpenHeld,
    /// Close the held reader and drop it.
    CloseHeld,
    /// Answer success without touching a reader.
    ReplyOk,
    /// Run the command on the held reader.
    RunOnReader,
    /// Answer that the reader is not ready.
    ReplyNotReady,
}

/// The actor's action for `cmd`, given whether it holds a reader.
pub open spec fn action_for(held: bool, cmd: ActorCommand) -> ActorAction {
    match cmd {
        ActorCommand::Open => if held {
            ActorAction::OpenHeld
        } else {
            ActorAction::AcquireThenOpen
        },
        ActorCommand::Close => if held {
            ActorAction::CloseHeld
        } else {
            ActorAction::ReplyOk
        },
        ActorCommand::Suspend | ActorCommand::Resume => if held {
            ActorAction::RunOnReader
        } else {
            ActorAction::ReplyOk
        },
        _ => if held {
            ActorAction::RunOnReader
        } else {
            ActorAction::ReplyNotReady
        },
    }
}

/// Decide the actor's action for `cmd`, and whether it holds a reader afterwards given whether
/// an acquisition (for an open without a reader) succeeded. A close always leaves no reader.
pub fn actor_step(held: bool, cmd: ActorCommand, acquired: bool) -> (r: (ActorAction, bool))
    ensures
        r.0 == action_for(held, cmd),
        r.1 == match cmd {
            ActorCommand::Open => held || acquired,
            ActorCommand::Close => false,
            _ => held,
        },
{
    match cmd {
        ActorCommand::Open => if held {
            (ActorAction::OpenHeld, true)
        } else {
            (ActorAction::AcquireThenOpen, acquired)
        },
        ActorCommand::Close => if held {
            (ActorAction::CloseHeld, false)
        } else {
            (ActorAction::ReplyOk, false)
        },
        ActorCommand::Suspend | ActorCommand::Resume => if held {
            (ActorAction::RunOnReader, true)
        } else {
            (ActorAction::ReplyOk, false)
        },
        _ => if held {
            (ActorAction::RunOnReader, true)
        } else {
            (ActorAction::ReplyNotReady, false)
        },
    }
}

/// Whether a command streams (and so can be preempted by a suspend or resume, which then runs
/// once the streaming command has been answered as cancelled).
pub fn is_streaming(cmd: ActorCommand) -> (r: bool)
    ensures
        r == (cmd == ActorCommand::Enroll || cmd == ActorCommand::Verify || cmd == ActorCommand::Identify),
{
    match cmd {
        ActorCommand::Enroll | ActorCommand::Verify | ActorCommand::Identify => true,
        _ => false,
    }
}

/// A command on the priority channel.
#[derive(Clone, Copy, Debug, PartialEq, Eq, Structural)]
pub enum PrioCommand {
    /// Prepare for system suspend.
    Suspend,
    /// Resume after system suspend.
    Resume,
}

/// The ordinary command a priority command runs as.
pub open spec fn prio_as_command(p: PrioCommand) -> ActorCommand {
    match p {
        PrioCommand::Suspend => ActorCommand::Suspend,
        PrioCommand::Resume => ActorCommand::Resume,
    }
}

/// What the actor knows between events: whether it holds a reader, and the streaming operation
/// parked on the reader, if any.
#[derive(Clone, Copy, Debug, PartialEq, Eq, Structural)]
pub struct ActorState {
    /// An opened reader is held.
    pub held: bool,
    /// The streaming operation (enrol, verify or identify) currently running.
    pub in_flight: Option<ActorCommand>,
}

/// Something the actor's loop observed.
#[derive(Clone, Copy, Debug, PartialEq, Eq, Structural)]
pub enum ActorEvent {
    /// An ordinary command taken from the queue, with whether acquiring a reader (for an open
    /// without one) succeeded.
    Command(ActorCommand, bool),
    /// A command from the priority channel.
    Prio(PrioCommand),
    /// The running streaming operation finished on its own.
    OpFinished,
    /// The caller of the running streaming operation cancelled it.
    OpCancelled,
}

/// One thing the actor does in answer to an event, in order.
#[derive(Clone, Copy, Debug, PartialEq, Eq, Structural)]
pub enum ActorReply {
    /// Carry out the action for an ordinary command and answer it.
    Act(ActorCommand, ActorAction),
    /// Start a streaming operation on the held reader; it is answered later.
    Start(ActorCommand),
    /// Answer the streaming operation with its own result.
    Answer(ActorCommand),
    /// Answer the streaming operation as cancelled.
    Cancel(ActorCommand),
    /// Run a priority command and answer it.
    RunPrio(PrioCommand, ActorAction),
}

/// The actor's next state and what it does, for one event.
pub open spec fn actor_event_spec(st: ActorState, ev: ActorEvent) -> (ActorState, Seq<ActorReply>) {
    match st.in_flight {
        Some(op) => match ev {
            ActorEvent::Prio(p) => (
                ActorState { held: st.held, in_flight: None },
                seq![ActorReply::Cancel(op), ActorReply::RunPrio(p, action_for(st.held, prio_as_command(p)))],
            ),
            ActorEvent::OpFinished => (
                ActorState { held: st.held, in_flight: None },
                seq![ActorReply::Answer(op)],
            ),
            ActorEvent::OpCancelled => (
                ActorState { held: st.held, in_flight: None },
                seq![ActorReply::Cancel(op)],
            ),
            // Ordinary commands wait in the queue while an operation runs.
            ActorEvent::Command(_, _) => (st, Seq::empty()),
        },
        None => match ev {
            ActorEvent::Prio(p) => (st, seq![ActorReply::RunPrio(p, action_for(st.held, prio_as_command(p)))]),
            ActorEvent::Command(cmd, acquired) => if st.held && (cmd == ActorCommand::Enroll || cmd
                == ActorCommand::Verify || cmd == ActorCommand::Identify) {
                (ActorState { held: true, in_flight: Some(cmd) }, seq![ActorReply::Start(cmd)])
            } else {
                (
                    ActorState {
                        held: match cmd {
                            ActorCommand::Open => st.held || acquired,
                            ActorCommand::Close => false,
                            _ => st.held,
                        },
                        in_flight: None,
                    },
                    seq![ActorReply::Act(cmd, action_for(st.held, cmd))],
                )
            },
            ActorEvent::OpFinished | ActorEvent::OpCancelled => (st, Seq::empty()),
        },
    }
}

/// One step of the device actor: from its state and an observed event to its next state and
/// what it does, in order. A suspend or resume on the priority channel preempts a running
/// streaming operation: the operation is answered as cancelled first, then the priority command
/// runs against the now-free reader and is answered; nothing stays in flight.
pub fn actor_event(st: ActorState, ev: ActorEvent) -> (r: (ActorState, Vec<ActorReply>))
    ensures
        (r.0, r.1@) == actor_event_spec(st, ev),
        st.in_flight is Some && ev is Prio ==> r.1@ == seq![
            ActorReply::Cancel(st.in_flight->0),
            ActorReply::RunPrio(ev->Prio_0, action_for(st.held, prio_as_command(ev->Prio_0))),
        ] && r.0.in_flight is None && r.0.held == st.held,
{
    let mut out: Vec<ActorReply> = Vec::new();
    match st.in_flight {
        Some(op) => match ev {
            ActorEvent::Prio(p) => {
                let pc = match p {
                    PrioCommand::Suspend => ActorCommand::Suspend,
                    PrioCommand::Resume => ActorCommand::Resume,
                };
                let (act, _) = actor_step(st.held, pc, false);
                out.push(ActorReply::Cancel(op));
                out.push(ActorReply::RunPrio(p, act));
                (ActorState { held: st.held, in_flight: None }, out)
            },
            ActorEvent::OpFinished => {
                out.push(ActorReply::Answer(op));
                (ActorState { held: st.held, in_flight: None }, out)
            },
            ActorEvent::OpCancelled => {
                out.push(ActorReply::Cancel(op));
                (ActorState { held: st.held, in_flight: None }, out)
            },
            ActorEvent::Command(_, _) => (st, out),
        },
        None => match ev {
            ActorEvent::Prio(p) => {
                let pc = match p {
                    PrioCommand::Suspend => ActorCommand::Suspend,
                    PrioCommand::Resume => ActorCommand::Resume,
                };
                let (act, _) = actor_step(st.held, pc, false);
                out.push(ActorReply::RunPrio(p, act));
                (st, out)
            },
            ActorEvent::Command(cmd, acquired) => {
                if st.held && is_streaming(cmd) {
                    out.push(ActorReply::Start(cmd));
                    (ActorState { held: true, in_flight: Some(cmd) }, out)
                } else {
                    let (act, held) = actor_step(st.held, cmd, acquired);
                    out.push(ActorReply::Act(cmd, act));
                    (ActorState { held, in_flight: None }, out)
                }
            },
            ActorEvent::OpFinished | ActorEvent::OpCancelled => (st, out),
        },
    }
}

/// Where the idle actor's loop takes its next event from.
#[derive(Clone, Copy, Debug, PartialEq, Eq, Structural)]
pub enum ActorSource {
    /// The priority channel.
    Prio,
    /// The ordinary command queue.
    Queue,
}

/// The idle loop prefers the priority channel: a waiting suspend or resume is taken before any
/// queued command; with nothing waiting there is nothing to take.
pub fn next_source(prio_waiting: bool, queue_waiting: bool) -> (r: Option<ActorSource>)
    ensures
        r == if prio_waiting {
            Some(ActorSource::Prio)
        } else if queue_waiting {
            Some(ActorSource::Queue)
        } else {
            None::<ActorSource>
        },
{
    if prio_waiting {
        Some(ActorSource::Prio)
    } else if queue_waiting {
        Some(ActorSource::Queue)
    } else {
        None
    }
}

/// Without a reader, every command but open, close, suspend and resume is answered "not ready";
/// suspend and resume are no-ops; and nothing but an open gives the actor a reader.
pub proof fn lemma_actor_without_reader(cmd: ActorCommand)
    ensures
        cmd != ActorCommand::Open && cmd != ActorCommand::Close && cmd != ActorCommand::Suspend
            && cmd != ActorCommand::Resume ==> action_for(false, cmd) == ActorAction::ReplyNotReady,
        (cmd == ActorCommand::Suspend || cmd == ActorCommand::Resume) ==> action_for(false, cmd)
            == ActorAction::ReplyOk,
{
}

/// The assembled daemon: a backend factory, an authorizer and a print store.
pub struct Daemon<F> {
    factory: F,
    authz: Arc<Authorizer>,
    store: Arc<Store>,
}

impl<F> Daemon<F> {
    /// The daemon's store.
    pub closed spec fn store_spec(&self) -> Store {
        *self.store
    }

    /// The daemon's backend factory.
    pub closed spec fn factory_spec(&self) -> F {
        self.factory
    }

    /// The daemon's authorizer.
    pub closed spec fn authorizer_spec(&self) -> Arc<Authorizer> {
        self.authz
    }

    /// A daemon whose store is rooted as the state directory variable's value says.
    pub fn new(factory: F, authz: Arc<Authorizer>, state_directory: Option<&str>) -> (d: Daemon<F>)
        ensures
            d.factory_spec() == factory,
            d.authorizer_spec() == authz,
            d.store_spec().root_path() == root_from(
                match state_directory {
                    Some(v) => Some(v@),
                    None => None::<Seq<char>>,
                },
            ),
    {
        Daemon { factory, authz, store: Arc::new(Store::from_state_directory(state_directory)) }
    }

    /// A daemon with an explicit print store.
    pub fn with_store(factory: F, authz: Arc<Authorizer>, store: Store) -> (d: Daemon<F>)
        ensures
            d.factory_spec() == factory,
            d.authorizer_spec() == authz,
            d.store_spec().root_path() == store.root_path(),
    {
        Daemon { factory, authz, store: Arc::new(store) }
    }

    /// The backend factory.
    pub fn factory(&self) -> (f: &F)
        ensures
            *f == self.factory_spec(),
    {
        &self.factory
    }

    /// The authorizer.
    pub fn authorizer(&self) -> (a: &Arc<Authorizer>)
        ensures
            *a == self.authorizer_spec(),
    {
        &self.authz
    }

    /// The print store.
    pub fn store(&self) -> (s: &Arc<Store>)
        ensures
            **s == self.store_spec(),
    {
        &self.store
    }
}

} // verus!
