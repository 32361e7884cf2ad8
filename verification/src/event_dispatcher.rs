//! The event distribution channel: a bounded, lossy, multi-subscriber
//! broadcast. Publishing never blocks and never fails observably, whatever
//! the number or speed of the subscribers; a subscriber that falls more than
//! the backlog capacity behind silently loses its oldest unread events.
//!
//! The dispatcher carries a ghost log of every event published through it,
//! so that the engine's contracts can speak of the exact event trace of a
//! round.

use vstd::prelude::*;
use crate::game_data::{Card, WinState};
use tokio::sync::broadcast;

verus! {

/// An observable transition of the round, published on the event channel.
/// `Error` is reserved for external diagnostic use; the engine itself never
/// produces it.
#[derive(Debug, Clone)]
pub enum GameEvent {
    PlayerHit(Card),
    PlayerStand,
    PlayerSplit(Card),
    PlayerInsure,
    DealerHit(Card),
    DealerStand,
    RoundResult(WinState),
    Error(String),
}

#[verifier::external_type_specification]
#[verifier::external_body]
#[verifier::reject_recursive_types(T)]
pub struct ExSender<T>(broadcast::Sender<T>);

#[verifier::external_type_specification]
#[verifier::external_body]
#[verifier::reject_recursive_types(T)]
pub struct ExReceiver<T>(broadcast::Receiver<T>);

/// How many unread events a subscriber may accumulate before its oldest
/// unread events are dropped.
pub const BACKLOG_CAPACITY: usize = 100;

/// Relies on tokio::sync::broadcast::channel: creates a channel that keeps
/// up to `capacity` events for each receiver. It panics only when the
/// capacity is zero or exceeds `usize::MAX / 2`, which the precondition
/// rules out.
#[verifier::external_body]
fn new_sender(capacity: usize) -> broadcast::Sender<GameEvent>
    requires
        1 <= capacity <= usize::MAX / 2,
{
    let (sender, _) = broadcast::channel(capacity);
    sender
}

/// Relies on tokio::sync::broadcast::Sender::subscribe: returns a fresh
/// receive handle that observes every event sent after the call, with no
/// replay of past events.
#[verifier::external_body]
fn subscribe_to(sender: &broadcast::Sender<GameEvent>) -> broadcast::Receiver<GameEvent> {
    sender.subscribe()
}

/// Relies on tokio::sync::broadcast::Sender::send: enqueues the event for
/// every active receiver without blocking, and reports—rather than
/// panics—when no receiver exists. The count of reached receivers is
/// machine-dependent, so nothing is promised of it.
#[verifier::external_body]
fn send_event(sender: &broadcast::Sender<GameEvent>, event: GameEvent) -> (reached: usize) {
    match sender.send(event) {
        Ok(n) => n,
        Err(_) => 0,
    }
}

/// The publish side of the event channel, together with a ghost log of
/// everything published through it.
pub struct EventDispatcher {
    sender: broadcast::Sender<GameEvent>,
    log: Ghost<Seq<GameEvent>>,
}

impl EventDispatcher {
    /// Every event published through this dispatcher, oldest first.
    pub closed spec fn events(&self) -> Seq<GameEvent> {
        self.log@
    }

    /// Creates a dispatcher with the default backlog capacity and no
    /// published events.
    pub fn new() -> (d: Self)
        ensures
            d.events() == Seq::<GameEvent>::empty(),
    {
        EventDispatcher { sender: new_sender(BACKLOG_CAPACITY), log: Ghost(Seq::empty()) }
    }

    /// Returns an independent receive handle that observes every event
    /// published after this call.
    pub fn subscribe(&self) -> broadcast::Receiver<GameEvent> {
        subscribe_to(&self.sender)
    }

    /// Publishes one event. Publishing is fire-and-forget: it never blocks,
    /// and the absence of subscribers is not an error.
    pub fn dispatch(&mut self, event: GameEvent)
        ensures
            final(self).events() == old(self).events().push(event),
    {
        self.log = Ghost(self.log@.push(event));
        let _ = send_event(&self.sender, event);
    }
}

} // verus!
