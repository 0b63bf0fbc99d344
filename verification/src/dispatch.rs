use vstd::prelude::*;

verus! {

/// One user gesture, consumed exactly once by the dispatcher.
#[derive(Clone, Copy, Debug, PartialEq, Eq, Structural)]
pub enum Action {
    Quit,
    SendPacket,
    ShowConfig,
}

/// The dispatcher's resting states. Work triggered by an action is carried
/// out to completion inside a single `step` call, so the transient
/// processing phase never appears as a state of its own.
#[derive(Clone, Copy, Debug, PartialEq, Eq, Structural)]
pub enum DispatcherState {
    Idle,
    Terminated,
}

/// What the caller of `step` must carry out before offering the next
/// action: broadcast a wake packet, open the configuration editor, shut the
/// loop down, or nothing (the action arrived after termination).
#[derive(Clone, Copy, Debug, PartialEq, Eq, Structural)]
pub enum Effect {
    Broadcast,
    EditConfig,
    Shutdown,
    Nothing,
}

/// The event loop's decision core. The surrounding loop blocks on the
/// single-slot action channel, feeds each action through `step`, and
/// performs the returned effect synchronously before waiting again, so at
/// most one send and at most one configuration access is ever in flight.
pub struct Dispatcher {
    pub state: DispatcherState,
}

impl Dispatcher {
    pub fn new() -> (d: Dispatcher)
        ensures
            d.state == DispatcherState::Idle,
    {
        Dispatcher { state: DispatcherState::Idle }
    }

    /// Consume one action: while idle, every action is honoured and `Quit`
    /// terminates the dispatcher; after termination nothing is ever
    /// processed again.
    pub fn step(&mut self, action: Action) -> (e: Effect)
        ensures
            old(self).state == DispatcherState::Idle && action == Action::SendPacket
                ==> final(self).state == DispatcherState::Idle && e == Effect::Broadcast,
            old(self).state == DispatcherState::Idle && action == Action::ShowConfig
                ==> final(self).state == DispatcherState::Idle && e == Effect::EditConfig,
            old(self).state == DispatcherState::Idle && action == Action::Quit
                ==> final(self).state == DispatcherState::Terminated && e == Effect::Shutdown,
            old(self).state == DispatcherState::Terminated
                ==> final(self).state == DispatcherState::Terminated && e == Effect::Nothing,
    {
        match self.state {
            DispatcherState::Idle => match action {
                Action::SendPacket => Effect::Broadcast,
                Action::ShowConfig => Effect::EditConfig,
                Action::Quit => {
                    self.state = DispatcherState::Terminated;
                    Effect::Shutdown
                },
            },
            DispatcherState::Terminated => Effect::Nothing,
        }
    }
}

/// The inbound action channel's capacity model: a single slot. A producer's
/// offer lands only in an empty slot; a second action offered while one is
/// still pending is rejected outright rather than queued behind it, so the
/// dispatcher never falls behind by more than one action.
pub struct ActionSlot {
    pub pending: Option<Action>,
}

/// Whether a slot in state `s` accepts an offered action: only an empty
/// slot does.
pub open spec fn offer_accepted(s: ActionSlot, action: Action) -> bool {
    s.pending is None
}

/// The slot after an action is offered: filled if it was empty, untouched
/// otherwise.
pub open spec fn slot_after_offer(s: ActionSlot, action: Action) -> ActionSlot {
    if s.pending is None {
        ActionSlot { pending: Some(action) }
    } else {
        s
    }
}

impl ActionSlot {
    pub fn new() -> (s: ActionSlot)
        ensures
            s.pending is None,
    {
        ActionSlot { pending: None }
    }

    /// A producer's attempt to hand an action to the dispatcher. It is
    /// accepted exactly when the slot is empty; otherwise the slot is left
    /// as it was and the producer is told so.
    pub fn offer(&mut self, action: Action) -> (accepted: bool)
        ensures
            *final(self) == slot_after_offer(*old(self), action),
            accepted == offer_accepted(*old(self), action),
    {
        match self.pending {
            None => {
                self.pending = Some(action);
                true
            },
            Some(_) => false,
        }
    }

    /// The dispatcher's side: drain the slot, returning the pending action
    /// if there was one. The slot is empty afterwards.
    pub fn take(&mut self) -> (a: Option<Action>)
        ensures
            a == old(self).pending,
            final(self).pending is None,
    {
        let taken = self.pending;
        self.pending = None;
        taken
    }
}

/// At most one action is ever in flight between the producers and the
/// dispatcher. Starting from an empty slot, a first offered action is
/// accepted and becomes the single pending one; any action offered while it
/// is still pending — for instance a second send issued while the first is
/// being processed — is rejected and leaves the pending action untouched,
/// so actions are dropped rather than queued and two sends can never pile
/// up.
pub proof fn lemma_no_second_action(empty: ActionSlot, first: Action, second: Action)
    requires
        empty.pending is None,
    ensures
        offer_accepted(empty, first),
        slot_after_offer(empty, first).pending == Some(first),
        !offer_accepted(slot_after_offer(empty, first), second),
        slot_after_offer(slot_after_offer(empty, first), second).pending == Some(first),
{
}

} // verus!
