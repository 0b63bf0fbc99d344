use magic_packet::dispatch::{Action, ActionSlot, Dispatcher, DispatcherState, Effect};

#[test]
fn idle_send_packet_broadcasts_and_stays_idle() {
    let mut d = Dispatcher::new();
    assert_eq!(d.state, DispatcherState::Idle);
    let e = d.step(Action::SendPacket);
    assert_eq!(e, Effect::Broadcast);
    assert_eq!(d.state, DispatcherState::Idle);
}

#[test]
fn idle_show_config_opens_editor_and_stays_idle() {
    let mut d = Dispatcher::new();
    let e = d.step(Action::ShowConfig);
    assert_eq!(e, Effect::EditConfig);
    assert_eq!(d.state, DispatcherState::Idle);
}

#[test]
fn quit_terminates_and_later_actions_are_ignored() {
    let mut d = Dispatcher::new();
    let e = d.step(Action::Quit);
    assert_eq!(e, Effect::Shutdown);
    assert_eq!(d.state, DispatcherState::Terminated);
    assert_eq!(d.step(Action::SendPacket), Effect::Nothing);
    assert_eq!(d.step(Action::ShowConfig), Effect::Nothing);
    assert_eq!(d.step(Action::Quit), Effect::Nothing);
    assert_eq!(d.state, DispatcherState::Terminated);
}

#[test]
fn slot_accepts_only_one_pending_action() {
    let mut slot = ActionSlot::new();
    assert!(slot.offer(Action::SendPacket));
    // A second send while one is pending is dropped, not queued.
    assert!(!slot.offer(Action::SendPacket));
    assert!(!slot.offer(Action::Quit));
    assert_eq!(slot.take(), Some(Action::SendPacket));
    assert_eq!(slot.take(), None);
}

#[test]
fn slot_is_usable_again_after_draining() {
    let mut slot = ActionSlot::new();
    assert!(slot.offer(Action::ShowConfig));
    assert_eq!(slot.take(), Some(Action::ShowConfig));
    assert!(slot.offer(Action::Quit));
    assert_eq!(slot.take(), Some(Action::Quit));
}

#[test]
fn one_send_at_a_time_end_to_end() {
    // A producer fires twice while the dispatcher is busy: only one send
    // is ever observed per drain, never two.
    let mut slot = ActionSlot::new();
    let mut d = Dispatcher::new();
    assert!(slot.offer(Action::SendPacket));
    assert!(!slot.offer(Action::SendPacket));
    let mut sends: usize = 0;
    while let Some(action) = slot.take() {
        if d.step(action) == Effect::Broadcast {
            sends += 1;
        }
    }
    assert_eq!(sends, 1);
}
