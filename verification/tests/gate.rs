use tukituki::gate::ReaderGate;

#[test]
fn unpark_refuses_when_a_pause_is_pending() {
    let mut gate = ReaderGate::new();
    gate.request_pause();
    assert!(!gate.try_unpark());
    // Refusing still counts as parked, so a waiter isn't stranded.
    assert!(gate.is_parked());

    gate.resume();
    assert!(gate.try_unpark());
    assert!(!gate.is_parked());
}

#[test]
fn new_gate_is_open() {
    let gate = ReaderGate::new();
    assert!(!gate.is_paused());
    assert!(!gate.is_parked());
}

#[test]
fn park_then_resume() {
    let mut gate = ReaderGate::new();
    gate.request_pause();
    assert!(gate.is_paused());
    gate.park();
    assert!(gate.is_parked());
    gate.resume();
    assert!(!gate.is_paused());
}
