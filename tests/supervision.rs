use nix_user_chroot::supervisor::{ChildEvent, Supervisor, SupervisorOp, SupervisorState};

#[test]
fn normal_exit_status_is_passed_on() {
    let mut s = Supervisor::new();
    let ops = s.observe(ChildEvent::Exited(42));
    assert_eq!(ops, vec![SupervisorOp::RemoveRoot, SupervisorOp::Exit(42)]);
    assert_eq!(s.state, SupervisorState::Exited(42));
    assert!(s.is_done());
}

#[test]
fn stop_is_relayed_and_waiting_goes_on() {
    let mut s = Supervisor::new();
    let ops = s.observe(ChildEvent::Stopped);
    assert_eq!(ops, vec![SupervisorOp::StopSelf, SupervisorOp::ContinueChild]);
    assert!(!s.is_done());
    let ops = s.observe(ChildEvent::Stopped);
    assert_eq!(ops, vec![SupervisorOp::StopSelf, SupervisorOp::ContinueChild]);
    let ops = s.observe(ChildEvent::Exited(0));
    assert_eq!(ops, vec![SupervisorOp::RemoveRoot, SupervisorOp::Exit(0)]);
}

#[test]
fn fatal_signal_is_forwarded_after_cleanup() {
    let mut s = Supervisor::new();
    let ops = s.observe(ChildEvent::Signaled(15));
    assert_eq!(
        ops,
        vec![SupervisorOp::RemoveRoot, SupervisorOp::SignalSelf(15), SupervisorOp::Exit(1)]
    );
    assert_eq!(s.state, SupervisorState::Exited(1));
}

#[test]
fn anomalies_fall_back_to_status_one() {
    for ev in [ChildEvent::Unexpected, ChildEvent::WaitFailed] {
        let mut s = Supervisor::new();
        let ops = s.observe(ev);
        assert_eq!(ops, vec![SupervisorOp::RemoveRoot, SupervisorOp::Exit(1)]);
        assert!(s.is_done());
    }
}
