//! The parent's side: reacting to what `waitpid` reports of the child until
//! the child has terminated, relaying job control, then removing the new
//! root directory and exiting with the child's status.
use vstd::prelude::*;

verus! {

/// The status the supervisor exits with when the child's own is not known.
pub const FALLBACK_STATUS: i32 = 1;

/// What waiting for the child reported.
#[derive(Clone, Copy, Debug, PartialEq, Eq, Structural)]
pub enum ChildEvent {
    /// The child exited normally with this status.
    Exited(i32),
    /// The child was stopped by a stop signal.
    Stopped,
    /// The child was terminated by this signal.
    Signaled(i32),
    /// Waiting reported something else.
    Unexpected,
    /// The wait call itself failed.
    WaitFailed,
}

/// One thing for the supervisor to do, in the order given.
#[derive(Clone, Copy, Debug, PartialEq, Eq, Structural)]
pub enum SupervisorOp {
    /// Stop the supervisor itself; this returns once it is continued.
    StopSelf,
    /// Send the child the continue signal.
    ContinueChild,
    /// Send the supervisor itself this signal.
    SignalSelf(i32),
    /// Remove the new root directory with everything in it.
    RemoveRoot,
    /// Exit the supervisor with this status.
    Exit(i32),
}

/// Whether the supervisor still waits for the child, or is done and exits
/// with the given status.
#[derive(Clone, Copy, Debug, PartialEq, Eq, Structural)]
pub enum SupervisorState {
    Running,
    Exited(i32),
}

/// Whether an event means that the child is gone (or can no longer be
/// waited for).
pub open spec fn ends_child(ev: ChildEvent) -> bool {
    !(ev is Stopped)
}

/// The state after an event seen while running.
pub open spec fn next_state(ev: ChildEvent) -> SupervisorState {
    match ev {
        ChildEvent::Stopped => SupervisorState::Running,
        ChildEvent::Exited(n) => SupervisorState::Exited(n),
        _ => SupervisorState::Exited(FALLBACK_STATUS),
    }
}

/// What the supervisor does on an event seen while running. The root
/// directory is removed before anything that may end the supervisor, so a
/// forwarded fatal signal cannot leave it behind.
pub open spec fn reaction(ev: ChildEvent) -> Seq<SupervisorOp> {
    match ev {
        ChildEvent::Stopped => seq![SupervisorOp::StopSelf, SupervisorOp::ContinueChild],
        ChildEvent::Exited(n) => seq![SupervisorOp::RemoveRoot, SupervisorOp::Exit(n)],
        ChildEvent::Signaled(sig) => seq![
            SupervisorOp::RemoveRoot,
            SupervisorOp::SignalSelf(sig),
            SupervisorOp::Exit(FALLBACK_STATUS),
        ],
        _ => seq![SupervisorOp::RemoveRoot, SupervisorOp::Exit(FALLBACK_STATUS)],
    }
}

/// The state after a sequence of events, from the start.
pub open spec fn trace_state(es: Seq<ChildEvent>) -> SupervisorState
    decreases es.len(),
{
    if es.len() == 0 {
        SupervisorState::Running
    } else {
        match trace_state(es.drop_last()) {
            SupervisorState::Running => next_state(es.last()),
            done => done,
        }
    }
}

/// Everything the supervisor does over a sequence of events, from the
/// start; events after it is done have no effect.
pub open spec fn trace_ops(es: Seq<ChildEvent>) -> Seq<SupervisorOp>
    decreases es.len(),
{
    if es.len() == 0 {
        Seq::empty()
    } else {
        trace_ops(es.drop_last()) + if trace_state(es.drop_last()) is Running {
            reaction(es.last())
        } else {
            Seq::empty()
        }
    }
}

/// Whether an operation may end the supervisor process.
pub open spec fn may_end(op: SupervisorOp) -> bool {
    op is SignalSelf || op is Exit
}

/// The supervisor of one child.
pub struct Supervisor {
    pub state: SupervisorState,
}

impl Supervisor {
    /// A supervisor of a child that was just started.
    pub fn new() -> (r: Self)
        ensures
            r.state == SupervisorState::Running,
    {
        Supervisor { state: SupervisorState::Running }
    }

    /// Whether the child has terminated and the supervisor is done.
    pub fn is_done(&self) -> (r: bool)
        ensures
            r == (self.state is Exited),
    {
        match self.state {
            SupervisorState::Running => false,
            SupervisorState::Exited(_) => true,
        }
    }

    /// Takes in one event of the running child and says what to do about it.
    pub fn observe(&mut self, ev: ChildEvent) -> (r: Vec<SupervisorOp>)
        requires
            old(self).state == SupervisorState::Running,
        ensures
            final(self).state == next_state(ev),
            r@ == reaction(ev),
    {
        match ev {
            ChildEvent::Stopped => vec![SupervisorOp::StopSelf, SupervisorOp::ContinueChild],
            ChildEvent::Exited(n) => {
                self.state = SupervisorState::Exited(n);
                vec![SupervisorOp::RemoveRoot, SupervisorOp::Exit(n)]
            },
            ChildEvent::Signaled(sig) => {
                self.state = SupervisorState::Exited(FALLBACK_STATUS);
                vec![
                    SupervisorOp::RemoveRoot,
                    SupervisorOp::SignalSelf(sig),
                    SupervisorOp::Exit(FALLBACK_STATUS),
                ]
            },
            _ => {
                self.state = SupervisorState::Exited(FALLBACK_STATUS);
                vec![SupervisorOp::RemoveRoot, SupervisorOp::Exit(FALLBACK_STATUS)]
            },
        }
    }
}

/// Over any sequence of events: the supervisor keeps waiting exactly while
/// the child has only been stopped, and then it has done nothing but relay
/// each stop, stopping itself and then continuing the child. Once any event
/// ends the child, the root directory has been removed, and removed before
/// every operation that may end the supervisor.
pub proof fn lemma_trace(es: Seq<ChildEvent>)
    ensures
        (trace_state(es) is Running) == (forall|i: int| 0 <= i < es.len() ==> !ends_child(#[trigger] es[i])),
        trace_state(es) is Running ==> {
            &&& trace_ops(es).len() == 2 * es.len()
            &&& forall|j: int| 0 <= j < es.len() ==> trace_ops(es)[2 * j] == SupervisorOp::StopSelf
                && #[trigger] trace_ops(es)[2 * j + 1] == SupervisorOp::ContinueChild
        },
        trace_state(es) is Exited ==> {
            &&& trace_ops(es).contains(SupervisorOp::RemoveRoot)
            &&& forall|k: int|
                0 <= k < trace_ops(es).len() && may_end(#[trigger] trace_ops(es)[k]) ==> exists|
                    j: int,
                | 0 <= j < k && trace_ops(es)[j] == SupervisorOp::RemoveRoot
        },
    decreases es.len(),
{
    if es.len() > 0 {
        let pre = es.drop_last();
        lemma_trace(pre);
        let t0 = trace_ops(pre);
        let t = trace_ops(es);
        assert forall|i: int| 0 <= i < pre.len() implies pre[i] == es[i] by {}
        if trace_state(pre) is Running {
            let r = reaction(es.last());
            assert(t == t0 + r);
            if es.last() is Stopped {
                assert forall|j: int| 0 <= j < es.len() implies t[2 * j] == SupervisorOp::StopSelf
                    && #[trigger] t[2 * j + 1] == SupervisorOp::ContinueChild by {
                    if j < pre.len() {
                        assert(t[2 * j] == t0[2 * j]);
                        assert(t[2 * j + 1] == t0[2 * j + 1]);
                    }
                }
            } else {
                assert(!ends_child(es[es.len() - 1]) == false);
                assert(t[t0.len() as int] == SupervisorOp::RemoveRoot);
                assert forall|k: int| 0 <= k < t.len() && may_end(#[trigger] t[k]) implies exists|
                    j: int,
                | 0 <= j < k && t[j] == SupervisorOp::RemoveRoot by {
                    if k < t0.len() {
                        let j = k / 2;
                        assert(t0[2 * j] == SupervisorOp::StopSelf && t0[2 * j + 1]
                            == SupervisorOp::ContinueChild);
                        assert(k == 2 * j || k == 2 * j + 1);
                        assert(t[k] == t0[k]);
                    } else {
                        assert(t[k] == r[k - t0.len()]);
                        assert(k != t0.len());
                        assert(t[t0.len() as int] == SupervisorOp::RemoveRoot);
                    }
                }
            }
        } else {
            assert(t =~= t0);
            let i = choose|i: int| 0 <= i < pre.len() && ends_child(#[trigger] pre[i]);
            assert(es[i] == pre[i]);
        }
    }
}

/// The root directory is removed whenever the child terminates: after any
/// sequence of events of which one ends the child, the supervisor is done
/// and has removed the root directory before anything that may end it.
pub proof fn lemma_cleanup_on_termination(es: Seq<ChildEvent>, i: int)
    requires
        0 <= i < es.len(),
        ends_child(es[i]),
    ensures
        trace_state(es) is Exited,
        trace_ops(es).contains(SupervisorOp::RemoveRoot),
        forall|k: int|
            0 <= k < trace_ops(es).len() && may_end(#[trigger] trace_ops(es)[k]) ==> exists|j: int|
                0 <= j < k && trace_ops(es)[j] == SupervisorOp::RemoveRoot,
{
    lemma_trace(es);
}

/// The exit status is passed on: when the child, after any number of
/// stops, exits normally with status `n`, the supervisor is done with status
/// `n`, its last operation is to exit with `n`, and it exits with no other
/// status.
pub proof fn lemma_exit_status(es: Seq<ChildEvent>, n: i32)
    requires
        es.len() > 0,
        forall|i: int| 0 <= i < es.len() - 1 ==> #[trigger] es[i] == ChildEvent::Stopped,
        es.last() == ChildEvent::Exited(n),
    ensures
        trace_state(es) == SupervisorState::Exited(n),
        trace_ops(es).last() == SupervisorOp::Exit(n),
        forall|k: int|
            0 <= k < trace_ops(es).len() && (#[trigger] trace_ops(es)[k]) is Exit ==> trace_ops(es)[k]
                == SupervisorOp::Exit(n),
{
    let pre = es.drop_last();
    assert forall|i: int| 0 <= i < pre.len() implies !ends_child(#[trigger] pre[i]) by {
        assert(pre[i] == es[i]);
    }
    lemma_trace(pre);
    let t0 = trace_ops(pre);
    let t = trace_ops(es);
    assert(t == t0 + reaction(es.last()));
    assert forall|k: int| 0 <= k < t.len() && (#[trigger] t[k]) is Exit implies t[k]
        == SupervisorOp::Exit(n) by {
        if k < t0.len() {
            let j = k / 2;
            assert(t0[2 * j] == SupervisorOp::StopSelf && t0[2 * j + 1] == SupervisorOp::ContinueChild);
            assert(k == 2 * j || k == 2 * j + 1);
            assert(t[k] == t0[k]);
        } else {
            assert(t[k] == reaction(es.last())[k - t0.len()]);
        }
    }
}

/// Job control is relayed: on a stop of the child, the supervisor stops
/// itself and, once continued, continues the child, and keeps waiting; so
/// after any number of stops each one is answered in that order and no
/// continue is lost.
pub proof fn lemma_stop_relayed(es: Seq<ChildEvent>)
    requires
        forall|i: int| 0 <= i < es.len() ==> #[trigger] es[i] == ChildEvent::Stopped,
    ensures
        reaction(ChildEvent::Stopped) == seq![SupervisorOp::StopSelf, SupervisorOp::ContinueChild],
        next_state(ChildEvent::Stopped) == SupervisorState::Running,
        trace_state(es) == SupervisorState::Running,
        trace_ops(es).len() == 2 * es.len(),
        forall|j: int|
            0 <= j < es.len() ==> trace_ops(es)[2 * j] == SupervisorOp::StopSelf
                && #[trigger] trace_ops(es)[2 * j + 1] == SupervisorOp::ContinueChild,
{
    lemma_trace(es);
}

} // verus!
