//! The connection supervisor: the one owner of the connection lifecycle.
//!
//! The supervisor is a state machine from events (connect outcome, auth
//! outcome, session termination, timer expiry, an outbound batch becoming
//! ready) to actions (connect, send the auth frame, run the session, write
//! a data frame, back off). The caller performs each action against the
//! transport and feeds the outcome back in; the machine itself never
//! touches the network, which is what makes its lifecycle claims provable:
//! the backoff schedule doubles from one time unit up to a cap of sixty
//! and resets only on an authenticated cycle, and no data frame is ever
//! written on a connection before that connection's auth acknowledgment.

use vstd::prelude::*;

use vstd::arithmetic::power2::lemma_pow2_unfold;
use vstd::arithmetic::power2::pow2;

verus! {

/// Where the supervisor stands in the connection lifecycle. Only the
/// supervisor advances it; everyone else may only read it.
#[derive(PartialEq, Eq, Structural, Clone, Copy, Debug)]
pub enum ConnectionState {
    /// No transport; waiting out the backoff delay
    Disconnected,
    /// A transport connect is in flight
    Connecting,
    /// Connected; the auth frame is sent and its reply awaited
    Authenticating,
    /// Authenticated; the session is running
    Connected,
}

/// Why a running session ended.
#[derive(PartialEq, Eq, Structural, Clone, Copy, Debug)]
pub enum TerminationReason {
    /// A data frame could not be written
    SendFailed,
    /// The transport failed while reading
    ReadFailed,
    /// The peer closed the connection
    PeerClosed,
}

/// What the outside world reports to the supervisor.
#[derive(PartialEq, Eq, Structural, Clone, Copy, Debug)]
pub enum SupervisorEvent {
    /// The backoff delay has been waited out
    BackoffElapsed,
    /// The transport connect succeeded
    ConnectSucceeded,
    /// The transport connect failed
    ConnectFailed,
    /// The auth reply arrived and reports success
    AuthAccepted,
    /// The auth reply was missing, malformed or unsuccessful
    AuthRejected,
    /// The bounded wait for the auth reply ran out
    AuthTimedOut,
    /// The running session terminated
    SessionEnded { reason: TerminationReason },
    /// A reading batch is ready to go out
    OutboundBatch,
}

/// What the supervisor asks the outside world to do next.
#[derive(PartialEq, Eq, Structural, Clone, Copy, Debug)]
pub enum SupervisorAction {
    /// Open a transport to the server
    Connect,
    /// Write the auth frame and await one reply with a bounded wait
    SendAuth,
    /// Hand the transport to the session
    RunSession,
    /// Write the ready batch as a data frame
    WriteData,
    /// Wait `delay` time units, then report `BackoffElapsed`
    Backoff { delay: u64 },
}

/// The next backoff delay: doubled, capped at sixty time units.
pub open spec fn double_capped(d: u64) -> u64 {
    if 2 * d >= 60 {
        60u64
    } else {
        (2 * d) as u64
    }
}

/// One step of the lifecycle machine: from a state, the current backoff
/// delay and an event to the next state, the next delay and the action to
/// perform. An event that makes no sense in the current state is ignored.
pub open spec fn spec_step(st: ConnectionState, delay: u64, ev: SupervisorEvent) -> (
    ConnectionState,
    u64,
    Option<SupervisorAction>,
) {
    match (st, ev) {
        (ConnectionState::Disconnected, SupervisorEvent::BackoffElapsed) => (
            ConnectionState::Connecting,
            delay,
            Some(SupervisorAction::Connect),
        ),
        (ConnectionState::Connecting, SupervisorEvent::ConnectSucceeded) => (
            ConnectionState::Authenticating,
            delay,
            Some(SupervisorAction::SendAuth),
        ),
        (ConnectionState::Connecting, SupervisorEvent::ConnectFailed) => (
            ConnectionState::Disconnected,
            double_capped(delay),
            Some(SupervisorAction::Backoff { delay }),
        ),
        (ConnectionState::Authenticating, SupervisorEvent::AuthAccepted) => (
            ConnectionState::Connected,
            1u64,
            Some(SupervisorAction::RunSession),
        ),
        (ConnectionState::Authenticating, SupervisorEvent::AuthRejected) => (
            ConnectionState::Disconnected,
            double_capped(delay),
            Some(SupervisorAction::Backoff { delay }),
        ),
        (ConnectionState::Authenticating, SupervisorEvent::AuthTimedOut) => (
            ConnectionState::Disconnected,
            double_capped(delay),
            Some(SupervisorAction::Backoff { delay }),
        ),
        (ConnectionState::Connected, SupervisorEvent::SessionEnded { .. }) => (
            ConnectionState::Disconnected,
            double_capped(delay),
            Some(SupervisorAction::Backoff { delay }),
        ),
        (ConnectionState::Connected, SupervisorEvent::OutboundBatch) => (
            ConnectionState::Connected,
            delay,
            Some(SupervisorAction::WriteData),
        ),
        _ => (st, delay, None),
    }
}

/// The supervisor: lifecycle state plus the next backoff delay.
pub struct Supervisor {
    state: ConnectionState,
    delay: u64,
}

impl Supervisor {
    /// The lifecycle state.
    pub closed spec fn state_spec(&self) -> ConnectionState {
        self.state
    }

    /// The delay the next backoff will carry, in time units.
    pub closed spec fn delay_spec(&self) -> u64 {
        self.delay
    }

    /// The delay stays within the schedule's floor and cap.
    pub open spec fn wf(&self) -> bool {
        1 <= self.delay_spec() <= 60
    }

    /// A fresh supervisor: disconnected, backoff at its floor. Feed it
    /// `BackoffElapsed` to start the first connect at once.
    pub fn new() -> (s: Supervisor)
        ensures
            s.wf(),
            s.state_spec() == ConnectionState::Disconnected,
            s.delay_spec() == 1,
    {
        Supervisor { state: ConnectionState::Disconnected, delay: 1 }
    }

    /// The lifecycle state, for read-only observers.
    pub fn connection_state(&self) -> (st: ConnectionState)
        ensures
            st == self.state_spec(),
    {
        self.state
    }

    /// Advances the machine by one event and hands back the action to
    /// perform, exactly as `spec_step` says.
    pub fn on_event(&mut self, ev: SupervisorEvent) -> (a: Option<SupervisorAction>)
        requires
            old(self).wf(),
        ensures
            final(self).wf(),
            (final(self).state_spec(), final(self).delay_spec(), a) == spec_step(
                old(self).state_spec(),
                old(self).delay_spec(),
                ev,
            ),
    {
        match (self.state, ev) {
            (ConnectionState::Disconnected, SupervisorEvent::BackoffElapsed) => {
                self.state = ConnectionState::Connecting;
                Some(SupervisorAction::Connect)
            },
            (ConnectionState::Connecting, SupervisorEvent::ConnectSucceeded) => {
                self.state = ConnectionState::Authenticating;
                Some(SupervisorAction::SendAuth)
            },
            (ConnectionState::Connecting, SupervisorEvent::ConnectFailed) => {
                self.state = ConnectionState::Disconnected;
                Some(SupervisorAction::Backoff { delay: self.bump_delay() })
            },
            (ConnectionState::Authenticating, SupervisorEvent::AuthAccepted) => {
                self.state = ConnectionState::Connected;
                self.delay = 1;
                Some(SupervisorAction::RunSession)
            },
            (ConnectionState::Authenticating, SupervisorEvent::AuthRejected) => {
                self.state = ConnectionState::Disconnected;
                Some(SupervisorAction::Backoff { delay: self.bump_delay() })
            },
            (ConnectionState::Authenticating, SupervisorEvent::AuthTimedOut) => {
                self.state = ConnectionState::Disconnected;
                Some(SupervisorAction::Backoff { delay: self.bump_delay() })
            },
            (ConnectionState::Connected, SupervisorEvent::SessionEnded { .. }) => {
                self.state = ConnectionState::Disconnected;
                Some(SupervisorAction::Backoff { delay: self.bump_delay() })
            },
            (ConnectionState::Connected, SupervisorEvent::OutboundBatch) => {
                Some(SupervisorAction::WriteData)
            },
            _ => None,
        }
    }

    /// Doubles the stored delay (capped) and hands back the delay that was
    /// current before the failure, for the backoff now due.
    fn bump_delay(&mut self) -> (d: u64)
        requires
            old(self).wf(),
        ensures
            final(self).wf(),
            d == old(self).delay_spec(),
            final(self).delay_spec() == double_capped(old(self).delay_spec()),
            final(self).state_spec() == old(self).state_spec(),
    {
        let d = self.delay;
        self.delay = if d >= 30 {
            60
        } else {
            d * 2
        };
        d
    }
}

/// The state and delay the machine reaches after a whole event sequence,
/// starting from a fresh supervisor.
pub open spec fn run_state(evs: Seq<SupervisorEvent>) -> (ConnectionState, u64)
    decreases evs.len(),
{
    if evs.len() == 0 {
        (ConnectionState::Disconnected, 1u64)
    } else {
        let prev = run_state(evs.drop_last());
        let next = spec_step(prev.0, prev.1, evs.last());
        (next.0, next.1)
    }
}

/// The action the machine emits at position `k` of an event sequence.
pub open spec fn action_at(evs: Seq<SupervisorEvent>, k: int) -> Option<SupervisorAction>
    recommends
        0 <= k < evs.len(),
{
    let prev = run_state(evs.take(k));
    spec_step(prev.0, prev.1, evs[k]).2
}

/// The events of `n` consecutive failed connect cycles: each cycle waits
/// out the backoff and then fails to connect.
pub open spec fn failure_events(n: nat) -> Seq<SupervisorEvent>
    decreases n,
{
    if n == 0 {
        Seq::empty()
    } else {
        failure_events((n - 1) as nat) + seq![
            SupervisorEvent::BackoffElapsed,
            SupervisorEvent::ConnectFailed,
        ]
    }
}

/// Two to the `i`, capped at sixty.
pub open spec fn capped_pow2(i: nat) -> u64 {
    if pow2(i) >= 60 {
        60u64
    } else {
        pow2(i) as u64
    }
}

/// Doubling a capped power of two gives the next capped power of two.
proof fn lemma_capped_pow2_step(i: nat)
    requires
        i > 0,
    ensures
        capped_pow2(i) == double_capped(capped_pow2((i - 1) as nat)),
{
    lemma_pow2_unfold(i);
}

/// The backoff schedule. After `n` consecutive failed connect cycles from
/// a fresh supervisor, the `k`-th backoff (counting from zero) carried a
/// delay of two to the `k` time units, capped at sixty: the delays read
/// one, two, four, and so on. The machine ends disconnected with the next
/// delay already doubled.
pub proof fn lemma_backoff_schedule(n: nat)
    ensures
        failure_events(n).len() == 2 * n,
        run_state(failure_events(n)).0 == ConnectionState::Disconnected,
        run_state(failure_events(n)).1 == capped_pow2(n),
        forall|i: int|
            0 <= i < 2 * n && i % 2 == 1 ==> #[trigger] action_at(failure_events(n), i) == Some(
                SupervisorAction::Backoff { delay: capped_pow2((i / 2) as nat) },
            ),
    decreases n,
{
    if n == 0 {
        assert(pow2(0) == 1) by {
            vstd::arithmetic::power2::lemma2_to64();
        }
    } else {
        let m = (n - 1) as nat;
        lemma_backoff_schedule(m);
        lemma_capped_pow2_step(n);
        let prev = failure_events(m);
        let evs = failure_events(n);
        let tail = seq![SupervisorEvent::BackoffElapsed, SupervisorEvent::ConnectFailed];
        assert(evs == prev + tail);
        assert(evs.drop_last() =~= prev + seq![SupervisorEvent::BackoffElapsed]);
        assert(evs.drop_last().drop_last() =~= prev);
        assert(evs.drop_last().last() == SupervisorEvent::BackoffElapsed);
        assert(evs.last() == SupervisorEvent::ConnectFailed);
        assert(run_state(evs.drop_last()) == (ConnectionState::Connecting, capped_pow2(m)));
        assert(run_state(evs).0 == ConnectionState::Disconnected);
        assert(run_state(evs).1 == double_capped(capped_pow2(m)));
        assert forall|i: int| 0 <= i < 2 * n && i % 2 == 1 implies #[trigger] action_at(evs, i)
            == Some(SupervisorAction::Backoff { delay: capped_pow2((i / 2) as nat) }) by {
            let k = i / 2;
            if k < m {
                assert(evs.take(i) =~= prev.take(i));
                assert(evs[i] == prev[i]);
                assert(action_at(prev, i) == Some(
                    SupervisorAction::Backoff { delay: capped_pow2(k as nat) },
                ));
            } else {
                assert(k == m);
                assert(evs.take(i) =~= prev + seq![SupervisorEvent::BackoffElapsed]);
                assert(run_state(evs.take(i)) == (ConnectionState::Connecting, capped_pow2(m)));
                assert(evs[i] == SupervisorEvent::ConnectFailed);
            }
        }
    }
}

/// An auth acknowledgment arrived and the connection it arrived on is
/// still the current one: no session has ended since.
pub open spec fn auth_ack_live(evs: Seq<SupervisorEvent>) -> bool {
    exists|j: int|
        0 <= j < evs.len() && evs[j] == SupervisorEvent::AuthAccepted && (forall|m: int|
            j < m < evs.len() ==> !(evs[m] is SessionEnded))
}

/// A machine that stands in `Connected` got there through an auth
/// acknowledgment on the connection it still holds.
proof fn lemma_connected_implies_auth_ack(evs: Seq<SupervisorEvent>)
    requires
        run_state(evs).0 == ConnectionState::Connected,
    ensures
        auth_ack_live(evs),
    decreases evs.len(),
{
    let prev = evs.drop_last();
    let st0 = run_state(prev).0;
    if st0 == ConnectionState::Authenticating && evs.last() == SupervisorEvent::AuthAccepted {
        let j = evs.len() - 1;
        assert(evs[j] == SupervisorEvent::AuthAccepted && (forall|m: int|
            j < m < evs.len() ==> !(evs[m] is SessionEnded)));
    } else {
        assert(st0 == ConnectionState::Connected && !(evs.last() is SessionEnded));
        lemma_connected_implies_auth_ack(prev);
        let j = choose|j: int|
            0 <= j < prev.len() && prev[j] == SupervisorEvent::AuthAccepted && (forall|m: int|
                j < m < prev.len() ==> !(prev[m] is SessionEnded));
        assert(evs[j] == prev[j]);
        assert forall|m: int| j < m < evs.len() implies !(evs[m] is SessionEnded) by {
            if m < evs.len() - 1 {
                assert(evs[m] == prev[m]);
                assert(!(prev[m] is SessionEnded));
            } else {
                assert(evs[m] == evs.last());
            }
        }
        assert(evs[j] == SupervisorEvent::AuthAccepted && (forall|m: int|
            j < m < evs.len() ==> !(evs[m] is SessionEnded)));
    }
}

/// No data frame before the auth acknowledgment. Whenever the machine,
/// run from a fresh supervisor over any event sequence, emits `WriteData`
/// at position `k`, an `AuthAccepted` stands somewhere before `k` with no
/// `SessionEnded` between the two: the data frame goes out on a connection
/// whose auth acknowledgment has arrived.
pub proof fn lemma_no_data_before_auth(evs: Seq<SupervisorEvent>, k: int)
    requires
        0 <= k < evs.len(),
        action_at(evs, k) == Some(SupervisorAction::WriteData),
    ensures
        auth_ack_live(evs.take(k)),
{
    assert(run_state(evs.take(k)).0 == ConnectionState::Connected);
    lemma_connected_implies_auth_ack(evs.take(k));
}

} // verus!
