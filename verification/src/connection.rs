//! The connection manager and the heartbeat/liveness state machine.
//!
//! One `Connection` holds the session state of a single login: the named
//! state, the tick counter of the probe cadence, and the count of liveness
//! probes the peer has not answered.  The functions here are the decision
//! core of the per-tick loop: the caller owns the socket and the queues,
//! performs each returned action (send a frame, deliver a message) and hands
//! the next event back.  Every decision is a pure function of the session
//! state and the event, with a full contract.

use vstd::prelude::*;

use crate::message::{decode_spec, Message, MsgType};

verus! {

/// Ticks between two liveness probes: the counter runs from 0 up to the
/// cadence and a probe is sent on the tick that reaches it.
pub const TICKS_PER_PROBE: u16 = 500;

/// Unanswered probes the session tolerates; one more is a dead connection.
pub const MISSED_LIMIT: u64 = 5;

/// The failures a session can end with.
#[derive(Clone, Copy, PartialEq, Eq, Structural, Debug)]
pub enum ClientError {
    /// The handshake reply was not an acceptance (or did not decode).
    PermissionDenied,
    /// The session is over: the peer signalled termination, the local side
    /// requested it, or too many liveness probes went unanswered.
    ConnectionAborted,
}

/// The lifecycle of a connection.
#[derive(Clone, Copy, PartialEq, Eq, Structural, Debug)]
pub enum ConnState {
    Disconnected,
    HandshakePending,
    Established,
}

/// Session state of one live connection.  The tick counter and the missed
/// count are meaningful in the `Established` state and start at 0 on every
/// successful handshake; a connection is never reused across reconnects.
#[derive(Clone, Copy, PartialEq, Eq, Structural, Debug)]
pub struct Connection {
    pub state: ConnState,
    pub tick_counter: u16,
    pub missed_heartbeats: u64,
}

/// The tick counter stays below the probe cadence.
pub open spec fn conn_wf(c: Connection) -> bool {
    c.tick_counter < TICKS_PER_PROBE
}

/// Whether the next tick reaches the cadence and sends a probe.
pub open spec fn probe_fires(c: Connection) -> bool {
    c.tick_counter + 1 == TICKS_PER_PROBE
}

/// Incrementing the missed count, saturating at the type's limit so that a
/// peer that answers nothing for eons still cannot fault this side.
pub open spec fn saturating_inc(x: u64) -> u64 {
    if x < u64::MAX {
        (x + 1) as u64
    } else {
        x
    }
}

/// What one counting step of the tick does to the session state.
pub open spec fn probe_step(c: Connection) -> Connection {
    if probe_fires(c) {
        Connection {
            state: c.state,
            tick_counter: 0,
            missed_heartbeats: saturating_inc(c.missed_heartbeats),
        }
    } else {
        Connection {
            state: c.state,
            tick_counter: (c.tick_counter + 1) as u16,
            missed_heartbeats: c.missed_heartbeats,
        }
    }
}

/// The session state after `n` counting steps.
pub open spec fn probe_iter(c: Connection, n: nat) -> Connection
    decreases n,
{
    if n == 0 {
        c
    } else {
        probe_step(probe_iter(c, (n - 1) as nat))
    }
}

/// What the tick loop does with one inbound read, besides updating the
/// session state: deliver a chat message to the local consumer, answer the
/// peer with a frame, or nothing.
pub enum InboundAction {
    /// A chat message to hand to the inbound queue, unchanged.
    Deliver(Message),
    /// A frame to send back to the peer at once.
    Reply(Message),
    /// Nothing to do this tick.
    Idle,
}

impl Connection {
    /// A fresh established session, as the handshake returns it.
    pub fn established() -> (c: Connection)
        ensures
            c == (Connection {
                state: ConnState::Established,
                tick_counter: 0,
                missed_heartbeats: 0,
            }),
    {
        Connection { state: ConnState::Established, tick_counter: 0, missed_heartbeats: 0 }
    }

    /// The counting step at the head of every tick.  The counter advances;
    /// on the tick that reaches the cadence it returns to 0, one more missed
    /// probe is recorded, and a liveness probe stamped with the local
    /// username is returned for the caller to send.
    pub fn tick_probe(&mut self, username: &str) -> (probe: Option<Message>)
        requires
            conn_wf(*old(self)),
        ensures
            conn_wf(*final(self)),
            *final(self) == probe_step(*old(self)),
            probe is Some <==> probe_fires(*old(self)),
            probe matches Some(m) ==> m@.msg == MsgType::CHK && m@.from == username@
                && m@.content.len() == 0,
    {
        if self.tick_counter + 1 < TICKS_PER_PROBE {
            self.tick_counter = self.tick_counter + 1;
            None
        } else {
            self.tick_counter = 0;
            if self.missed_heartbeats < u64::MAX {
                self.missed_heartbeats = self.missed_heartbeats + 1;
            }
            let m = Message::new(MsgType::CHK, username, "");
            proof {
                reveal_strlit("");
            }
            Some(m)
        }
    }

    /// The dispatch at the tail of every tick, on the result of one
    /// non-blocking read.  A chat message is delivered unchanged; a liveness
    /// probe from the peer is answered with an acceptance; an acceptance
    /// clears the missed count whatever it was; an error or logout from the
    /// peer, or silence after more than the tolerated number of missed
    /// probes, ends the session; a login frame is a no-op.
    pub fn handle_inbound(&mut self, inbound: Option<Message>, username: &str) -> (r: Result<
        InboundAction,
        ClientError,
    >)
        ensures
            final(self).state == old(self).state,
            final(self).tick_counter == old(self).tick_counter,
            match inbound {
                Some(m) => match m@.msg {
                    MsgType::MSG => (r matches Ok(InboundAction::Deliver(f)) && f@ == m@)
                        && final(self).missed_heartbeats == old(self).missed_heartbeats,
                    MsgType::CHK => (r matches Ok(InboundAction::Reply(a)) && a@.msg == MsgType::ACC
                        && a@.from == username@ && a@.content.len() == 0)
                        && final(self).missed_heartbeats == old(self).missed_heartbeats,
                    MsgType::ACC => r == Ok::<InboundAction, ClientError>(InboundAction::Idle)
                        && final(self).missed_heartbeats == 0,
                    MsgType::ERR => r == Err::<InboundAction, ClientError>(
                        ClientError::ConnectionAborted,
                    ) && final(self).missed_heartbeats == old(self).missed_heartbeats,
                    MsgType::LOU => r == Err::<InboundAction, ClientError>(
                        ClientError::ConnectionAborted,
                    ) && final(self).missed_heartbeats == old(self).missed_heartbeats,
                    MsgType::LIN => r == Ok::<InboundAction, ClientError>(InboundAction::Idle)
                        && final(self).missed_heartbeats == old(self).missed_heartbeats,
                },
                None => final(self).missed_heartbeats == old(self).missed_heartbeats && r == (
                if old(self).missed_heartbeats > MISSED_LIMIT {
                    Err::<InboundAction, ClientError>(ClientError::ConnectionAborted)
                } else {
                    Ok::<InboundAction, ClientError>(InboundAction::Idle)
                }),
            },
    {
        match inbound {
            Some(m) => match m.msg {
                MsgType::MSG => Ok(InboundAction::Deliver(m)),
                MsgType::CHK => {
                    let a = Message::new(MsgType::ACC, username, "");
                    proof {
                        reveal_strlit("");
                    }
                    Ok(InboundAction::Reply(a))
                },
                MsgType::ACC => {
                    self.missed_heartbeats = 0;
                    Ok(InboundAction::Idle)
                },
                MsgType::ERR => Err(ClientError::ConnectionAborted),
                MsgType::LOU => Err(ClientError::ConnectionAborted),
                MsgType::LIN => Ok(InboundAction::Idle),
            },
            None => {
                if self.missed_heartbeats > MISSED_LIMIT {
                    Err(ClientError::ConnectionAborted)
                } else {
                    Ok(InboundAction::Idle)
                }
            },
        }
    }
}

/// Stamps an outgoing message with the local username, as the sender does
/// immediately before writing it to the wire.
pub fn stamp_outgoing(msg: Message, username: &str) -> (r: Message)
    ensures
        r@.msg == msg@.msg,
        r@.from == username@,
        r@.content == msg@.content,
{
    Message { msg: msg.msg, from: String::from_str(username), content: msg.content }
}

/// The verdict on an outgoing message after it is written: an error or a
/// logout is the local side's request to end the session, so the tick fails
/// right after the write; anything else lets the tick go on.
pub fn outgoing_verdict(k: MsgType) -> (r: Result<(), ClientError>)
    ensures
        r == (if k == MsgType::ERR || k == MsgType::LOU {
            Err::<(), ClientError>(ClientError::ConnectionAborted)
        } else {
            Ok::<(), ClientError>(())
        }),
{
    match k {
        MsgType::ERR => Err(ClientError::ConnectionAborted),
        MsgType::LOU => Err(ClientError::ConnectionAborted),
        _ => Ok(()),
    }
}

/// The login frame the handshake writes: the username as sender, the
/// password as payload.
pub fn login_message(username: &str, password: &str) -> (m: Message)
    ensures
        m@.msg == MsgType::LIN,
        m@.from == username@,
        m@.content == password@,
{
    Message::new(MsgType::LIN, username, password)
}

/// The decision of the handshake, on the text read back after the login
/// frame was written.  Exactly an acceptance establishes the session, with
/// counter and missed count at 0; any other reply, or one that does not
/// decode, is a denied permission and the caller must retry with fresh
/// credentials.
pub fn handshake_result(reply: &str) -> (r: Result<Connection, ClientError>)
    ensures
        match decode_spec(reply@) {
            Some(v) => if v.msg == MsgType::ACC {
                r == Ok::<Connection, ClientError>(
                    Connection {
                        state: ConnState::Established,
                        tick_counter: 0,
                        missed_heartbeats: 0,
                    },
                )
            } else {
                r == Err::<Connection, ClientError>(ClientError::PermissionDenied)
            },
            None => r == Err::<Connection, ClientError>(ClientError::PermissionDenied),
        },
{
    match Message::from(reply) {
        Some(m) => match m.msg {
            MsgType::ACC => Ok(Connection::established()),
            _ => Err(ClientError::PermissionDenied),
        },
        None => Err(ClientError::PermissionDenied),
    }
}

/// After `k` counting steps from a fresh counter, the counter reads `k` and
/// nothing else has moved, as long as the cadence is not yet reached.
proof fn lemma_probe_iter_counter(c: Connection, k: nat)
    requires
        c.tick_counter == 0,
        k < TICKS_PER_PROBE,
    ensures
        probe_iter(c, k).tick_counter == k,
        probe_iter(c, k).missed_heartbeats == c.missed_heartbeats,
        probe_iter(c, k).state == c.state,
    decreases k,
{
    if k > 0 {
        lemma_probe_iter_counter(c, (k - 1) as nat);
    }
}

/// Law: the heartbeat cadence.  From a fresh counter, the first 499 ticks
/// send no probe; the 500th sends exactly one, records exactly one more
/// missed probe, and returns the counter to 0.
pub proof fn lemma_heartbeat_cadence(c: Connection)
    requires
        c.tick_counter == 0,
        c.missed_heartbeats < u64::MAX,
    ensures
        forall|k: nat| k < 499 ==> !probe_fires(#[trigger] probe_iter(c, k)),
        probe_fires(probe_iter(c, 499)),
        probe_iter(c, 500) == (Connection {
            state: c.state,
            tick_counter: 0,
            missed_heartbeats: (c.missed_heartbeats + 1) as u64,
        }),
{
    assert forall|k: nat| k < 499 implies !probe_fires(#[trigger] probe_iter(c, k)) by {
        lemma_probe_iter_counter(c, k);
    }
    lemma_probe_iter_counter(c, 499);
    assert(probe_iter(c, 500) == probe_step(probe_iter(c, 499)));
}

} // verus!
