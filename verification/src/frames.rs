//! The session's frame handling: what one inbound event does.
//!
//! The session multiplexes outbound batches and inbound frames over one
//! transport. Each inbound event maps to exactly one reaction: a ping is
//! answered with a pong carrying the identical payload and never reaches
//! the command dispatcher; a close or a read failure terminates the
//! session; a text frame that parses as a command is handed to the
//! dispatcher; everything else is ignored.

use vstd::prelude::*;

use crate::dispatch::Command;
use crate::inbound::parse_command;
use crate::inbound::spec_parse_command;
use crate::supervisor::TerminationReason;

verus! {

/// One frame read off the transport.
pub enum InboundFrame {
    /// A text frame, as its UTF-8 bytes
    Text { payload: Vec<u8> },
    /// A binary frame
    Binary { payload: Vec<u8> },
    /// A protocol ping
    Ping { payload: Vec<u8> },
    /// A protocol pong
    Pong { payload: Vec<u8> },
    /// A close frame
    Close,
}

/// What the transport reported to the session's inbound side.
pub enum SessionEvent {
    /// A frame arrived
    Frame { frame: InboundFrame },
    /// The transport failed while reading
    ReadFailed,
    /// The stream ended without a close frame
    StreamEnded,
}

/// What the session does in reaction.
pub enum SessionReaction {
    /// Answer the ping with a pong carrying this payload
    SendPong { payload: Vec<u8> },
    /// Hand this command to the dispatcher, fire-and-forget
    DispatchCommand { command: Command },
    /// End the session for this reason
    Terminate { reason: TerminationReason },
    /// Nothing: the frame carries nothing for this relay
    Ignore,
}

/// Maps one inbound event to the session's reaction. A ping is answered
/// with a pong carrying the identical payload and is never dispatched; a
/// close frame or an ended stream terminates with `PeerClosed`, a read
/// failure with `ReadFailed`; a text frame is dispatched exactly when it
/// parses as a command; pongs, binary frames and malformed text are
/// ignored.
pub fn handle_session_event(ev: SessionEvent) -> (r: SessionReaction)
    ensures
        match ev {
            SessionEvent::Frame { frame: InboundFrame::Ping { payload } } => r
                == (SessionReaction::SendPong { payload }),
            SessionEvent::Frame { frame: InboundFrame::Close } => r == (SessionReaction::Terminate {
                reason: TerminationReason::PeerClosed,
            }),
            SessionEvent::Frame { frame: InboundFrame::Text { payload } } => match spec_parse_command(
                payload@,
            ) {
                Some(m) => r matches SessionReaction::DispatchCommand { command } && command@ == m,
                None => r == SessionReaction::Ignore,
            },
            SessionEvent::Frame { frame: InboundFrame::Binary { .. } } => r
                == SessionReaction::Ignore,
            SessionEvent::Frame { frame: InboundFrame::Pong { .. } } => r == SessionReaction::Ignore,
            SessionEvent::ReadFailed => r == (SessionReaction::Terminate {
                reason: TerminationReason::ReadFailed,
            }),
            SessionEvent::StreamEnded => r == (SessionReaction::Terminate {
                reason: TerminationReason::PeerClosed,
            }),
        },
{
    match ev {
        SessionEvent::Frame { frame } => match frame {
            InboundFrame::Ping { payload } => SessionReaction::SendPong { payload },
            InboundFrame::Close => SessionReaction::Terminate {
                reason: TerminationReason::PeerClosed,
            },
            InboundFrame::Text { payload } => match parse_command(&payload) {
                Some(command) => SessionReaction::DispatchCommand { command },
                None => SessionReaction::Ignore,
            },
            InboundFrame::Binary { .. } => SessionReaction::Ignore,
            InboundFrame::Pong { .. } => SessionReaction::Ignore,
        },
        SessionEvent::ReadFailed => SessionReaction::Terminate {
            reason: TerminationReason::ReadFailed,
        },
        SessionEvent::StreamEnded => SessionReaction::Terminate {
            reason: TerminationReason::PeerClosed,
        },
    }
}

} // verus!
