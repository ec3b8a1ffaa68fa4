//! Resilient telemetry/command relay.
//!
//! A family of field agents reads device state (a serial CO2 sensor, cloud
//! controlled smart plugs) and relays it to a central collector over a
//! persistent duplex connection, while accepting control commands back.
//! This crate holds the relay's verified core: the wire-message codec, the
//! connection supervisor's lifecycle state machine, the session frame
//! handling, the bounded drop-on-full data channel, the poll-tick batch
//! assembly, and the command dispatcher. Transport, timers and device I/O
//! live outside, feeding events in and carrying actions out.

pub mod channel;
pub mod codec;
pub mod dispatch;
pub mod envelope;
pub mod frames;
pub mod inbound;
pub mod poller;
pub mod reading;
pub mod rules;
pub mod sensor;
pub mod snapshot;
pub mod supervisor;
