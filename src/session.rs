use vstd::prelude::*;

use crate::server::Disconnect;

verus! {

/// How often a session probes its client, in milliseconds.
pub const HEARTBEAT_INTERVAL_MS: u64 = 1000;

/// How long a client may stay silent before its session ends, in milliseconds.
pub const CLIENT_TIMEOUT_MS: u64 = 10000;

/// One client connection: who it is, which team and crossword it works on,
/// and when its client was last heard from (milliseconds on the caller's clock).
#[derive(Debug, Clone, PartialEq)]
pub struct WsSession {
    pub id: u128,
    pub hb: u64,
    pub user: String,
    pub team: String,
    pub crossword: String,
}

/// A frame that arrived from the client's transport.
#[derive(Debug, Clone, PartialEq)]
pub enum Frame {
    Ping(Vec<u8>),
    Pong(Vec<u8>),
    Text(String),
    Binary(Vec<u8>),
    Close,
    Continuation,
    Nop,
    ProtocolError,
}

/// What the transport does in answer to a frame.
#[derive(Debug, Clone, PartialEq)]
pub enum FrameAction {
    /// Answer a probe with this payload.
    Pong(Vec<u8>),
    /// Send these bytes back.
    Binary(Vec<u8>),
    /// Decode this text as a batch of edits and hand it to the registry.
    Forward(String),
    /// Close the transport; the session ends.
    Stop,
    Ignore,
}

#[derive(Debug, Clone, Copy, PartialEq, Eq, Structural)]
pub enum HeartbeatAction {
    /// Probe the client again.
    Ping,
    /// The client has been silent too long: leave the registry and close.
    TimedOut,
}

/// The client has been silent for longer than the timeout.
pub open spec fn timed_out(hb: u64, now: u64) -> bool {
    now - hb > CLIENT_TIMEOUT_MS
}

pub open spec fn heartbeat_action(hb: u64, now: u64) -> HeartbeatAction {
    if timed_out(hb, now) {
        HeartbeatAction::TimedOut
    } else {
        HeartbeatAction::Ping
    }
}

/// A frame that shows the client is alive.
pub open spec fn is_liveness_frame(frame: Frame) -> bool {
    frame is Ping || frame is Pong
}

pub open spec fn frame_action(frame: Frame) -> FrameAction {
    match frame {
        Frame::Ping(p) => FrameAction::Pong(p),
        Frame::Pong(_) => FrameAction::Ignore,
        Frame::Text(t) => FrameAction::Forward(t),
        Frame::Binary(b) => FrameAction::Binary(b),
        Frame::Close => FrameAction::Stop,
        Frame::Continuation => FrameAction::Stop,
        Frame::Nop => FrameAction::Ignore,
        Frame::ProtocolError => FrameAction::Stop,
    }
}

/// Relies on `uuid::Uuid::new_v4`: a random identifier. Nothing is known of
/// its value.
#[verifier::external_body]
fn new_session_id() -> u128 {
    uuid::Uuid::new_v4().as_u128()
}

impl WsSession {
    /// A session for `user` on `crossword` with `team`, just heard from at
    /// `now`, under a fresh random id.
    pub fn new(user: String, team: String, crossword: String, now: u64) -> (r: WsSession)
        ensures
            r.user == user,
            r.team == team,
            r.crossword == crossword,
            r.hb == now,
    {
        WsSession { id: new_session_id(), hb: now, user, team, crossword }
    }

    /// Decides what a frame from the client leads to. A probe or its answer
    /// marks the client as heard from at `now`.
    pub fn handle(&mut self, frame: Frame, now: u64) -> (r: FrameAction)
        ensures
            r == frame_action(frame),
            final(self).hb == if is_liveness_frame(frame) { now } else { old(self).hb },
            final(self).id == old(self).id,
            final(self).user == old(self).user,
            final(self).team == old(self).team,
            final(self).crossword == old(self).crossword,
    {
        match frame {
            Frame::Ping(p) => {
                self.hb = now;
                FrameAction::Pong(p)
            },
            Frame::Pong(_) => {
                self.hb = now;
                FrameAction::Ignore
            },
            Frame::Text(t) => FrameAction::Forward(t),
            Frame::Binary(b) => FrameAction::Binary(b),
            Frame::Close => FrameAction::Stop,
            Frame::Continuation => FrameAction::Stop,
            Frame::Nop => FrameAction::Ignore,
            Frame::ProtocolError => FrameAction::Stop,
        }
    }

    /// The periodic liveness check at `now`.
    pub fn hb(&self, now: u64) -> (r: HeartbeatAction)
        ensures
            r == heartbeat_action(self.hb, now),
    {
        if now > self.hb && now - self.hb > CLIENT_TIMEOUT_MS {
            HeartbeatAction::TimedOut
        } else {
            HeartbeatAction::Ping
        }
    }

    /// The message that takes this session out of the registry.
    pub fn stopping(&self) -> (r: Disconnect)
        ensures
            r.id == self.id,
    {
        Disconnect { id: self.id }
    }
}

} // verus!
