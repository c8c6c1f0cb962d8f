//! The per-connection session: its lifecycle state machine and the frames
//! a newly connected client is greeted with. A session runs two concurrent
//! loops (inbound receiver, outbound forwarder); either one ending drives
//! the session toward `Closing`, and it is `Closed` only when both have
//! finished.

use vstd::prelude::*;
use vstd::string::StringExecFns;
use vstd::utf8::encode_utf8;

use crate::message::ChatMessage;
use crate::message::MessageView;
use crate::message::MAX_MESSAGE_SIZE;
use crate::message::json_of;
use crate::message::lemma_ascii_u32_bytes;
use crate::message::wire_size;

verus! {

/// Where a connection stands in its lifecycle.
#[derive(Clone, Copy, Debug, PartialEq, Eq, Structural)]
pub enum SessionPhase {
    /// The transport handshake is underway.
    Connecting,
    /// The handshake completed; fingerprint and identity are known.
    Upgraded,
    /// History was forwarded, the hub subscribed, both loops running.
    Active,
    /// One loop has terminated; the other is still running.
    Closing,
    /// Both loops have terminated; resources can be released.
    Closed,
}

/// One connection's lifecycle state, tracking which of its two loops have
/// finished.
pub struct Session {
    pub phase: SessionPhase,
    pub inbound_done: bool,
    pub outbound_done: bool,
}

impl Session {
    /// The phase agrees with the loops: before `Closing` neither loop has
    /// ended, in `Closing` exactly one has, in `Closed` both have.
    pub open spec fn wf(&self) -> bool {
        &&& (self.phase == SessionPhase::Connecting || self.phase == SessionPhase::Upgraded
            || self.phase == SessionPhase::Active) ==> (!self.inbound_done
            && !self.outbound_done)
        &&& self.phase == SessionPhase::Closing ==> (self.inbound_done != self.outbound_done)
        &&& self.phase == SessionPhase::Closed ==> (self.inbound_done && self.outbound_done)
    }

    /// A session for a connection whose handshake has just begun.
    pub fn new() -> (r: Session)
        ensures
            r.wf(),
            r.phase == SessionPhase::Connecting,
    {
        Session { phase: SessionPhase::Connecting, inbound_done: false, outbound_done: false }
    }

    /// The transport handshake completed: the fingerprint and identity can
    /// now be computed.
    pub fn handshake_complete(&mut self)
        requires
            old(self).wf(),
            old(self).phase == SessionPhase::Connecting,
        ensures
            final(self).wf(),
            final(self).phase == SessionPhase::Upgraded,
    {
        self.phase = SessionPhase::Upgraded;
    }

    /// History was forwarded, the welcome sent, the hub subscribed, and
    /// both loops started.
    pub fn activate(&mut self)
        requires
            old(self).wf(),
            old(self).phase == SessionPhase::Upgraded,
        ensures
            final(self).wf(),
            final(self).phase == SessionPhase::Active,
    {
        self.phase = SessionPhase::Active;
    }

    /// The inbound loop terminated (transport receive failed or closed).
    /// From `Active` the session starts closing; once the outbound loop has
    /// also ended it is closed.
    pub fn inbound_ended(&mut self)
        requires
            old(self).wf(),
            old(self).phase == SessionPhase::Active || old(self).phase == SessionPhase::Closing,
            !old(self).inbound_done,
        ensures
            final(self).wf(),
            final(self).inbound_done,
            final(self).outbound_done == old(self).outbound_done,
            old(self).phase == SessionPhase::Active ==> final(self).phase == SessionPhase::Closing,
            old(self).phase == SessionPhase::Closing ==> final(self).phase == SessionPhase::Closed,
    {
        self.inbound_done = true;
        if self.phase == SessionPhase::Active {
            self.phase = SessionPhase::Closing;
        } else {
            self.phase = SessionPhase::Closed;
        }
    }

    /// The outbound loop terminated (transport send failed or the
    /// subscription closed). The mirror image of `inbound_ended`.
    pub fn outbound_ended(&mut self)
        requires
            old(self).wf(),
            old(self).phase == SessionPhase::Active || old(self).phase == SessionPhase::Closing,
            !old(self).outbound_done,
        ensures
            final(self).wf(),
            final(self).outbound_done,
            final(self).inbound_done == old(self).inbound_done,
            old(self).phase == SessionPhase::Active ==> final(self).phase == SessionPhase::Closing,
            old(self).phase == SessionPhase::Closing ==> final(self).phase == SessionPhase::Closed,
    {
        self.outbound_done = true;
        if self.phase == SessionPhase::Active {
            self.phase = SessionPhase::Closing;
        } else {
            self.phase = SessionPhase::Closed;
        }
    }

    /// Whether both loops have finished and resources can be released.
    pub fn is_closed(&self) -> (r: bool)
        ensures
            r == (self.phase == SessionPhase::Closed),
    {
        self.phase == SessionPhase::Closed
    }
}

/// The frames a newly connected client receives, in order: the stored
/// history oldest first, each in its JSON wire form, then a welcome
/// message addressed to the client's identity.
pub fn greeting_frames(history: &Vec<ChatMessage>, username: &String) -> (r: Vec<String>)
    requires
        encode_utf8(username@).len() <= 132,
    ensures
        r@.len() == history@.len() + 1,
        forall|i: int| 0 <= i < history@.len() ==> (#[trigger] r@[i])@ == json_of(history@[i]@),
        exists|wm: MessageView|
            #[trigger] json_of(wm) == r@[history@.len() as int]@ && wm.username == username@
                && wm.body == "Welcome to the chat!"@ && wire_size(wm) <= MAX_MESSAGE_SIZE,
{
    let mut frames: Vec<String> = Vec::new();
    let n = history.len();
    let mut i: usize = 0;
    while i < n
        invariant
            i <= n,
            n == history@.len(),
            frames@.len() == i,
            forall|j: int| 0 <= j < i ==> (#[trigger] frames@[j])@ == json_of(history@[j]@),
        decreases n - i,
    {
        frames.push(history[i].to_json());
        i += 1;
    }
    proof {
        reveal_strlit("Welcome to the chat!");
        lemma_ascii_u32_bytes("Welcome to the chat!"@);
    }
    let welcome = ChatMessage::try_new(username.clone(), "Welcome to the chat!".to_owned());
    match welcome {
        Ok(m) => {
            frames.push(m.to_json());
            proof {
                let wm = m@;
                assert(json_of(wm) == frames@[history@.len() as int]@ && wm.username == username@
                    && wm.body == "Welcome to the chat!"@ && wire_size(wm) <= MAX_MESSAGE_SIZE);
            }
        },
        Err(_) => {
            proof {
                assert(false);
            }
        },
    }
    frames
}

} // verus!
