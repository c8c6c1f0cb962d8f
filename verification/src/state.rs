//! The process-wide shared state: the broadcast hub, the identity cache,
//! and the rate-limit table, with the per-connection operations that tie
//! them together (connecting, and handling one inbound payload). The
//! history store is an external collaborator reached by the surrounding
//! process; these operations take or return its plain values.

use vstd::prelude::*;
use vstd::utf8::encode_utf8;

use crate::fingerprinter::username_from_fingerprint;
use crate::fingerprinter::username_of;
use crate::hub::Hub;
use crate::hub::push_bounded;
use crate::message::ChatMessage;
use crate::message::MessageView;
use crate::message::MAX_MESSAGE_SIZE;
use crate::message::ReceivedMessage;
use crate::message::json_of;
use crate::message::parse_spec;
use crate::message::wire_size;
use crate::rate_limit::RateLimiter;
use crate::rate_limit::accepts;
use crate::session::greeting_frames;
use crate::strmap::StrMap;

verus! {

/// The state every connection shares: the fan-out hub, the fingerprint →
/// identity cache, and the per-identity rate-limit table. Both tables only
/// ever grow.
pub struct AppState {
    pub hub: Hub,
    pub usernames: StrMap<String>,
    pub last_sent: RateLimiter,
}

impl AppState {
    /// All parts well-formed, and every cached identity is exactly the one
    /// its fingerprint derives (eleven single-byte characters).
    pub open spec fn wf(&self) -> bool {
        &&& self.hub.wf()
        &&& self.usernames.wf()
        &&& self.last_sent.wf()
        &&& forall|k: Seq<char>|
            #[trigger] self.usernames@.contains_key(k) ==> self.usernames@[k]@ == username_of(k)
                && encode_utf8(self.usernames@[k]@).len() == 11
    }

    /// Fresh state: a hub with the given per-subscriber buffer capacity
    /// and empty tables.
    pub fn new(buffer: usize) -> (r: AppState)
        requires
            buffer >= 1,
        ensures
            r.wf(),
            r.hub@ == Seq::<(u64, Seq<MessageView>)>::empty(),
            r.hub.capacity_spec() == buffer,
            r.hub.next_handle() == 0,
            r.usernames@ == Map::<Seq<char>, String>::empty(),
            r.last_sent@ == Map::<Seq<char>, u64>::empty(),
    {
        AppState { hub: Hub::new(buffer), usernames: StrMap::new(), last_sent: RateLimiter::new() }
    }

    /// The identity for a fingerprint: served from the cache, or derived
    /// and cached on first sight. Either way, exactly the derived name.
    pub fn derive_identity(&mut self, fingerprint: &String) -> (r: String)
        requires
            old(self).wf(),
        ensures
            final(self).wf(),
            r@ == username_of(fingerprint@),
            encode_utf8(r@).len() == 11,
            final(self).usernames@.contains_key(fingerprint@),
            forall|k: Seq<char>|
                #[trigger] final(self).usernames@.contains_key(k) ==> k == fingerprint@
                    || old(self).usernames@.contains_key(k),
            forall|k: Seq<char>|
                #[trigger] old(self).usernames@.contains_key(k)
                    ==> final(self).usernames@.contains_key(k)
                    && final(self).usernames@[k] == old(self).usernames@[k],
            final(self).hub == old(self).hub,
            final(self).last_sent == old(self).last_sent,
    {
        let cached = self.usernames.get(fingerprint);
        match cached {
            Some(u) => u.clone(),
            None => {
                let u = username_from_fingerprint(fingerprint.as_str());
                self.usernames.insert(fingerprint.clone(), u.clone());
                u
            },
        }
    }

    /// Connects one client: derives its identity, prepares the greeting
    /// frames (the stored history oldest first, then the welcome), and
    /// opens a fresh hub subscription that sees only later messages.
    /// Returns the identity, the frames, and the subscription handle.
    pub fn connect(&mut self, fingerprint: &String, history: &Vec<ChatMessage>) -> (r: (
        String,
        Vec<String>,
        u64,
    ))
        requires
            old(self).wf(),
            old(self).hub.next_handle() < u64::MAX,
        ensures
            final(self).wf(),
            r.0@ == username_of(fingerprint@),
            final(self).last_sent == old(self).last_sent,
            r.1@.len() == history@.len() + 1,
            forall|i: int| 0 <= i < history@.len() ==> (#[trigger] r.1@[i])@ == json_of(
                history@[i]@,
            ),
            exists|wm: MessageView|
                #[trigger] json_of(wm) == r.1@[history@.len() as int]@ && wm.username == r.0@
                    && wm.body == "Welcome to the chat!"@ && wire_size(wm) <= MAX_MESSAGE_SIZE,
            final(self).hub@ == old(self).hub@.push((r.2, Seq::<MessageView>::empty())),
            !old(self).hub.has_handle(r.2),
            final(self).hub.has_handle(r.2),
            final(self).hub.queue_of(r.2) == Seq::<MessageView>::empty(),
            final(self).hub.capacity_spec() == old(self).hub.capacity_spec(),
    {
        let identity = self.derive_identity(fingerprint);
        let frames = greeting_frames(history, &identity);
        let handle = self.hub.subscribe();
        (identity, frames, handle)
    }

    /// Handles one inbound client payload: parse it, check the rate
    /// limiter under the session's identity, build the bounded message,
    /// and fan it out to every subscriber. Returns the accepted message
    /// (already published) for the caller to persist, or nothing when the
    /// payload was dropped — silently, as every per-message failure is.
    pub fn inbound_step(&mut self, username: &String, raw: &String, now_ms: u64) -> (r: Option<
        ChatMessage,
    >)
        requires
            old(self).wf(),
        ensures
            final(self).wf(),
            final(self).usernames == old(self).usernames,
            final(self).hub.capacity_spec() == old(self).hub.capacity_spec(),
            final(self).hub.next_handle() == old(self).hub.next_handle(),
            parse_spec(raw@) is Err ==> r is None
                && final(self).last_sent@ == old(self).last_sent@
                && final(self).hub == old(self).hub,
            parse_spec(raw@) is Ok && !accepts(old(self).last_sent@, username@, now_ms)
                ==> r is None && final(self).last_sent@ == old(self).last_sent@
                && final(self).hub == old(self).hub,
            parse_spec(raw@) is Ok && accepts(old(self).last_sent@, username@, now_ms)
                ==> final(self).last_sent@ == old(self).last_sent@.insert(username@, now_ms),
            r is None ==> final(self).hub == old(self).hub,
            r matches Some(m) ==> (parse_spec(raw@) matches Ok(p)
                && accepts(old(self).last_sent@, username@, now_ms)
                && m@.username == username@ && m@.body == p.1 && wire_size(m@) <= MAX_MESSAGE_SIZE
                && final(self).hub@.len() == old(self).hub@.len()
                && (forall|i: int| 0 <= i < old(self).hub@.len()
                    ==> (#[trigger] final(self).hub@[i]).0 == old(self).hub@[i].0)
                && (forall|i: int| 0 <= i < old(self).hub@.len()
                    ==> (#[trigger] final(self).hub@[i]).1
                    == push_bounded(old(self).hub@[i].1, m@, old(self).hub.capacity_spec()))),
            (parse_spec(raw@) matches Ok(p) && accepts(old(self).last_sent@, username@, now_ms) && 6
                * encode_utf8(username@).len() + 6 * encode_utf8(p.1).len() + 109
                <= MAX_MESSAGE_SIZE) ==> r is Some,
    {
        let rm = match ReceivedMessage::try_new(raw.as_str()) {
            Ok(rm) => rm,
            Err(_) => { return None },
        };
        if !self.last_sent.try_accept(username, now_ms) {
            return None;
        }
        let msg = match rm.to_chat_message(username.clone()) {
            Ok(m) => m,
            Err(_) => { return None },
        };
        self.hub.publish(&msg);
        Some(msg)
    }
}

} // verus!
