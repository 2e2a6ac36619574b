//! The incoming flash reader: decodes the previous request's cookie and
//! arranges for its removal, so messages are delivered at most once.

use vstd::prelude::*;
use crate::codec::{decode_cookie_value, decodes_to};
use crate::config::Config;
use crate::level::Level;
use crate::message::{FlashMessage, FlashSpec};
use crate::policy::{build_removal, FlashCookie};
use crate::signing::SigningKey;

verus! {

/// Extractor-style reader of incoming flash messages: constructed once per
/// request from the raw cookie value, holding the decoded messages in
/// their original push order.
pub struct IncomingFlashes {
    pub flashes: Vec<FlashMessage>,
    pub use_secure_cookies: bool,
    pub key: SigningKey,
}

impl IncomingFlashes {
    /// A reader is usable when its key is.
    pub open spec fn wf(&self) -> bool {
        self.key.wf()
    }

    /// Reads the previous response's messages from the raw flash cookie
    /// value, if the request carried one. An absent cookie means no
    /// messages; a present one is verified and decoded, and anything but
    /// the signed encoding of a message list degrades to no messages.
    pub fn from_cookie_value(raw: Option<&str>, config: &Config) -> (r: IncomingFlashes)
        requires
            config.wf(),
        ensures
            r.use_secure_cookies == config.use_secure_cookies,
            r.key@ == config.key@,
            r.wf(),
            raw is None ==> r.flashes.deep_view() == Seq::<FlashSpec>::empty(),
            raw matches Some(s) ==> forall|ms: Seq<FlashSpec>|
                decodes_to(config.key@, s@, ms) ==> r.flashes.deep_view() == ms,
            raw matches Some(s) ==> (r.flashes.deep_view().len() > 0 ==> decodes_to(
                config.key@,
                s@,
                r.flashes.deep_view(),
            )),
    {
        let flashes = match raw {
            Some(s) => decode_cookie_value(s, &config.key),
            None => {
                let v: Vec<FlashMessage> = Vec::new();
                proof {
                    assert(v.deep_view() =~= Seq::<FlashSpec>::empty());
                }
                v
            },
        };
        IncomingFlashes {
            flashes,
            use_secure_cookies: config.use_secure_cookies,
            key: config.key.clone(),
        }
    }

    /// Get an iterator over the flash messages.
    pub fn iter(&self) -> (r: Iter<'_>)
        ensures
            r.messages@ == self.flashes@,
            r.pos == 0,
    {
        Iter { messages: &self.flashes, pos: 0 }
    }

    /// Get the number of flash messages.
    pub fn len(&self) -> (r: usize)
        ensures
            r == self.flashes@.len(),
    {
        self.flashes.len()
    }

    /// Whether there are any flash messages or not.
    pub fn is_empty(&self) -> (r: bool)
        ensures
            r == (self.flashes@.len() == 0),
    {
        self.flashes.len() == 0
    }

    /// The decoded messages, owned, in their original push order.
    pub fn into_messages(self) -> (r: Vec<FlashMessage>)
        ensures
            r == self.flashes,
    {
        self.flashes
    }

    /// The removal cookie this reader contributes to the response when it
    /// consumed messages and nothing overwrote the cookie.
    pub fn removal_cookie(&self) -> (c: FlashCookie)
        ensures
            c.is_removal(self.use_secure_cookies),
    {
        build_removal(self.use_secure_cookies)
    }
}

/// An iterator over the flash messages: a restartable in-order traversal
/// yielding level and borrowed text.
pub struct Iter<'a> {
    pub messages: &'a Vec<FlashMessage>,
    pub pos: usize,
}

impl<'a> Iter<'a> {
    /// The next message's level and text, in push order, or nothing once
    /// every message has been yielded.
    pub fn next(&mut self) -> (r: Option<(Level, &'a str)>)
        ensures
            old(self).pos < old(self).messages@.len() ==> {
                &&& r matches Some(p) && p.0 == old(self).messages@[old(self).pos as int]@.level
                    && p.1@ == old(self).messages@[old(self).pos as int]@.text
                &&& final(self).pos == old(self).pos + 1
            },
            old(self).pos >= old(self).messages@.len() ==> r is None && final(self).pos == old(
                self,
            ).pos,
            final(self).messages == old(self).messages,
    {
        if self.pos < self.messages.len() {
            let m = &self.messages[self.pos];
            self.pos = self.pos + 1;
            Some((m.level, m.text.as_str()))
        } else {
            None
        }
    }
}

} // verus!
