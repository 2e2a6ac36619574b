//! The outgoing flash accumulator: a per-request builder of the next
//! response's flash cookie.

use vstd::prelude::*;
use vstd::string::StringExecFns;
use crate::codec::{decodes_to, encode_cookie_value};
use crate::config::Config;
use crate::level::Level;
use crate::message::{FlashMessage, FlashSpec};
use crate::policy::{build_cookie, FlashCookie};
use crate::signing::SigningKey;

verus! {

/// Extractor-style builder for setting outgoing flash messages: an
/// initially empty ordered list, bound to the request's key and
/// secure-cookie flag. The messages are stored in a signed cookie when the
/// response is emitted.
pub struct Flash {
    pub flashes: Vec<FlashMessage>,
    pub use_secure_cookies: bool,
    pub key: SigningKey,
}

impl Flash {
    /// An accumulator is usable when its key is.
    pub open spec fn wf(&self) -> bool {
        self.key.wf()
    }

    /// A fresh, empty accumulator bound to the request's configuration.
    pub fn from_config(config: &Config) -> (r: Flash)
        ensures
            r.flashes.deep_view() == Seq::<FlashSpec>::empty(),
            r.use_secure_cookies == config.use_secure_cookies,
            r.key@ == config.key@,
            config.wf() ==> r.wf(),
    {
        let r = Flash {
            flashes: Vec::new(),
            use_secure_cookies: config.use_secure_cookies,
            key: config.key.clone(),
        };
        proof {
            assert(r.flashes.deep_view() =~= Seq::<FlashSpec>::empty());
        }
        r
    }

    /// Push a flash message with the given level and message.
    pub fn push(self, level: Level, message: &str) -> (r: Self)
        ensures
            r.flashes.deep_view() == self.flashes.deep_view().push(
                FlashSpec { level, text: message@ },
            ),
            r.use_secure_cookies == self.use_secure_cookies,
            r.key == self.key,
    {
        let mut flashes = self.flashes;
        let ghost before = flashes.deep_view();
        flashes.push(FlashMessage { level, text: String::from_str(message) });
        proof {
            assert(flashes.deep_view() =~= before.push(FlashSpec { level, text: message@ }));
        }
        Flash { flashes, use_secure_cookies: self.use_secure_cookies, key: self.key }
    }

    /// Push a `Debug` flash message.
    pub fn debug(self, message: &str) -> (r: Self)
        ensures
            r.flashes.deep_view() == self.flashes.deep_view().push(
                FlashSpec { level: Level::Debug, text: message@ },
            ),
            r.use_secure_cookies == self.use_secure_cookies,
            r.key == self.key,
    {
        self.push(Level::Debug, message)
    }

    /// Push an `Info` flash message.
    pub fn info(self, message: &str) -> (r: Self)
        ensures
            r.flashes.deep_view() == self.flashes.deep_view().push(
                FlashSpec { level: Level::Info, text: message@ },
            ),
            r.use_secure_cookies == self.use_secure_cookies,
            r.key == self.key,
    {
        self.push(Level::Info, message)
    }

    /// Push a `Success` flash message.
    pub fn success(self, message: &str) -> (r: Self)
        ensures
            r.flashes.deep_view() == self.flashes.deep_view().push(
                FlashSpec { level: Level::Success, text: message@ },
            ),
            r.use_secure_cookies == self.use_secure_cookies,
            r.key == self.key,
    {
        self.push(Level::Success, message)
    }

    /// Push a `Warning` flash message.
    pub fn warning(self, message: &str) -> (r: Self)
        ensures
            r.flashes.deep_view() == self.flashes.deep_view().push(
                FlashSpec { level: Level::Warning, text: message@ },
            ),
            r.use_secure_cookies == self.use_secure_cookies,
            r.key == self.key,
    {
        self.push(Level::Warning, message)
    }

    /// Push an `Error` flash message.
    pub fn error(self, message: &str) -> (r: Self)
        ensures
            r.flashes.deep_view() == self.flashes.deep_view().push(
                FlashSpec { level: Level::Error, text: message@ },
            ),
            r.use_secure_cookies == self.use_secure_cookies,
            r.key == self.key,
    {
        self.push(Level::Error, message)
    }

    /// The cookie this accumulator contributes to the response: the live,
    /// signed cookie of its messages when any were pushed, and nothing
    /// when none were — an empty accumulator sets no cookie of its own.
    pub fn into_cookie(self) -> (r: Option<FlashCookie>)
        requires
            self.wf(),
        ensures
            self.flashes.deep_view().len() == 0 <==> r is None,
            r matches Some(c) ==> decodes_to(self.key@, c.value@, self.flashes.deep_view())
                && c.is_live(c.value@, self.use_secure_cookies),
    {
        if self.flashes.len() == 0 {
            proof {
                assert(self.flashes.deep_view().len() == self.flashes@.len());
            }
            None
        } else {
            let value = encode_cookie_value(&self.flashes, &self.key);
            Some(build_cookie(value, self.use_secure_cookies))
        }
    }
}

} // verus!
