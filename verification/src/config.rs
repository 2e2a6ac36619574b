//! Per-deployment configuration: the signing key and the secure-cookie
//! flag.

use vstd::prelude::*;
use crate::signing::SigningKey;

verus! {

/// Configuration the host application supplies once: the signing key, and
/// whether cookies are marked `Secure` (on by default; switched off only
/// for plain-HTTP development).
pub struct Config {
    pub use_secure_cookies: bool,
    pub key: SigningKey,
}

impl Config {
    /// A configuration is usable when its key is.
    pub open spec fn wf(&self) -> bool {
        self.key.wf()
    }

    /// Create a new `Config` using the given key.
    ///
    /// Cookies will be signed using `key`, and marked secure.
    pub fn new(key: SigningKey) -> (r: Config)
        ensures
            r.key == key,
            r.use_secure_cookies,
            key.wf() ==> r.wf(),
    {
        Config { use_secure_cookies: true, key }
    }

    /// Mark the cookie as secure so the cookie will only be sent on
    /// `https`. Defaults to on; for local plain-HTTP development it can be
    /// switched off.
    pub fn use_secure_cookies(self, use_secure_cookies: bool) -> (r: Config)
        ensures
            r.key == self.key,
            r.use_secure_cookies == use_secure_cookies,
            self.wf() ==> r.wf(),
    {
        Config { use_secure_cookies, key: self.key }
    }
}

impl Clone for Config {
    fn clone(&self) -> (r: Self)
        ensures
            r.use_secure_cookies == self.use_secure_cookies,
            r.key@ == self.key@,
    {
        Config { use_secure_cookies: self.use_secure_cookies, key: self.key.clone() }
    }
}

} // verus!
