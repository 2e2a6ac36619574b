//! The cookie attribute policy: name, security flags, path and expiry of
//! every flash cookie the library emits.

use vstd::prelude::*;
use vstd::string::StringExecFns;

verus! {

/// The fixed name of the flash cookie; writing and reading use the same.
pub open spec fn cookie_name_spec() -> Seq<char> {
    "axum-flash"@
}

/// The fixed name of the flash cookie.
pub fn cookie_name() -> (r: &'static str)
    ensures
        r@ == cookie_name_spec(),
{
    "axum-flash"
}

/// How many seconds a live flash cookie may outlast the response that set
/// it.
pub const LIVE_MAX_AGE_SECONDS: u64 = 600;

/// A cookie as this library emits it: plain values only, converted to the
/// host framework's cookie type at the edge.
pub struct FlashCookie {
    pub name: String,
    pub value: String,
    pub secure: bool,
    pub http_only: bool,
    pub same_site_strict: bool,
    pub path: String,
    pub max_age_seconds: u64,
}

impl FlashCookie {
    /// The attributes every flash cookie carries, live or removal: the
    /// fixed name, `HttpOnly`, `SameSite=Strict`, the root path, and
    /// `Secure` as configured.
    pub open spec fn attrs_wf(&self, use_secure: bool) -> bool {
        &&& self.name@ == cookie_name_spec()
        &&& self.secure == use_secure
        &&& self.http_only
        &&& self.same_site_strict
        &&& self.path@ == "/"@
    }

    /// A live cookie carrying `value`, expiring after the fixed lifetime.
    pub open spec fn is_live(&self, value: Seq<char>, use_secure: bool) -> bool {
        &&& self.attrs_wf(use_secure)
        &&& self.value@ == value
        &&& self.max_age_seconds == LIVE_MAX_AGE_SECONDS
    }

    /// A removal cookie: empty value and zero lifetime, instructing the
    /// client to delete the cookie at once.
    pub open spec fn is_removal(&self, use_secure: bool) -> bool {
        &&& self.attrs_wf(use_secure)
        &&& self.value@.len() == 0
        &&& self.max_age_seconds == 0
    }
}

/// Builds the live flash cookie for an encoded value.
pub fn build_cookie(value: String, use_secure: bool) -> (c: FlashCookie)
    ensures
        c.is_live(value@, use_secure),
{
    FlashCookie {
        name: String::from_str(cookie_name()),
        value,
        secure: use_secure,
        http_only: true,
        same_site_strict: true,
        path: String::from_str("/"),
        max_age_seconds: LIVE_MAX_AGE_SECONDS,
    }
}

/// Builds the removal cookie for the flash cookie name.
pub fn build_removal(use_secure: bool) -> (c: FlashCookie)
    ensures
        c.is_removal(use_secure),
{
    FlashCookie {
        name: String::from_str(cookie_name()),
        value: String::new(),
        secure: use_secure,
        http_only: true,
        same_site_strict: true,
        path: String::from_str("/"),
        max_age_seconds: 0,
    }
}

} // verus!
