//! The signing key and the authenticated cookie-value encoding.
//!
//! Signing itself is delegated to the `cookie` crate's signed-jar
//! construction: the stored value is the base64 HMAC-SHA256 tag of the
//! payload followed by the payload, computed from the key and the payload
//! alone. That function is named [`signed_of`] here and left
//! uninterpreted; the wrappers below state how the crate's sign and verify
//! operations relate to it.

use vstd::prelude::*;

verus! {

/// What the `cookie` crate's signed jar stores for a given key and payload:
/// the base64 HMAC-SHA256 tag of the payload, followed by the payload.
pub uninterp spec fn signed_of(key: Seq<u8>, value: Seq<char>) -> Seq<char>;

/// The process-wide symmetric key that signs and verifies flash cookies:
/// 64 bytes of master key material, as the `cookie` crate expects.
pub struct SigningKey {
    pub bytes: Vec<u8>,
}

impl Clone for SigningKey {
    fn clone(&self) -> (r: Self)
        ensures
            r@ == self@,
    {
        let n = self.bytes.len();
        let mut bytes: Vec<u8> = Vec::new();
        let mut i: usize = 0;
        while i < n
            invariant
                n == self.bytes@.len(),
                i <= n,
                bytes@ == self.bytes@.take(i as int),
            decreases n - i,
        {
            bytes.push(self.bytes[i]);
            assert(self.bytes@.take(i + 1 as int) =~= self.bytes@.take(i as int).push(
                self.bytes@[i as int],
            ));
            i = i + 1;
        }
        assert(self.bytes@.take(n as int) =~= self.bytes@);
        SigningKey { bytes }
    }
}

impl View for SigningKey {
    type V = Seq<u8>;

    open spec fn view(&self) -> Seq<u8> {
        self.bytes@
    }
}

impl SigningKey {
    /// A key is usable when it holds exactly the 64 bytes of master
    /// material the signing construction is keyed with.
    pub open spec fn wf(&self) -> bool {
        self.bytes@.len() == 64
    }

    /// A fresh key from the system's randomness.
    pub fn generate() -> (r: SigningKey)
        ensures
            r.wf(),
    {
        SigningKey { bytes: generate_key_bytes() }
    }

    /// A key from the given master bytes; rejects material of the wrong
    /// length rather than truncating or padding it.
    pub fn from_master(bytes: Vec<u8>) -> (r: Option<SigningKey>)
        ensures
            bytes@.len() == 64 <==> r is Some,
            r matches Some(k) ==> k@ == bytes@ && k.wf(),
    {
        if bytes.len() == 64 {
            Some(SigningKey { bytes })
        } else {
            None
        }
    }
}

/// Relies on `cookie::Key::generate`: a fresh random key whose master
/// material is 64 bytes.
#[verifier::external_body]
fn generate_key_bytes() -> (r: Vec<u8>)
    ensures
        r@.len() == 64,
{
    cookie::Key::generate().master().to_vec()
}

/// Relies on the `cookie` crate's `SignedJar::add` (through a jar): the
/// stored value is the base64 HMAC-SHA256 tag of the value followed by the
/// value itself, a deterministic function of the key material and the
/// value alone — [`signed_of`].
#[verifier::external_body]
pub(crate) fn sign_value(key: &Vec<u8>, value: &str) -> (r: String)
    requires
        key@.len() == 64,
    ensures
        r@ == signed_of(key@, value@),
{
    let k = cookie::Key::from(key.as_slice());
    let mut jar = cookie::CookieJar::new();
    jar.signed_mut(&k).add(cookie::Cookie::new("v", value.to_owned()));
    match jar.get("v") {
        Some(c) => c.value().to_owned(),
        None => String::new(),
    }
}

/// Relies on the `cookie` crate's `SignedJar::verify`: it splits off the
/// fixed-length base64 digest prefix, decodes it canonically, and
/// constant-time-compares it with the HMAC it recomputes over the rest —
/// so it accepts exactly the image of signing under the same key, and
/// returns the signed payload.
#[verifier::external_body]
pub(crate) fn verify_value(key: &Vec<u8>, signed: &str) -> (r: Option<String>)
    requires
        key@.len() == 64,
    ensures
        r matches Some(t) ==> signed@ == signed_of(key@, t@),
        r matches Some(t) ==> forall|val: Seq<char>| signed@ == signed_of(key@, val) ==> t@ == val,
        r is None ==> forall|val: Seq<char>| signed@ != signed_of(key@, val),
{
    let k = cookie::Key::from(key.as_slice());
    let jar = cookie::CookieJar::new();
    jar.signed(&k).verify(cookie::Cookie::new("v", signed.to_owned())).map(|c| c.value().to_owned())
}

/// The fixed diagnostic of a request that runs without a signing key: a
/// wiring defect, answered with a server error.
pub open spec fn missing_key_message() -> Seq<char> {
    "`SigningKey` extension missing. Did you forget to add `axum_flash::layer()` to your `axum::Router`?"@
}

/// A request reached the flash machinery with no signing key installed.
#[derive(Clone, Copy, Debug)]
pub struct MissingKeyError {
    pub status: u16,
    pub message: &'static str,
}

impl SigningKey {
    /// Resolves the per-request key from what the surrounding middleware
    /// installed: the key itself when one is there, and the fixed server
    /// error when none is, never a silent fallback.
    pub fn resolve(ext: Option<&SigningKey>) -> (r: Result<SigningKey, MissingKeyError>)
        ensures
            ext matches Some(k) ==> (r matches Ok(k2) && k2@ == k@),
            ext is None ==> (r matches Err(e) && e.status == 500 && e.message@
                == missing_key_message()),
    {
        match ext {
            Some(k) => Ok(k.clone()),
            None => Err(
                MissingKeyError {
                    status: 500,
                    message: "`SigningKey` extension missing. Did you forget to add `axum_flash::layer()` to your `axum::Router`?",
                },
            ),
        }
    }
}

} // verus!
