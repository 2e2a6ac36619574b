//! The cookie codec: a message list to a signed cookie value and back.
//!
//! Decoding is total and fail-open: a value that is not the encoding of
//! any list — absent, malformed, tampered with, or signed under another
//! key — decodes to the empty list, never to an error.
//!
//! The cookie value is the signed value escaped into the cookie-value
//! alphabet (see [`crate::armor`]), so it survives cookie-value character
//! restrictions whatever the messages hold; write and read agree on this
//! form bit-exactly.

use vstd::prelude::*;
use crate::armor::{armor, armor_value, cookie_octet, dearmor_value, lemma_armor_cookie_octets};
use crate::message::{FlashMessage, FlashSpec};
use crate::parse::parse_flash_json;
use crate::encode::encode_messages;
use crate::signing::{sign_value, signed_of, verify_value, SigningKey};
use crate::strutil::str_chars;
use crate::wire::json_of;

verus! {

/// Whether `raw` is the cookie value carrying the message list `ms` under
/// `key`: the armored form of the signed wire encoding of `ms`.
pub open spec fn decodes_to(key: Seq<u8>, raw: Seq<char>, ms: Seq<FlashSpec>) -> bool {
    raw == armor(signed_of(key, json_of(ms)))
}

/// Encodes, signs and armors an ordered message list into a cookie value,
/// every character of which is safe for a cookie value.
pub fn encode_cookie_value(msgs: &Vec<FlashMessage>, key: &SigningKey) -> (r: String)
    requires
        key.wf(),
    ensures
        decodes_to(key@, r@, msgs.deep_view()),
        forall|i: int| 0 <= i < r@.len() ==> #[trigger] cookie_octet(r@[i]),
{
    let payload = encode_messages(msgs);
    let signed = sign_value(&key.bytes, payload.as_str());
    let r = armor_value(signed.as_str());
    proof {
        lemma_armor_cookie_octets(signed@);
    }
    r
}

/// De-armors, verifies and decodes a cookie value back to its message
/// list.
///
/// The contract pins the result for every input: a value that is the
/// encoding of some list yields exactly that list — so decoding inverts
/// [`encode_cookie_value`] — and a non-empty result only ever comes from
/// such a value, so everything else yields the empty list.
pub fn decode_cookie_value(raw: &str, key: &SigningKey) -> (r: Vec<FlashMessage>)
    requires
        key.wf(),
    ensures
        forall|ms: Seq<FlashSpec>| decodes_to(key@, raw@, ms) ==> r.deep_view() == ms,
        r.deep_view().len() > 0 ==> decodes_to(key@, raw@, r.deep_view()),
{
    match dearmor_value(raw) {
        None => {
            let r: Vec<FlashMessage> = Vec::new();
            proof {
                assert(r.deep_view() =~= Seq::<FlashSpec>::empty());
            }
            r
        },
        Some(signed) => {
            match verify_value(&key.bytes, signed.as_str()) {
                None => {
                    let r: Vec<FlashMessage> = Vec::new();
                    proof {
                        assert(r.deep_view() =~= Seq::<FlashSpec>::empty());
                        assert forall|ms: Seq<FlashSpec>| !decodes_to(key@, raw@, ms) by {
                            if decodes_to(key@, raw@, ms) {
                                assert(signed@ == signed_of(key@, json_of(ms)));
                            }
                        }
                    }
                    r
                },
                Some(payload) => {
                    let chars = str_chars(payload.as_str());
                    match parse_flash_json(&chars) {
                        None => {
                            let r: Vec<FlashMessage> = Vec::new();
                            proof {
                                assert(r.deep_view() =~= Seq::<FlashSpec>::empty());
                                assert forall|ms: Seq<FlashSpec>| !decodes_to(key@, raw@, ms) by {
                                    if decodes_to(key@, raw@, ms) {
                                        assert(signed@ == signed_of(key@, json_of(ms)));
                                        assert(payload@ == json_of(ms));
                                    }
                                }
                            }
                            r
                        },
                        Some(msgs) => {
                            proof {
                                assert(decodes_to(key@, raw@, msgs.deep_view()));
                                assert forall|ms: Seq<FlashSpec>|
                                    decodes_to(key@, raw@, ms) implies msgs.deep_view() == ms by {
                                    assert(signed@ == signed_of(key@, json_of(ms)));
                                    assert(payload@ == json_of(ms));
                                }
                            }
                            msgs
                        },
                    }
                },
            }
        },
    }
}

} // verus!
