//! The response-side protocol: which single flash cookie a response
//! carries, realizing exactly-once delivery.
//!
//! A response carries at most one flash cookie. New messages win: they
//! are encoded into a live cookie, overwriting whatever the client held
//! and suppressing any removal. Otherwise, if the request's reader had
//! consumed messages, the response carries the removal cookie, so the
//! client never keeps serving a cookie that was already read.

use vstd::prelude::*;
use crate::codec::decodes_to;
use crate::flash::Flash;
use crate::incoming::IncomingFlashes;
use crate::policy::FlashCookie;

verus! {

/// Whether the handler queued any new messages this turn.
pub open spec fn queued_messages(outgoing: Option<Flash>) -> bool {
    outgoing matches Some(f) && f.flashes.deep_view().len() > 0
}

/// Whether the request's reader consumed a non-empty cookie.
pub open spec fn consumed_messages(incoming: Option<&IncomingFlashes>) -> bool {
    incoming matches Some(inc) && inc.flashes@.len() > 0
}

/// The one flash cookie of a response, given what the handler queued and
/// what the reader consumed:
///
/// - messages were queued: the live, signed cookie of exactly those
///   messages, and nothing else — no separate removal;
/// - nothing queued but messages were consumed: the removal cookie;
/// - neither: no cookie at all.
pub fn finalize_response(outgoing: Option<Flash>, incoming: Option<&IncomingFlashes>) -> (r:
    Option<FlashCookie>)
    requires
        outgoing matches Some(f) ==> f.wf(),
    ensures
        queued_messages(outgoing) ==> (outgoing matches Some(f) && r matches Some(c) && decodes_to(
            f.key@,
            c.value@,
            f.flashes.deep_view(),
        ) && c.is_live(c.value@, f.use_secure_cookies)),
        !queued_messages(outgoing) && consumed_messages(incoming) ==> (incoming matches Some(inc)
            && r matches Some(c) && c.is_removal(inc.use_secure_cookies)),
        !queued_messages(outgoing) && !consumed_messages(incoming) ==> r is None,
{
    match outgoing {
        Some(f) => {
            if f.flashes.len() > 0 {
                proof {
                    assert(f.flashes.deep_view().len() == f.flashes@.len());
                }
                f.into_cookie()
            } else {
                proof {
                    assert(f.flashes.deep_view().len() == f.flashes@.len());
                }
                removal_or_nothing(incoming)
            }
        },
        None => removal_or_nothing(incoming),
    }
}

/// The cookie of a response that queued nothing: the removal cookie when
/// the reader consumed messages, and none otherwise.
fn removal_or_nothing(incoming: Option<&IncomingFlashes>) -> (r: Option<FlashCookie>)
    ensures
        consumed_messages(incoming) ==> (incoming matches Some(inc) && r matches Some(c)
            && c.is_removal(inc.use_secure_cookies)),
        !consumed_messages(incoming) ==> r is None,
{
    match incoming {
        Some(inc) => {
            if inc.is_empty() {
                None
            } else {
                Some(inc.removal_cookie())
            }
        },
        None => None,
    }
}

} // verus!
