//! One-time, tamper-evident notifications ("flash messages") carried in a
//! signed HTTP cookie.
//!
//! A response queues short leveled text messages through [`Flash`]; the next
//! request from the same client reads them back through [`IncomingFlashes`]
//! and arranges for the cookie's removal, so every message is delivered at
//! most once. The cookie value is an authenticated encoding of the message
//! list: the wire format is specified and verified here, the signing itself
//! is delegated to the `cookie` crate.

mod armor;
mod codec;
mod config;
mod encode;
mod flash;
mod incoming;
mod layer;
mod level;
mod message;
mod parse;
mod policy;
mod private;
mod protocol;
mod signing;
mod strutil;
mod wire;

pub use armor::armor;
pub use armor::armor_char;
pub use armor::armor_value;
pub use armor::cookie_octet;
pub use armor::dearmor_value;
pub use armor::lemma_armor_cookie_octets;
pub use armor::plain_char;
pub use codec::decode_cookie_value;
pub use codec::decodes_to;
pub use codec::encode_cookie_value;
pub use config::Config;
pub use encode::encode_messages;
pub use flash::Flash;
pub use incoming::IncomingFlashes;
pub use incoming::Iter;
pub use layer::layer;
pub use layer::LayerBuilder;
pub use level::lemma_level_order;
pub use level::level_rank;
pub use level::Level;
pub use message::FlashMessage;
pub use message::FlashSpec;
pub use parse::lemma_json_of_injective;
pub use parse::lemma_msg_json_injective;
pub use parse::parse_flash_json;
pub use policy::build_cookie;
pub use policy::build_removal;
pub use policy::cookie_name;
pub use policy::cookie_name_spec;
pub use policy::FlashCookie;
pub use policy::LIVE_MAX_AGE_SECONDS;
pub use private::AddExtension;
pub use private::AddExtensionLayer;
pub use private::UseSecureCookies;
pub use protocol::consumed_messages;
pub use protocol::finalize_response;
pub use protocol::queued_messages;
pub use signing::missing_key_message;
pub use signing::signed_of;
pub use signing::MissingKeyError;
pub use signing::SigningKey;
pub use wire::escape_char;
pub use wire::escape_text;
pub use wire::json_of;
pub use wire::msg_json;
