//! Codec for a self-describing, type-tagged command option value.
//!
//! The wire form is a structural map of named fields carrying an explicit
//! type discriminant and a loosely typed payload; the in-memory form is the
//! strict tagged union [`CommandOptionValue`] inside a [`CommandDataOption`].
//! The decoder resolves the payload against the discriminant, the encoder
//! projects the union back onto the conditional wire field set.

pub mod binary64;
pub mod decode;
pub mod digits;
pub mod encode;
pub mod kind;
pub mod laws;
pub mod option;
pub mod wire;

pub use binary64::{widen_i64_to_binary64, WireNumber};
pub use decode::{decode_option, DecodeError, FieldName};
pub use encode::encode_option;
pub use digits::{parse_canonical_u64, render_u64};
pub use kind::CommandOptionType;
pub use option::{CommandDataOption, CommandOptionValue};
pub use wire::{ValueEnvelope, ValueShape, WireField, WireMap, WireValue};
