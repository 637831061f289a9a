//! A declarative binary-layout interpreter.
//!
//! A caller composes a description of a binary format out of type values
//! (numbers, network addresses, characters, arrays, structs, enums and
//! strings), then evaluates it either in the abstract (shape only) or bound to
//! a byte buffer, down to a fully resolved tree of byte ranges and values.

mod error;
pub use error::H2Error;

mod alignment;
pub use alignment::Alignment;

mod context;
pub use context::{Context, Endian, Offset};

mod text;

mod number;
pub use number::{SizedDefinition, SizedDisplay};

mod character;
pub use character::{CharacterType, StrictASCII};

pub mod model;

mod h2type;
pub use h2type::{
    Character, H2Array, H2Enum, H2Number, H2String, H2Struct, H2Type, H2Types, IPv4, IPv6,
    LPString, NTString, Unicode, ASCII, UTF16, UTF32, UTF8,
};

mod resolved;
pub use resolved::ResolvedType;
