//! Codec for the DNS wire message format: a 12-byte header, a question
//! section, and three resource-record sections, with compressed domain names.
//!
//! The crate is organised bottom-up: `wire` packs the fixed-width integer
//! fields, `type_class` holds the type and class registries, `label` handles
//! domain names and character-strings, `question` and `resource` the two kinds
//! of section entries, and `message` ties them together behind `Message`.
#![verifier::loop_isolation(false)]

pub mod header;
pub mod label;
pub mod message;
pub mod question;
pub mod resource;
pub mod type_class;
pub mod wire;

pub use message::Message;
pub use message::MessageParseError;
