//! The tool-invocation wire format: canonical JSON encoding of invocation
//! records, type-directed decoding, and strict-sequential replay.
pub mod value;
pub mod ops;
pub mod text;
pub mod grammar;
pub mod schema;
pub mod decode;
pub mod encode;
pub mod replay;
pub mod laws;
