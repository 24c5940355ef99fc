//! A protobuf wire-format engine: varint and zigzag integer codecs, tag
//! framing, length-delimited payloads, packed repeated scalars, and a
//! bounds-checked decoder, with machine-checked contracts describing the
//! exact bytes written and read.

pub mod codec;
pub mod errors;
pub mod message;
pub mod reader;
pub mod writer;
