//! What holds of encoding and decoding together. Each law is a proof
//! function over `wire::encoding` and `parse::parse`, the two functions in
//! which the contracts of the encoder and the decoder are stated.
//!
//! - [`roundtrip`]: decoding what was encoded gives the value back.
//! - [`shortest`]: no bytes that read as a value are fewer than its encoding.
//! - [`prefix`]: reading looks at no byte behind the value, and any shorter
//!   start of its bytes is reported as the end of the input.
//! - [`failures`]: what reading reports, and when.
//! - [`tags`]: the tag alone decides the kind of the value.
//! - [`order`]: values that differ are written as different bytes, and a map
//!   keeps the order of its pairs.
//! - [`fields`]: fields and headers are read back as written.

pub mod failures;
pub mod fields;
pub mod order;
pub mod prefix;
pub mod roundtrip;
pub mod shortest;
pub mod tags;
