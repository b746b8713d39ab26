//! A relay library: it models a JSON-encoded request descriptor, parses and
//! re-serializes it, and prepares the dispatch of the re-encoded payload to a
//! downstream HTTP collector.

pub mod chars;
pub mod decode;
pub mod descriptor;
pub mod encode;
pub mod numbers;
pub mod parse;
pub mod relay;
pub mod roundtrip;
pub mod wellformed;
