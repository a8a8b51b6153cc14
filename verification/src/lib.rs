//! Verified core of two small CPython helper crates: the `_base64` extension
//! module's encoder and the build helper that turns CPython build settings into
//! Cargo link directives.

pub mod b64;
pub mod link_args;
pub mod shell;
pub mod directives;
