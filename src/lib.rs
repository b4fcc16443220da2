//! Key-value parameter buffers and their line-oriented wire format, with
//! helpers shared by applications of the messaging middleware.

pub mod app;
pub mod err;
pub mod kvformat;
pub mod kvparam;
pub mod kvparams;

pub use err::Error;
