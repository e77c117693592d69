//! Command-line interpreter of a USB-serial hardware bridge: turns one line of
//! operator text into a typed, validated hardware request.

pub mod error;
pub mod number;
pub mod text;
pub mod request;
pub mod parse;
pub mod line;
pub mod writer;
