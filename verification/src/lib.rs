//! Verified building blocks of a handful of small Unix text utilities.
//!
//! - [`wcr`] counts the lines, words, bytes and characters of a text;
//!   [`tally`] says what these counts are and how they behave when texts
//!   are joined or read line by line.
//! - [`headr`] selects the leading lines of a text, [`catr`] numbers the
//!   lines of a text, [`echor`] joins words into a line.
//! - [`lines`] cuts a text into its lines, [`decimal`] writes and reads
//!   numbers, [`encoding`] decodes bytes, and [`source`] holds what the
//!   utilities share: inputs, their failures and what a run writes.
//!
//! Nothing here opens a file or prints: a caller reads the inputs, hands
//! them over as bytes, and writes what comes back.

pub mod catr;
pub mod decimal;
pub mod echor;
pub mod encoding;
pub mod headr;
pub mod lines;
pub mod source;
pub mod tally;
pub mod wcr;
