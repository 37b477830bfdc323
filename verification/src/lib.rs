//! Reading from a buffered byte source until a pattern, the needle, is found.
//!
//! A [`Needle`] says where a pattern first matches in a haystack of bytes.
//! A [`scan::ReadUntilNeedle`] is one scan in progress: it is handed what the
//! source makes available after each fill, and answers with how many bytes to
//! consume and whether the scan has ended. [`source`] says what a scan comes
//! to on a whole source, and [`io::UntilNeedleRead`] is the whole scan of a
//! reader.
pub mod io;
pub mod needle;
pub mod pattern;
pub mod scan;
pub mod source;

pub use crate::needle::Needle;
