//! Strips comments from source text while leaving quoted literals untouched,
//! for a configurable set of comment and quote markers.
//!
//! A [`Scanner`] is made once from three lists of markers and then scans any
//! number of texts. What a scan gives is defined in [`model`] as a state
//! machine over the characters of the text; [`laws`] holds what follows from
//! that definition for every text.

pub mod laws;
pub mod model;
pub mod scanner;

pub use scanner::{c_like, lookbehind_matches, python_like, strip_comments, Scanner};
