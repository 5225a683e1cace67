//! A line-oriented literal-pattern search library.
//!
//! The pipeline has three stages: `matcher` finds every non-overlapping
//! occurrence of a pattern in a line, `highlight` brackets each occurrence
//! with terminal colour markers (green for a whole token, red for a fragment
//! of a larger token), and `writer` buffers the highlighted lines and keeps
//! the running count of matching lines. All three are verified; the
//! surrounding argument handling and file I/O live outside the library.

pub mod highlight;
pub mod matcher;
pub mod strip;
pub mod writer;

pub use writer::CustomWriter;
