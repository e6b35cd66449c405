//! Breaks text into lines that fit a given display width.
//!
//! Widths are counted in terminal columns: East Asian wide and fullwidth
//! characters take two columns, and line breaks honour the usual
//! prohibitions (no opening bracket at the end of a line, no closing
//! punctuation at its start). [`LineIter`] produces the lines one by one and
//! can indent them from any line onward.
//!
//! What [`LineIter`] does is given by the state machine in [`model`]. What
//! that machine keeps true is proved in [`invariants`], [`content`] and
//! [`spaces`], and what holds of the lines that come out of it is stated in
//! [`laws`].

pub mod char_buffer;
pub mod content;
pub mod cursor;
pub mod invariants;
pub mod laws;
pub mod line_iter;
pub mod linebreak;
pub mod model;
pub mod spaces;
pub mod terminal;
pub mod unicode;

pub use char_buffer::CharBuffer;
pub use line_iter::LineIter;
pub use linebreak::{line_break_opportunity, LboState, LboType};
pub use terminal::{term_cols, term_size, Size};
pub use unicode::{char_width, is_print, text_width};
