//! The size of the terminal, with the size to assume where it is not known.
//!
//! Asking the terminal is left to the caller, who hands over what it
//! answered, if it answered.

use vstd::prelude::*;

verus! {

/// The number of columns to assume where the terminal does not tell.
pub const DEFAULT_COLS: u16 = 80;

/// The number of rows to assume where the terminal does not tell.
pub const DEFAULT_ROWS: u16 = 24;

/// The size of a terminal.
#[derive(Debug)]
pub struct Size {
    /// The number of columns.
    pub col: u16,
    /// The number of rows.
    pub row: u16,
}

/// The number of columns to work with: what the terminal answered, or
/// [`DEFAULT_COLS`] where it gave no answer.
pub fn term_cols(queried: Option<u16>) -> (cols: usize)
    ensures
        cols == match queried {
            Some(answer) => answer,
            None => DEFAULT_COLS,
        },
{
    match queried {
        Some(answer) => answer as usize,
        None => DEFAULT_COLS as usize,
    }
}

/// The size to work with: what the terminal answered, or [`DEFAULT_COLS`]
/// by [`DEFAULT_ROWS`] where it gave no answer.
pub fn term_size(queried: Option<Size>) -> (size: Size)
    ensures
        size == match queried {
            Some(answer) => answer,
            None => (Size { col: DEFAULT_COLS, row: DEFAULT_ROWS }),
        },
{
    match queried {
        Some(answer) => answer,
        None => Size { col: DEFAULT_COLS, row: DEFAULT_ROWS },
    }
}

} // verus!
