//! Validation of terminal geometry and choice of the initial PTY size.

use vstd::prelude::*;

verus! {

/// Smallest accepted number of columns.
pub const MIN_COLS: u16 = 10;
/// Smallest accepted number of rows.
pub const MIN_ROWS: u16 = 5;
/// Largest accepted number of columns.
pub const MAX_COLS: u16 = 1000;
/// Largest accepted number of rows.
pub const MAX_ROWS: u16 = 1000;

/// A size (cols, rows) is acceptable for the PTY iff both coordinates lie in
/// their closed bounds. Zero values are therefore never acceptable.
pub open spec fn valid_size(cols: u16, rows: u16) -> bool {
    &&& MIN_COLS <= cols <= MAX_COLS
    &&& MIN_ROWS <= rows <= MAX_ROWS
}

/// Validates terminal size to prevent abuse or invalid values.
pub fn is_valid_terminal_size(cols: u16, rows: u16) -> (r: bool)
    ensures
        r == valid_size(cols, rows),
{
    if cols == 0 || rows == 0 {
        return false;
    }
    MIN_COLS <= cols && cols <= MAX_COLS && MIN_ROWS <= rows && rows <= MAX_ROWS
}

/// The size the PTY is opened with: the configured headless geometry when the
/// session is headless, else the host terminal's size, else a default of
/// 80 by 25 when the host terminal cannot be measured.
pub fn initial_size(headless: bool, headless_cols: u16, headless_rows: u16, term: Option<(u16, u16)>) -> (r: (u16, u16))
    ensures
        headless ==> r == (headless_cols, headless_rows),
        !headless && term is Some ==> r == term->0,
        !headless && term is None ==> r == (80u16, 25u16),
{
    if headless {
        (headless_cols, headless_rows)
    } else {
        match term {
            Some(s) => s,
            None => (80, 25),
        }
    }
}

} // verus!
