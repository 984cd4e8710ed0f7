//! Progress arithmetic for the transient per-chunk status line.
//!
//! The shell renders the line; the library computes the numbers: the
//! percentage of bytes moved so far and the width of the blank line that
//! overwrites the previous status.

use vstd::prelude::*;

verus! {

/// Width assumed when the terminal does not report one.
pub const FALLBACK_WIDTH: usize = 86;

/// The column count to clear: the reported terminal width, or
/// [`FALLBACK_WIDTH`] when none is available.
pub fn effective_width(reported: Option<u16>) -> (w: usize)
    ensures
        w == match reported {
            Some(c) => c as usize,
            None => FALLBACK_WIDTH as usize,
        },
{
    match reported {
        Some(c) => c as usize,
        None => FALLBACK_WIDTH,
    }
}

/// Percentage of a transfer that is complete, rounded down.
pub fn progress_percent(copied: u64, total: u64) -> (p: u64)
    requires
        total > 0,
        copied <= total,
    ensures
        p == copied as int * 100 / total as int,
        p <= 100,
{
    let wide: u128 = (copied as u128) * 100 / (total as u128);
    proof {
        assert(copied as int * 100 / total as int <= 100) by (nonlinear_arith)
            requires
                total > 0,
                copied <= total,
        ;
    }
    wide as u64
}

} // verus!
