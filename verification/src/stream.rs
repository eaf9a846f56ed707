//! Reading and writing a farbfeld file row by row.
//!
//! [`FarbfeldStreamReader`] parses the header once and then yields one row per
//! call; [`FarbfeldStreamWriter`] mirrors it. Neither holds the whole body.

use vstd::arithmetic::div_mod::{lemma_basic_div, lemma_small_mod};
use vstd::prelude::*;

pub mod reader;
pub mod writer;

pub use reader::FarbfeldStreamReader;
pub use writer::FarbfeldStreamWriter;

verus! {

/// The message for a row whose length does not fit in `usize`.
pub open spec fn row_overflow_text() -> Seq<char> {
    "farbfeld: row size overflows usize"@
}

/// A part of a whole counts no whole.
pub(crate) proof fn lemma_short(part: nat, whole: nat)
    requires
        part < whole,
    ensures
        part / whole == 0,
        part % whole == part,
{
    lemma_basic_div(part as int, whole as int);
    lemma_small_mod(part, whole);
}

} // verus!
