//! Line breaking with the stricter bound: a line of more than one word
//! stays below the maximum width, so that a word that would fill a line
//! exactly begins the next one. Everything else is as in `text`.

use crate::text::lines;
use vstd::prelude::*;

pub use crate::text::BoundedLinesIter;

verus! {

/// Texts that can be broken into lines that stay below a width.
pub trait BoundedLinesV2<'a, F> where Self: 'a, F: Fn(char) -> u32 {
    /// Measures each character of the text once, in order, with `get_width`,
    /// and returns the lines into which the text is broken so that every
    /// line of more than one word is less wide than `max_width`.
    fn bounded_lines_v2(&self, max_width: u32, get_width: F) -> (iter: BoundedLinesIter<'a>)
        requires
            forall|c: char| call_requires(get_width, (c,)),
        ensures
            iter.limit() == max_width - 1,
            iter.widths().len() == iter.text().len(),
            forall|i: int|
                0 <= i < iter.text().len() ==> call_ensures(
                    get_width,
                    (iter.text()[i],),
                    #[trigger] iter.widths()[i],
                ),
            iter.remaining() == lines(iter.text(), iter.widths(), max_width - 1),
    ;
}

impl<'a, F> BoundedLinesV2<'a, F> for &'a str where F: Fn(char) -> u32 {
    fn bounded_lines_v2(&self, max_width: u32, get_width: F) -> (iter: BoundedLinesIter<'a>)
        ensures
            iter.text() == self@,
    {
        BoundedLinesIter::measured(*self, max_width as i64 - 1, get_width)
    }
}

} // verus!
