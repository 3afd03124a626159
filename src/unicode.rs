use vstd::prelude::*;

verus! {

/// The column count that `unicode_width` gives one character, or `None` for a
/// control code.
pub uninterp spec fn unicode_width_of(c: char) -> Option<usize>;

/// Relies on `unicode_width::UnicodeWidthChar::width` for `char`: the result
/// depends on the character alone; U+0020..=U+007E take one column, and
/// U+0000..=U+001F and U+007F..=U+009F are control codes with no width.
#[verifier::external_body]
pub(crate) fn char_width(c: char) -> (r: Option<usize>)
    ensures
        r == unicode_width_of(c),
        ' ' <= c && c <= '~' ==> r == Some(1usize),
        c < ' ' || ('\x7f' <= c && c < '\u{a0}') ==> r is None,
{
    unicode_width::UnicodeWidthChar::width(c)
}

} // verus!
