//! Characters together with the two Unicode properties the language reads.
use vstd::prelude::*;

verus! {

/// Whether `c` has the Unicode `White_Space` property, as `char::is_whitespace`
/// reports it.
pub uninterp spec fn white_space(c: char) -> bool;

/// Whether `c` is alphabetic or numeric in Unicode's sense, as
/// `char::is_alphanumeric` reports it.
pub uninterp spec fn alphanumeric(c: char) -> bool;

/// An ASCII character, U+0000 to U+007F.
pub open spec fn is_ascii(c: char) -> bool {
    c <= '\u{7f}'
}

/// The ASCII characters with the `White_Space` property: the space and the
/// five controls from U+0009 (tab) to U+000D (carriage return).
pub open spec fn ascii_white_space(c: char) -> bool {
    c == ' ' || ('\t' <= c && c <= '\r')
}

/// The ASCII characters that are letters or numbers: `0` to `9`, `A` to `Z`
/// and `a` to `z`.
pub open spec fn ascii_alphanumeric(c: char) -> bool {
    ('0' <= c && c <= '9') || ('A' <= c && c <= 'Z') || ('a' <= c && c <= 'z')
}

/// `char::is_whitespace` decides the `White_Space` property from the
/// character alone; its answer is named [`white_space`]. Among the ASCII
/// characters it is true of the space and of U+0009 to U+000D, and of no
/// other.
pub assume_specification[ char::is_whitespace ](c: char) -> (b: bool)
    ensures
        b == white_space(c),
        is_ascii(c) ==> b == ascii_white_space(c),
;

/// `char::is_alphanumeric` decides from the character alone whether it is a
/// letter or a number; its answer is named [`alphanumeric`]. Among the ASCII
/// characters it is true of the digits and of the letters, and of no other.
pub assume_specification[ char::is_alphanumeric ](c: char) -> (b: bool)
    ensures
        b == alphanumeric(c),
        is_ascii(c) ==> b == ascii_alphanumeric(c),
;

/// `String::push` appends one character to the end of the string.
pub assume_specification[ String::push ](s: &mut String, c: char)
    ensures
        final(s)@ == old(s)@.push(c),
;

/// One character of the input and what Unicode says of it.
#[derive(Clone, Copy, Debug, PartialEq, Eq)]
pub struct Cell {
    /// The character itself.
    pub ch: char,
    /// The character counts as white space.
    pub blank: bool,
    /// The character counts as a letter or a number.
    pub alnum: bool,
}

/// The cell that describes `c` truthfully.
pub open spec fn cell_of(c: char) -> Cell {
    Cell { ch: c, blank: white_space(c), alnum: alphanumeric(c) }
}

/// Every character of `text` with its two properties, in order.
pub open spec fn classified(text: Seq<char>) -> Seq<Cell> {
    Seq::new(text.len(), |i: int| cell_of(text[i]))
}

/// Of `c`, if it is an ASCII character, Unicode says what the two lists of
/// ASCII characters say.
pub open spec fn known(c: char) -> bool {
    is_ascii(c) ==> white_space(c) == ascii_white_space(c) && alphanumeric(c)
        == ascii_alphanumeric(c)
}

/// [`known`] of every character of `text`.
pub open spec fn all_known(text: Seq<char>) -> bool {
    forall|i: int| 0 <= i < text.len() ==> known(#[trigger] text[i])
}

/// Every cell says of its character what Unicode says of it.
pub open spec fn truthful(s: Seq<Cell>) -> bool {
    forall|i: int| 0 <= i < s.len() ==> #[trigger] s[i] == cell_of(s[i].ch)
}

/// Classifies one character.
pub fn classify_char(c: char) -> (cell: Cell)
    ensures
        cell == cell_of(c),
        known(c),
{
    Cell { ch: c, blank: c.is_whitespace(), alnum: c.is_alphanumeric() }
}

/// Classifies every character of `text`.
pub fn classify(text: &str) -> (cells: Vec<Cell>)
    ensures
        cells@ == classified(text@),
        truthful(cells@),
        all_known(text@),
{
    let mut cells: Vec<Cell> = Vec::new();
    for c in it: text.chars()
        invariant
            it.seq() == text@,
            cells@ == classified(text@.take(it.index() as int)),
            all_known(text@.take(it.index() as int)),
    {
        cells.push(classify_char(c));
        assert(cells@ =~= classified(text@.take(it.index() + 1)));
    }
    assert(text@.take(text@.len() as int) =~= text@);
    cells
}

} // verus!
