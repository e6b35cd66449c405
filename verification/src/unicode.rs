//! Which characters are printed, and how many columns each one takes.
//!
//! The two Unicode properties that decide this, General_Category and
//! East_Asian_Width, are looked up in the tables of the `icu` crate. Each
//! property value is handled as the number that `icu` gives it.

use crate::cursor::next_char;
use vstd::prelude::*;

verus! {

/// General_Category `Lu`, an uppercase letter.
pub const GC_UPPERCASE_LETTER: u8 = 1;

/// General_Category `Ll`, a lowercase letter.
pub const GC_LOWERCASE_LETTER: u8 = 2;

/// General_Category `Lt`, a titlecase letter.
pub const GC_TITLECASE_LETTER: u8 = 3;

/// General_Category `Lm`, a modifier letter.
pub const GC_MODIFIER_LETTER: u8 = 4;

/// General_Category `Lo`, any other letter.
pub const GC_OTHER_LETTER: u8 = 5;

/// General_Category `Mn`, a nonspacing mark.
pub const GC_NONSPACING_MARK: u8 = 6;

/// General_Category `Me`, an enclosing mark.
pub const GC_ENCLOSING_MARK: u8 = 7;

/// General_Category `Mc`, a spacing mark.
pub const GC_SPACING_MARK: u8 = 8;

/// General_Category `Nd`, a decimal digit.
pub const GC_DECIMAL_NUMBER: u8 = 9;

/// General_Category `Nl`, a letterlike number.
pub const GC_LETTER_NUMBER: u8 = 10;

/// General_Category `No`, any other number.
pub const GC_OTHER_NUMBER: u8 = 11;

/// General_Category `Pd`, a dash.
pub const GC_DASH_PUNCTUATION: u8 = 19;

/// General_Category `Ps`, an opening bracket.
pub const GC_OPEN_PUNCTUATION: u8 = 20;

/// General_Category `Pe`, a closing bracket.
pub const GC_CLOSE_PUNCTUATION: u8 = 21;

/// General_Category `Pc`, a connector.
pub const GC_CONNECTOR_PUNCTUATION: u8 = 22;

/// General_Category `Po`, any other punctuation.
pub const GC_OTHER_PUNCTUATION: u8 = 23;

/// General_Category `Sm`, a mathematical symbol.
pub const GC_MATH_SYMBOL: u8 = 24;

/// General_Category `Sc`, a currency sign.
pub const GC_CURRENCY_SYMBOL: u8 = 25;

/// General_Category `Sk`, a modifier symbol.
pub const GC_MODIFIER_SYMBOL: u8 = 26;

/// General_Category `So`, any other symbol.
pub const GC_OTHER_SYMBOL: u8 = 27;

/// General_Category `Pi`, an initial quotation mark.
pub const GC_INITIAL_PUNCTUATION: u8 = 28;

/// General_Category `Pf`, a final quotation mark.
pub const GC_FINAL_PUNCTUATION: u8 = 29;

/// East_Asian_Width `N`, neutral.
pub const EAW_NEUTRAL: u8 = 0;

/// East_Asian_Width `A`, ambiguous.
pub const EAW_AMBIGUOUS: u8 = 1;

/// East_Asian_Width `H`, halfwidth.
pub const EAW_HALFWIDTH: u8 = 2;

/// East_Asian_Width `F`, fullwidth.
pub const EAW_FULLWIDTH: u8 = 3;

/// East_Asian_Width `Na`, narrow.
pub const EAW_NARROW: u8 = 4;

/// East_Asian_Width `W`, wide.
pub const EAW_WIDE: u8 = 5;

/// The General_Category of `ch` in the tables of `icu`, as the number of the
/// variant of `icu::properties::GeneralCategory`.
pub uninterp spec fn general_category(ch: char) -> u8;

/// The East_Asian_Width of `ch` in the tables of `icu`, as the number inside
/// the `icu::properties::EastAsianWidth` value.
pub uninterp spec fn east_asian_width(ch: char) -> u8;

/// Whether `char::is_whitespace` holds of `ch`.
pub uninterp spec fn white_space(ch: char) -> bool;

/// Looks `ch` up in the General_Category map that
/// `icu::properties::maps::general_category` returns, with the map's `get`.
/// Trusted: the result is the number of the enum variant found there, which
/// depends on `ch` alone because the map is compiled into `icu`.
#[verifier::external_body]
pub(crate) fn lookup_general_category(ch: char) -> (code: u8)
    ensures
        code == general_category(ch),
{
    icu::properties::maps::general_category().get(ch) as u8
}

/// Looks `ch` up in the East_Asian_Width map that
/// `icu::properties::maps::east_asian_width` returns, with the map's `get`.
/// Trusted: the result is the number held by the value found there, which
/// depends on `ch` alone because the map is compiled into `icu`.
#[verifier::external_body]
pub(crate) fn lookup_east_asian_width(ch: char) -> (code: u8)
    ensures
        code == east_asian_width(ch),
{
    icu::properties::maps::east_asian_width().get(ch).0
}

/// Calls `char::is_whitespace`. Trusted: the result is a fixed property of
/// `ch`, the Unicode White_Space property as std implements it.
#[verifier::external_body]
pub(crate) fn is_whitespace(ch: char) -> (b: bool)
    ensures
        b == white_space(ch),
{
    ch.is_whitespace()
}

/// The categories of the characters that are printed: letters, marks,
/// numbers, punctuation and symbols.
pub open spec fn printable_category(code: u8) -> bool {
    ||| code == GC_UPPERCASE_LETTER
    ||| code == GC_LOWERCASE_LETTER
    ||| code == GC_TITLECASE_LETTER
    ||| code == GC_MODIFIER_LETTER
    ||| code == GC_OTHER_LETTER
    ||| code == GC_NONSPACING_MARK
    ||| code == GC_ENCLOSING_MARK
    ||| code == GC_SPACING_MARK
    ||| code == GC_DECIMAL_NUMBER
    ||| code == GC_LETTER_NUMBER
    ||| code == GC_OTHER_NUMBER
    ||| code == GC_DASH_PUNCTUATION
    ||| code == GC_OPEN_PUNCTUATION
    ||| code == GC_CLOSE_PUNCTUATION
    ||| code == GC_CONNECTOR_PUNCTUATION
    ||| code == GC_OTHER_PUNCTUATION
    ||| code == GC_MATH_SYMBOL
    ||| code == GC_CURRENCY_SYMBOL
    ||| code == GC_MODIFIER_SYMBOL
    ||| code == GC_OTHER_SYMBOL
    ||| code == GC_INITIAL_PUNCTUATION
    ||| code == GC_FINAL_PUNCTUATION
}

/// A character is printed if it is the ASCII space or its category is a
/// printable one. No other separator and no control character is printed.
pub open spec fn is_print_spec(ch: char) -> bool {
    ch == ' ' || printable_category(general_category(ch))
}

/// Whether a character with this East_Asian_Width takes two columns:
/// fullwidth, wide, and also ambiguous, as terminals for East Asian text
/// render it. A number that is no East_Asian_Width counts as two columns too.
pub open spec fn two_columns(width_code: u8) -> bool {
    width_code != EAW_HALFWIDTH && width_code != EAW_NARROW && width_code != EAW_NEUTRAL
}

/// The columns that `ch` takes: none if it is not printed, else one or two.
pub open spec fn char_width_spec(ch: char) -> nat {
    if !is_print_spec(ch) {
        0
    } else if two_columns(east_asian_width(ch)) {
        2
    } else {
        1
    }
}

/// The columns that a text takes: the sum over its characters.
pub open spec fn text_width_spec(text: Seq<char>) -> nat
    decreases text.len(),
{
    if text.len() == 0 {
        0
    } else {
        char_width_spec(text[0]) + text_width_spec(text.drop_first())
    }
}

/// Checks whether `ch` is printed: the ASCII space, or a letter, mark,
/// number, punctuation or symbol.
pub fn is_print(ch: char) -> (printed: bool)
    ensures
        printed == is_print_spec(ch),
{
    if ch == ' ' {
        return true;
    }
    let code = lookup_general_category(ch);
    code == GC_UPPERCASE_LETTER || code == GC_LOWERCASE_LETTER || code == GC_TITLECASE_LETTER
        || code == GC_MODIFIER_LETTER || code == GC_OTHER_LETTER || code == GC_NONSPACING_MARK
        || code == GC_ENCLOSING_MARK || code == GC_SPACING_MARK || code == GC_DECIMAL_NUMBER
        || code == GC_LETTER_NUMBER || code == GC_OTHER_NUMBER || code == GC_DASH_PUNCTUATION
        || code == GC_OPEN_PUNCTUATION || code == GC_CLOSE_PUNCTUATION
        || code == GC_CONNECTOR_PUNCTUATION || code == GC_OTHER_PUNCTUATION
        || code == GC_MATH_SYMBOL || code == GC_CURRENCY_SYMBOL || code == GC_MODIFIER_SYMBOL
        || code == GC_OTHER_SYMBOL || code == GC_INITIAL_PUNCTUATION
        || code == GC_FINAL_PUNCTUATION
}

/// Returns the display width of `ch` in columns: 0, 1 or 2.
pub fn char_width(ch: char) -> (width: usize)
    ensures
        width == char_width_spec(ch),
        width <= 2,
{
    if !is_print(ch) {
        return 0;
    }
    let code = lookup_east_asian_width(ch);
    if code == EAW_HALFWIDTH || code == EAW_NARROW || code == EAW_NEUTRAL {
        1
    } else {
        2
    }
}

/// The width of a text is the sum of the widths of its two parts.
pub proof fn lemma_text_width_concat(a: Seq<char>, b: Seq<char>)
    ensures
        text_width_spec(a + b) == text_width_spec(a) + text_width_spec(b),
    decreases a.len(),
{
    if a.len() == 0 {
        assert(a + b =~= b);
    } else {
        assert((a + b).drop_first() =~= a.drop_first() + b);
        lemma_text_width_concat(a.drop_first(), b);
    }
}

/// Appending one character adds its width.
pub proof fn lemma_text_width_push(text: Seq<char>, ch: char)
    ensures
        text_width_spec(text.push(ch)) == text_width_spec(text) + char_width_spec(ch),
{
    let one = seq![ch];
    assert(one.drop_first() =~= Seq::<char>::empty());
    assert(text_width_spec(one.drop_first()) == 0);
    assert(text_width_spec(one) == char_width_spec(one[0]) + text_width_spec(one.drop_first()));
    assert(text.push(ch) =~= text + one);
    lemma_text_width_concat(text, one);
}

/// Cutting a text in two at `at` splits its width.
pub proof fn lemma_text_width_split(text: Seq<char>, at: int)
    requires
        0 <= at <= text.len(),
    ensures
        text_width_spec(text) == text_width_spec(text.subrange(0, at)) + text_width_spec(
            text.subrange(at, text.len() as int),
        ),
{
    assert(text =~= text.subrange(0, at) + text.subrange(at, text.len() as int));
    lemma_text_width_concat(text.subrange(0, at), text.subrange(at, text.len() as int));
}

/// Returns the display width of `text`, the sum of the widths of its
/// characters, if that sum is at most `limit`, and `None` if it is more.
pub fn text_width_within(text: &str, limit: usize) -> (r: Option<usize>)
    ensures
        text_width_spec(text@) <= limit ==> r == Some(text_width_spec(text@) as usize),
        text_width_spec(text@) > limit ==> r is None,
{
    let mut rest = text;
    let mut width: usize = 0;
    loop
        invariant
            width + text_width_spec(rest@) == text_width_spec(text@),
            width <= limit,
        decreases rest@.len(),
    {
        match next_char(rest) {
            None => {
                return Some(width);
            },
            Some((ch, tail)) => {
                let w = char_width(ch);
                if w > limit - width {
                    return None;
                }
                width = width + w;
                rest = tail;
            },
        }
    }
}

/// Returns the display width of `text`: the sum of the widths of its
/// characters. The sum has to fit in a `usize`.
pub fn text_width(text: &str) -> (width: usize)
    requires
        text_width_spec(text@) <= usize::MAX,
    ensures
        width == text_width_spec(text@),
{
    match text_width_within(text, usize::MAX) {
        Some(width) => width,
        None => 0,
    }
}

} // verus!
