//! Reading a string slice one character at a time.

use vstd::prelude::*;
use vstd::string::StrSliceExecFns;
use vstd::string::StringSliceAdditionalSpecFns;
use vstd::utf8::*;

verus! {

/// The number of bytes that the UTF-8 encoding of `ch` takes.
pub fn utf8_len(ch: char) -> (n: usize)
    ensures
        n == encode_scalar(ch as u32).len(),
        1 <= n <= 4,
{
    let code: u32 = ch as u32;
    proof {
        char_is_scalar(ch);
    }
    if code < 0x80 {
        1
    } else if code < 0x800 {
        2
    } else if code < 0x1_0000 {
        3
    } else {
        4
    }
}

/// Splits the first character off `text`. The result is `None` exactly when
/// `text` is empty; otherwise it holds the first character and the rest of
/// the text, which still borrows from `text` and is never copied.
pub fn next_char<'a>(text: &'a str) -> (r: Option<(char, &'a str)>)
    ensures
        match r {
            None => text@.len() == 0,
            Some((ch, tail)) => text@.len() > 0 && ch == text@[0] && tail@ == text@.drop_first(),
        },
{
    if text.is_empty() {
        return None;
    }
    let ch = text.get_char(0);
    let n = utf8_len(ch);
    proof {
        let bytes = text.spec_bytes();
        encode_utf8_valid_utf8(text@);
        encode_utf8_first_scalar(text@);
        reveal_with_fuel(is_char_boundary, 3);
        is_char_boundary_start_end_of_seq(pop_first_scalar(bytes));
        assert(is_char_boundary(bytes, n as int));
    }
    let (_, tail) = text.split_at(n);
    proof {
        let bytes = text.spec_bytes();
        assert(pop_first_scalar(bytes) =~= encode_utf8(text@.drop_first()));
        assert(tail.spec_bytes() =~= pop_first_scalar(bytes));
        encode_utf8_decode_utf8(tail@);
        encode_utf8_decode_utf8(text@.drop_first());
    }
    Some((ch, tail))
}

} // verus!
