//! The line break opportunity of each character.
//!
//! A text is classified one character at a time. What a character allows
//! depends on the character alone, except for the two ASCII quotation marks:
//! whether one of them opens or closes a quotation depends on the marks that
//! came before it, which [`LboState`] keeps track of.

use crate::unicode::{
    east_asian_width, is_whitespace, lookup_east_asian_width, white_space, EAW_FULLWIDTH,
    EAW_WIDE,
};
use vstd::prelude::*;

verus! {

/// Where a line may be broken next to a character.
#[derive(Copy, Clone, Debug, PartialEq, Eq, Structural)]
pub enum LboType {
    /// Neither before nor after the character.
    Never,
    /// Before the character only.
    Before,
    /// After the character only.
    After,
    /// Before and after the character.
    Both,
    /// The character ends the line and is not part of any line.
    Break,
    /// The character is white space: a line may end here, and the space goes.
    Space,
}

/// What the classifier remembers between two characters.
pub struct LboState {
    /// The opportunity of the character classified last.
    pub lbo_type: LboType,
    /// The opportunity of the character classified before that one.
    pub lbo_prev: LboType,
    /// 0: no `'` is open, 1: one is open, 2: one is open inside `"..."`.
    pub open_apos: u8,
    /// 0: no `"` is open, 1: one is open, 2: one is open inside `'...'`.
    pub open_quot: u8,
}

/// The characters that end a line: LF and CR.
pub const LBO_BREAKS: [char; 2] = ['\u{000A}', '\u{000D}'];

/// The opening brackets and quotation marks. A line may be broken before
/// one of them, not after it.
pub const LBO_BEFORES: [char; 14] = [
    '\u{0028}',
    '\u{005B}',
    '\u{007B}',
    '\u{00AB}',
    '\u{3008}',
    '\u{300A}',
    '\u{300C}',
    '\u{300E}',
    '\u{3010}',
    '\u{3014}',
    '\u{3016}',
    '\u{3018}',
    '\u{301D}',
    '\u{FF5F}',
];

/// The closing brackets, the punctuation marks and the small kana. A line
/// may be broken after one of them, not before it. A character that is also
/// in [`LBO_BEFORES`] counts as an opening one.
pub const LBO_AFTERS: [char; 51] = [
    '\u{0021}',
    '\u{0029}',
    '\u{002C}',
    '\u{002E}',
    '\u{002F}',
    '\u{003A}',
    '\u{003B}',
    '\u{003F}',
    '\u{30A0}',
    '\u{30A1}',
    '\u{30A3}',
    '\u{30A5}',
    '\u{30A7}',
    '\u{30A9}',
    '\u{30C3}',
    '\u{30E3}',
    '\u{30E5}',
    '\u{30E7}',
    '\u{30EE}',
    '\u{30F5}',
    '\u{30F6}',
    '\u{3041}',
    '\u{3043}',
    '\u{3045}',
    '\u{3047}',
    '\u{3049}',
    '\u{3063}',
    '\u{3083}',
    '\u{3085}',
    '\u{3087}',
    '\u{308E}',
    '\u{3095}',
    '\u{3096}',
    '\u{30FC}',
    '\u{3001}',
    '\u{3002}',
    '\u{3005}',
    '\u{3008}',
    '\u{3009}',
    '\u{300A}',
    '\u{300B}',
    '\u{300C}',
    '\u{300D}',
    '\u{300E}',
    '\u{300F}',
    '\u{3015}',
    '\u{3017}',
    '\u{3019}',
    '\u{301F}',
    '\u{FF09}',
    '\u{FF5D}',
];

/// The opportunity of a character that is not an ASCII quotation mark. The
/// first rule that applies decides: a line terminator, an opening mark, a
/// closing mark, white space, an East Asian wide or fullwidth character.
pub open spec fn plain_kind(ch: char) -> LboType {
    if LBO_BREAKS@.contains(ch) {
        LboType::Break
    } else if LBO_BEFORES@.contains(ch) {
        LboType::Before
    } else if LBO_AFTERS@.contains(ch) {
        LboType::After
    } else if white_space(ch) {
        LboType::Space
    } else if east_asian_width(ch) == EAW_WIDE || east_asian_width(ch) == EAW_FULLWIDTH {
        LboType::Both
    } else {
        LboType::Never
    }
}

/// The pairs of counters that quotation marks can lead to: nothing open, one
/// kind of mark open, or one kind open inside the other.
pub open spec fn pairing_ok(open_quot: u8, open_apos: u8) -> bool {
    ||| open_quot == 0 && open_apos == 0
    ||| open_quot == 1 && open_apos == 0
    ||| open_quot == 0 && open_apos == 1
    ||| open_quot == 1 && open_apos == 2
    ||| open_quot == 2 && open_apos == 1
}

impl LboState {
    /// The counters of open quotation marks are a pair that can occur.
    pub open spec fn wf(&self) -> bool {
        pairing_ok(self.open_quot, self.open_apos)
    }
}

/// The state after `ch`. The opportunity held so far becomes the previous
/// one. A `"` opens a quotation if none is open, one level inside an open
/// `'...'`, and may be broken before; else it closes the quotation, and with
/// it a `'...'` that was opened inside, and may be broken after. A `'` does
/// the same with the two marks exchanged. Any other character leaves the
/// counters alone and gets its [`plain_kind`].
pub open spec fn classify(ch: char, state: LboState) -> LboState {
    if ch == '"' {
        if state.open_quot == 0 {
            LboState {
                lbo_type: LboType::Before,
                lbo_prev: state.lbo_type,
                open_apos: state.open_apos,
                open_quot: (state.open_apos + 1) as u8,
            }
        } else {
            LboState {
                lbo_type: LboType::After,
                lbo_prev: state.lbo_type,
                open_apos: if state.open_quot < state.open_apos {
                    0
                } else {
                    state.open_apos
                },
                open_quot: 0,
            }
        }
    } else if ch == '\'' {
        if state.open_apos == 0 {
            LboState {
                lbo_type: LboType::Before,
                lbo_prev: state.lbo_type,
                open_apos: (state.open_quot + 1) as u8,
                open_quot: state.open_quot,
            }
        } else {
            LboState {
                lbo_type: LboType::After,
                lbo_prev: state.lbo_type,
                open_apos: 0,
                open_quot: if state.open_apos < state.open_quot {
                    0
                } else {
                    state.open_quot
                },
            }
        }
    } else {
        LboState {
            lbo_type: plain_kind(ch),
            lbo_prev: state.lbo_type,
            open_apos: state.open_apos,
            open_quot: state.open_quot,
        }
    }
}

/// Classifying a character leads from a pair of counters that can occur to
/// one that can occur, so the counters never leave 0, 1 and 2.
pub proof fn lemma_classify_keeps_pairing(ch: char, state: LboState)
    requires
        state.wf(),
    ensures
        classify(ch, state).wf(),
{
}

/// Only the two ASCII quotation marks change the counters.
pub proof fn lemma_only_quotes_change_pairing(ch: char, state: LboState)
    requires
        ch != '"',
        ch != '\'',
    ensures
        classify(ch, state).open_quot == state.open_quot,
        classify(ch, state).open_apos == state.open_apos,
{
}

/// Whether `ch` is one of `candidates`.
pub fn contains(candidates: &[char], ch: char) -> (found: bool)
    ensures
        found == candidates@.contains(ch),
{
    let mut i: usize = 0;
    while i < candidates.len()
        invariant
            i <= candidates@.len(),
            forall|j: int| 0 <= j < i ==> candidates@[j] != ch,
        decreases candidates@.len() - i,
    {
        if candidates[i] == ch {
            return true;
        }
        i += 1;
    }
    false
}

/// Classifies `ch` and updates `state`: see [`classify`].
pub fn line_break_opportunity(ch: char, state: &mut LboState)
    requires
        old(state).wf(),
    ensures
        *final(state) == classify(ch, *old(state)),
        final(state).wf(),
{
    state.lbo_prev = state.lbo_type;
    if ch == '"' {
        if state.open_quot == 0 {
            state.open_quot = state.open_apos + 1;
            state.lbo_type = LboType::Before;
        } else {
            if state.open_quot < state.open_apos {
                state.open_apos = 0;
            }
            state.open_quot = 0;
            state.lbo_type = LboType::After;
        }
    } else if ch == '\'' {
        if state.open_apos == 0 {
            state.open_apos = state.open_quot + 1;
            state.lbo_type = LboType::Before;
        } else {
            if state.open_apos < state.open_quot {
                state.open_quot = 0;
            }
            state.open_apos = 0;
            state.lbo_type = LboType::After;
        }
    } else if contains(&LBO_BREAKS, ch) {
        state.lbo_type = LboType::Break;
    } else if contains(&LBO_BEFORES, ch) {
        state.lbo_type = LboType::Before;
    } else if contains(&LBO_AFTERS, ch) {
        state.lbo_type = LboType::After;
    } else if is_whitespace(ch) {
        state.lbo_type = LboType::Space;
    } else {
        let width_code = lookup_east_asian_width(ch);
        if width_code == EAW_WIDE || width_code == EAW_FULLWIDTH {
            state.lbo_type = LboType::Both;
        } else {
            state.lbo_type = LboType::Never;
        }
    }
}

} // verus!
