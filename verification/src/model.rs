//! The line breaker as a state machine over sequences of characters.
//!
//! [`next_spec`] says what one call of [`crate::LineIter::next`] returns and
//! what it leaves behind. It either cuts a line off content that is already
//! too wide ([`split_index_spec`]), or reads the text character by character
//! ([`feed_spec`]) until one of them completes a line.

use crate::char_buffer::{trim_end, trimmed_range};
use crate::linebreak::{classify, pairing_ok, LboState, LboType};
use crate::unicode::{char_width_spec, text_width_spec};
use vstd::prelude::*;

verus! {

/// What a line iterator holds between two calls.
pub struct LineState {
    /// The part of the text that has not been read yet.
    pub rest: Seq<char>,
    /// The characters read that are in no line yet.
    pub buffer: Seq<char>,
    /// Where in the buffer the line can be broken; 0 if nowhere.
    pub lbo_pos: nat,
    /// The line width in columns.
    pub width: nat,
    /// What every line that is not empty begins with.
    pub indent: Seq<char>,
    /// The counter of open `"` marks.
    pub open_quot: u8,
    /// The counter of open `'` marks.
    pub open_apos: u8,
    /// Whether a line is still to come.
    pub has_next: bool,
}

/// What changes while the text is read within one call.
pub struct Scan {
    /// The characters read that are in no line yet.
    pub buffer: Seq<char>,
    /// The width that is settled: that of the buffer up to the break
    /// position, or, where that is 0, up to any place.
    pub finalized: nat,
    /// The width of the rest of the buffer.
    pub pending: nat,
    /// Where in the buffer the line can be broken; 0 if nowhere.
    pub lbo_pos: nat,
    /// The classifier's state after the character read last.
    pub lbo: LboState,
}

/// What reading one character leads to: the state after it, and the content
/// of the line that it completed, if it completed one.
pub struct Fed {
    pub scan: Scan,
    pub content: Option<Seq<char>>,
}

/// What reading on leads to: the state and the unread text when a line was
/// completed (`content` holds what is in it) or the text ran out (`content`
/// is `None`).
pub struct Scanned {
    pub scan: Scan,
    pub rest: Seq<char>,
    pub content: Option<Seq<char>>,
}

/// What one call leads to: the state after it, and the content of the line
/// that it returns, which is the line without its indent.
pub struct Step {
    pub state: LineState,
    pub content: Option<Seq<char>>,
}

impl Step {
    /// The line that the call returns: the content behind `indent`.
    pub open spec fn line(self, indent: Seq<char>) -> Option<Seq<char>> {
        match self.content {
            Some(content) => Some(indented(indent, content)),
            None => None,
        }
    }
}

/// Every character of `text` takes at least one column.
pub open spec fn all_visible(text: Seq<char>) -> bool {
    forall|i: int| 0 <= i < text.len() ==> char_width_spec(#[trigger] text[i]) >= 1
}

/// A line as it is returned: the content behind the indent, or nothing at
/// all where the content is empty.
pub open spec fn indented(indent: Seq<char>, content: Seq<char>) -> Seq<char> {
    if content.len() == 0 {
        content
    } else {
        indent + content
    }
}

/// Where to cut `buffer` so that what stays behind the cut is at least
/// `excess` columns wide: the cut goes backward from the end, one character
/// at a time, until that much width lies behind it. It is 0 where the whole
/// buffer is narrower than `excess`.
pub open spec fn split_index_spec(buffer: Seq<char>, excess: nat) -> nat
    decreases buffer.len(),
{
    if excess == 0 || buffer.len() == 0 {
        buffer.len()
    } else if excess <= char_width_spec(buffer.last()) {
        (buffer.len() - 1) as nat
    } else {
        split_index_spec(buffer.drop_last(), (excess - char_width_spec(buffer.last())) as nat)
    }
}

impl LineState {
    /// The state of a new iterator over `text`.
    pub open spec fn start(text: Seq<char>, width: nat, indent: Seq<char>) -> LineState {
        LineState {
            rest: text,
            buffer: Seq::empty(),
            lbo_pos: 0,
            width,
            indent,
            open_quot: 0,
            open_apos: 0,
            has_next: true,
        }
    }

    /// The state after an indent has been offered: it is taken if it leaves
    /// at least one column of the line free, and nothing changes if not.
    pub open spec fn with_indent(self, indent: Seq<char>) -> LineState {
        if text_width_spec(indent) < self.width {
            LineState { indent, ..self }
        } else {
            self
        }
    }

    /// The columns that are left for the content of a line.
    pub open spec fn limit(self) -> nat {
        (self.width - text_width_spec(self.indent)) as nat
    }

    /// The indent leaves at least one column free; the buffer holds only
    /// characters that take space, no more of them than the line width, and
    /// is at most two columns wider; the break position is 0 or the end of
    /// the buffer; and the counters of open marks are a pair that can occur.
    pub open spec fn wf(self) -> bool {
        &&& text_width_spec(self.indent) < self.width
        &&& all_visible(self.buffer)
        &&& self.buffer.len() <= self.width
        &&& text_width_spec(self.buffer) <= self.width + 2
        &&& (self.lbo_pos == 0 || self.lbo_pos == self.buffer.len())
        &&& pairing_ok(self.open_quot, self.open_apos)
    }

    /// The state in which reading starts: nothing is pending, and for the
    /// classifier no character has come before.
    pub open spec fn scan(self) -> Scan {
        Scan {
            buffer: self.buffer,
            finalized: text_width_spec(self.buffer),
            pending: 0,
            lbo_pos: self.lbo_pos,
            lbo: LboState {
                lbo_type: LboType::Never,
                lbo_prev: LboType::Never,
                open_apos: self.open_apos,
                open_quot: self.open_quot,
            },
        }
    }
}

impl Scan {
    /// The two widths add up to the width of the buffer, which fits in
    /// `limit`; up to a break position other than 0 the buffer is as wide as
    /// `finalized` says; and the buffer holds only characters that take
    /// space.
    pub open spec fn wf(self, limit: nat) -> bool {
        &&& limit >= 1
        &&& self.finalized + self.pending == text_width_spec(self.buffer)
        &&& self.finalized + self.pending <= limit
        &&& self.lbo_pos <= self.buffer.len()
        &&& self.lbo_pos > 0 ==> self.finalized == text_width_spec(
            self.buffer.subrange(0, self.lbo_pos as int),
        )
        &&& all_visible(self.buffer)
        &&& self.lbo.wf()
    }

    /// The buffer as a line would leave it: everything is finalized.
    pub open spec fn settled(self) -> bool {
        &&& self.pending == 0
        &&& self.finalized == text_width_spec(self.buffer)
        &&& (self.lbo_pos == 0 || self.lbo_pos == self.buffer.len())
        &&& all_visible(self.buffer)
        &&& self.lbo.wf()
    }
}

/// The state after a line terminator: the buffer is empty and no quotation
/// is open.
pub open spec fn after_break(lbo: LboState) -> Scan {
    Scan {
        buffer: Seq::empty(),
        finalized: 0,
        pending: 0,
        lbo_pos: 0,
        lbo: LboState { open_apos: 0, open_quot: 0, ..lbo },
    }
}

/// The state after a character that fits in the line. A character that
/// takes no space is left out of the buffer. The break position moves in
/// front of a character that may be broken before (of several such in a row,
/// in front of the first), and behind one that may be broken after or is
/// white space.
pub open spec fn after_fit(scan: Scan, lbo: LboState, ch: char) -> Scan {
    let w = char_width_spec(ch);
    let at = scan.buffer.len();
    let buffer = if w > 0 {
        scan.buffer.push(ch)
    } else {
        scan.buffer
    };
    match lbo.lbo_type {
        LboType::Before => if lbo.lbo_prev != LboType::Before {
            Scan { buffer, finalized: scan.finalized + scan.pending, pending: w, lbo_pos: at, lbo }
        } else {
            Scan { buffer, pending: scan.pending + w, lbo, ..scan }
        },
        LboType::Both => Scan {
            buffer,
            finalized: scan.finalized + scan.pending,
            pending: w,
            lbo_pos: at,
            lbo,
        },
        LboType::After | LboType::Space => Scan {
            buffer,
            finalized: scan.finalized + scan.pending + w,
            pending: 0,
            lbo_pos: buffer.len(),
            lbo,
        },
        _ => Scan { buffer, pending: scan.pending + w, lbo, ..scan },
    }
}

/// Where the line ends when `ch` does not fit: in front of `ch` if it is
/// white space or may be broken before, else at the break position; and at
/// the end of the buffer if that leaves nothing for the line.
pub open spec fn cut(scan: Scan, kind: LboType) -> nat {
    let at = match kind {
        LboType::Before | LboType::Both | LboType::Space => scan.buffer.len(),
        _ => scan.lbo_pos,
    };
    if at == 0 {
        scan.buffer.len()
    } else {
        at
    }
}

/// The state after a character that does not fit, and the line that it
/// completes.
///
/// Behind an opening mark the line is not broken: it ends at the break
/// position that was found in front of the marks, and they go to the next
/// line with `ch`. Else the line ends at [`cut`]. White space is dropped; a
/// character that may be broken before begins the next line; any other one
/// follows what the cut left in the buffer, and a break position is behind
/// it only if it may be broken after.
pub open spec fn after_overflow(scan: Scan, lbo: LboState, ch: char) -> Fed {
    let w = char_width_spec(ch);
    let len = scan.buffer.len() as int;
    if lbo.lbo_prev == LboType::Before && scan.lbo_pos > 0 {
        let buffer = scan.buffer.subrange(scan.lbo_pos as int, len).push(ch);
        Fed {
            scan: Scan {
                buffer,
                finalized: scan.pending + w,
                pending: 0,
                lbo_pos: buffer.len(),
                lbo,
            },
            content: Some(trimmed_range(scan.buffer, 0, scan.lbo_pos as int)),
        }
    } else {
        let at = cut(scan, lbo.lbo_type);
        let pending = if at == scan.lbo_pos {
            scan.pending
        } else {
            0
        };
        let kept = scan.buffer.subrange(at as int, len);
        let content = Some(trimmed_range(scan.buffer, 0, at as int));
        match lbo.lbo_type {
            LboType::Space => Fed {
                scan: Scan { buffer: kept, finalized: 0, pending: 0, lbo_pos: 0, lbo },
                content,
            },
            LboType::Before | LboType::Both => Fed {
                scan: Scan { buffer: kept.push(ch), finalized: w, pending: 0, lbo_pos: 0, lbo },
                content,
            },
            LboType::After => Fed {
                scan: Scan {
                    buffer: kept.push(ch),
                    finalized: pending + w,
                    pending: 0,
                    lbo_pos: kept.len() + 1,
                    lbo,
                },
                content,
            },
            _ => Fed {
                scan: Scan {
                    buffer: kept.push(ch),
                    finalized: pending + w,
                    pending: 0,
                    lbo_pos: 0,
                    lbo,
                },
                content,
            },
        }
    }
}

/// Reads one character. A line terminator completes a line with the whole
/// buffer. White space in front of a line is skipped. A character that
/// would make the buffer wider than `limit` completes a line
/// ([`after_overflow`]); any other one joins the buffer ([`after_fit`]).
pub open spec fn feed_spec(scan: Scan, limit: nat, ch: char) -> Fed {
    let lbo = classify(ch, scan.lbo);
    if lbo.lbo_type == LboType::Break {
        Fed { scan: after_break(lbo), content: Some(trim_end(scan.buffer)) }
    } else if scan.buffer.len() == 0 && lbo.lbo_type == LboType::Space {
        Fed { scan: Scan { lbo, ..scan }, content: None }
    } else if scan.finalized + scan.pending + char_width_spec(ch) > limit {
        after_overflow(scan, lbo, ch)
    } else {
        Fed { scan: after_fit(scan, lbo, ch), content: None }
    }
}

/// Reads `rest` up to the character that completes a line, or up to its end.
pub open spec fn scan_spec(scan: Scan, limit: nat, rest: Seq<char>) -> Scanned
    decreases rest.len(),
{
    if rest.len() == 0 {
        Scanned { scan, rest, content: None }
    } else {
        let fed = feed_spec(scan, limit, rest[0]);
        if fed.content is Some {
            Scanned { scan: fed.scan, rest: rest.drop_first(), content: fed.content }
        } else {
            scan_spec(fed.scan, limit, rest.drop_first())
        }
    }
}

/// Cuts a line off a buffer that is `limit` columns wide or wider without
/// reading on. The line gets as much from the front of the buffer as fits in
/// `limit`, by [`split_index_spec`], but at least one character, so that a
/// character wider than `limit` gets a line of its own.
pub open spec fn carry_over(state: LineState) -> Step {
    let excess = (text_width_spec(state.buffer) - state.limit()) as nat;
    let found = split_index_spec(state.buffer, excess);
    let at = if found == 0 {
        1
    } else {
        found
    };
    let kept = state.buffer.subrange(at as int, state.buffer.len() as int);
    Step {
        state: LineState {
            buffer: kept,
            lbo_pos: if state.lbo_pos == 0 {
                0
            } else {
                kept.len()
            },
            ..state
        },
        content: Some(trimmed_range(state.buffer, 0, at as int)),
    }
}

/// One call. Once the last line is out, there is no line and nothing
/// changes. A buffer that has become too wide for a line gives the line
/// ([`carry_over`]). Else the text is read on ([`scan_spec`]) until a
/// character completes a line; where the text runs out first, what is left
/// in the buffer is the last line, be it empty.
pub open spec fn next_spec(state: LineState) -> Step {
    if !state.has_next {
        Step { state, content: None }
    } else if text_width_spec(state.buffer) >= state.limit() {
        carry_over(state)
    } else {
        let found = scan_spec(state.scan(), state.limit(), state.rest);
        match found.content {
            Some(content) => Step {
                state: LineState {
                    rest: found.rest,
                    buffer: found.scan.buffer,
                    lbo_pos: found.scan.lbo_pos,
                    open_quot: found.scan.lbo.open_quot,
                    open_apos: found.scan.lbo.open_apos,
                    ..state
                },
                content: Some(content),
            },
            None => Step {
                state: LineState {
                    rest: Seq::empty(),
                    buffer: Seq::empty(),
                    lbo_pos: 0,
                    has_next: false,
                    ..state
                },
                content: Some(trim_end(found.scan.buffer)),
            },
        }
    }
}

} // verus!
