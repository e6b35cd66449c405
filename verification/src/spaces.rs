//! Why no line begins with white space.
//!
//! White space is skipped in front of a line, and it is dropped where it
//! does not fit. It stays at the end of the buffer only where it follows
//! opening marks that went to the next line with it.

use crate::char_buffer::{lemma_trim_end, trim_end, trimmed_range};
use crate::invariants::{
    lemma_carry_over, lemma_cut, lemma_feed, lemma_part_width, lemma_scan, lemma_split_index,
    lemma_start_scan, lemma_visible_width,
};
use crate::linebreak::{classify, plain_kind, LboType, LBO_BEFORES};
use crate::model::{carry_over, cut, feed_spec, next_spec, scan_spec, LineState, Scan};
use crate::unicode::{char_width_spec, lemma_text_width_split, text_width_spec};
use vstd::prelude::*;

verus! {

/// Whether `ch` is read as white space: it is white space, and it is no
/// line terminator and no mark of the tables.
pub open spec fn is_space(ch: char) -> bool {
    ch != '"' && ch != '\'' && plain_kind(ch) == LboType::Space
}

/// Whether `ch` can be read as an opening mark.
pub open spec fn is_opening(ch: char) -> bool {
    ch == '"' || ch == '\'' || LBO_BEFORES@.contains(ch)
}

/// Whether `ch` has a width that goes with what it is read as: an opening
/// mark takes space, and white space takes one column at most. The Unicode
/// tables give every character such a width.
pub open spec fn regular_char(ch: char) -> bool {
    &&& is_opening(ch) ==> char_width_spec(ch) >= 1
    &&& is_space(ch) ==> char_width_spec(ch) <= 1
}

/// Whether every character of `text` is regular: see [`regular_char`].
pub open spec fn regular(text: Seq<char>) -> bool {
    forall|i: int| 0 <= i < text.len() ==> regular_char(#[trigger] text[i])
}

/// Whether `text` begins with white space.
pub open spec fn space_in_front(text: Seq<char>) -> bool {
    text.len() > 0 && is_space(text[0])
}

/// Whether white space is in `buffer` at its end only, and there only
/// behind another character, with the break position behind it and in a
/// buffer that fits in `limit`.
pub open spec fn tidy_buffer(buffer: Seq<char>, lbo_pos: nat, limit: nat) -> bool {
    &&& forall|i: int| 0 <= i < buffer.len() - 1 ==> !is_space(#[trigger] buffer[i])
    &&& buffer.len() > 0 && is_space(buffer.last()) ==> {
        &&& buffer.len() >= 2
        &&& lbo_pos == buffer.len()
        &&& text_width_spec(buffer) <= limit
    }
}

/// Whether the buffer of `state` is tidy: see [`tidy_buffer`].
pub open spec fn tidy(state: LineState) -> bool {
    tidy_buffer(state.buffer, state.lbo_pos, state.limit())
}

/// Whether the buffer of a scan begins with no white space and holds none
/// from the break position on, and the break position is in front of the
/// opening mark that was read last.
pub open spec fn tidy_scan(scan: Scan) -> bool {
    &&& !space_in_front(scan.buffer)
    &&& forall|i: int| scan.lbo_pos <= i < scan.buffer.len() ==> !is_space(#[trigger] scan.buffer[i])
    &&& scan.lbo.lbo_type == LboType::Before ==> scan.lbo_pos < scan.buffer.len()
}

/// A trimmed part from the start of a text begins as the text does.
pub proof fn lemma_trimmed_front(text: Seq<char>, end: int)
    requires
        0 <= end <= text.len(),
    ensures
        trimmed_range(text, 0, end).len() > 0 ==> trimmed_range(text, 0, end)[0] == text[0],
        trim_end(text).len() > 0 ==> trim_end(text)[0] == text[0],
{
    lemma_trim_end(text);
    if 0 < end {
        lemma_trim_end(text.subrange(0, end));
    }
}

/// Reading a regular character keeps a tidy scan tidy. The content that it
/// completes does not begin with white space, and the buffer behind it is
/// tidy.
pub proof fn lemma_feed_tidy(scan: Scan, limit: nat, ch: char)
    requires
        scan.wf(limit),
        tidy_scan(scan),
        regular_char(ch),
    ensures
        ({
            let fed = feed_spec(scan, limit, ch);
            &&& fed.content is None ==> tidy_scan(fed.scan)
            &&& fed.content matches Some(content) ==> {
                &&& !space_in_front(content)
                &&& tidy_buffer(fed.scan.buffer, fed.scan.lbo_pos, limit)
            }
        }),
{
    let fed = feed_spec(scan, limit, ch);
    let lbo = classify(ch, scan.lbo);
    let buffer = scan.buffer;
    let len = buffer.len() as int;
    let w = char_width_spec(ch);
    lemma_feed(scan, limit, ch);
    lemma_trimmed_front(buffer, len);
    lemma_visible_width(buffer);
    if lbo.lbo_type == LboType::Break {
    } else if len == 0 && lbo.lbo_type == LboType::Space {
    } else if scan.finalized + scan.pending + w > limit {
        let after_mark = lbo.lbo_prev == LboType::Before && scan.lbo_pos > 0;
        let at: int = if after_mark {
            scan.lbo_pos as int
        } else {
            cut(scan, lbo.lbo_type) as int
        };
        lemma_cut(scan, lbo.lbo_type);
        lemma_trimmed_front(buffer, at);
        let kept = buffer.subrange(at, len);
        let next = fed.scan.buffer;
        assert forall|i: int| 0 <= i < kept.len() implies !is_space(#[trigger] kept[i]) by {
            assert(kept[i] == buffer[i + at]);
        }
        assert forall|i: int| 0 <= i < next.len() - 1 implies !is_space(#[trigger] next[i]) by {
            if i < kept.len() {
                assert(next[i] == kept[i]);
            }
        }
        if next.len() > 0 && is_space(next.last()) {
            assert(after_mark);
            lemma_text_width_split(buffer, at);
            let front = buffer.subrange(0, at);
            assert forall|i: int| 0 <= i < at implies char_width_spec(#[trigger] front[i])
                >= 1 by {
                assert(front[i] == buffer[i]);
            }
            lemma_visible_width(front);
        }
    } else {
        let next = fed.scan;
        assert forall|i: int| next.lbo_pos <= i < next.buffer.len() implies !is_space(
            #[trigger] next.buffer[i],
        ) by {
            if i < len {
                assert(next.buffer[i] == buffer[i]);
            }
        }
    }
}

/// Reading on through regular characters keeps a tidy scan tidy up to the
/// line, which does not begin with white space and leaves a tidy buffer.
pub proof fn lemma_scan_tidy(scan: Scan, limit: nat, rest: Seq<char>)
    requires
        scan.wf(limit),
        tidy_scan(scan),
        regular(rest),
    ensures
        ({
            let found = scan_spec(scan, limit, rest);
            &&& regular(found.rest)
            &&& found.content is None ==> tidy_scan(found.scan)
            &&& found.content matches Some(content) ==> {
                &&& !space_in_front(content)
                &&& tidy_buffer(found.scan.buffer, found.scan.lbo_pos, limit)
            }
        }),
    decreases rest.len(),
{
    if rest.len() > 0 {
        let fed = feed_spec(scan, limit, rest[0]);
        let tail = rest.drop_first();
        lemma_feed(scan, limit, rest[0]);
        lemma_feed_tidy(scan, limit, rest[0]);
        assert forall|i: int| 0 <= i < tail.len() implies regular_char(#[trigger] tail[i]) by {
            assert(tail[i] == rest[i + 1]);
        }
        if fed.content is None {
            lemma_scan_tidy(fed.scan, limit, tail);
        }
    }
}

/// One call on a tidy state with a regular text to read: the line does not
/// begin with white space, and the state stays tidy and the text regular.
pub proof fn lemma_step_tidy(state: LineState)
    requires
        state.wf(),
        state.has_next,
        tidy(state),
        regular(state.rest),
    ensures
        !space_in_front(next_spec(state).content->0),
        tidy(next_spec(state).state),
        regular(next_spec(state).state.rest),
{
    let limit = state.limit();
    let buffer = state.buffer;
    let len = buffer.len() as int;
    if text_width_spec(buffer) >= limit {
        lemma_carry_over(state);
        let step = carry_over(state);
        let kept = step.state.buffer;
        let at = len - kept.len();
        let excess = (text_width_spec(buffer) - limit) as nat;
        lemma_split_index(buffer, excess);
        lemma_trimmed_front(buffer, at);
        lemma_part_width(buffer, at, len);
        assert(buffer.subrange(len, len) =~= Seq::<char>::empty());
        assert forall|i: int| 0 <= i < kept.len() - 1 implies !is_space(#[trigger] kept[i]) by {
            assert(kept[i] == buffer[i + at]);
        }
        if kept.len() > 0 {
            assert(kept.last() == buffer.last());
        }
    } else {
        lemma_start_scan(state);
        lemma_scan(state.scan(), limit, state.rest);
        lemma_scan_tidy(state.scan(), limit, state.rest);
        let found = scan_spec(state.scan(), limit, state.rest);
        lemma_trimmed_front(found.scan.buffer, found.scan.buffer.len() as int);
    }
}

} // verus!
