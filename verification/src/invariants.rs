//! What the state machine keeps true from one step to the next.

use crate::char_buffer::{lemma_trim_end, trim_end, trimmed_range};
use crate::linebreak::{classify, lemma_classify_keeps_pairing, LboType};
use crate::model::{
    after_fit, after_overflow, all_visible, carry_over, cut, feed_spec, indented, next_spec,
    scan_spec, split_index_spec, LineState, Scan,
};
use crate::unicode::{
    char_width_spec, lemma_text_width_concat, lemma_text_width_push, lemma_text_width_split,
    text_width_spec, white_space,
};
use vstd::prelude::*;

verus! {

/// A text of characters that all take space is at least as wide as long.
pub proof fn lemma_visible_width(text: Seq<char>)
    requires
        all_visible(text),
    ensures
        text.len() <= text_width_spec(text),
    decreases text.len(),
{
    if text.len() > 0 {
        let tail = text.drop_first();
        assert forall|i: int| 0 <= i < tail.len() implies char_width_spec(#[trigger] tail[i])
            >= 1 by {
            assert(tail[i] == text[i + 1]);
        }
        lemma_visible_width(tail);
    }
}

/// A part of a text is no wider than the text.
pub proof fn lemma_part_width(text: Seq<char>, from: int, to: int)
    requires
        0 <= from <= to <= text.len(),
    ensures
        text_width_spec(text.subrange(from, to)) <= text_width_spec(text),
{
    lemma_text_width_split(text, to);
    let front = text.subrange(0, to);
    lemma_text_width_split(front, from);
    assert(front.subrange(from, to) =~= text.subrange(from, to));
}

/// A text without the white space at its end is no wider than the text.
pub proof fn lemma_trim_width(text: Seq<char>)
    ensures
        text_width_spec(trim_end(text)) <= text_width_spec(text),
{
    lemma_trim_end(text);
    lemma_part_width(text, 0, trim_end(text).len() as int);
}

/// A trimmed part of a text is no wider than the part, and no wider than
/// the text.
pub proof fn lemma_trimmed_range_width(text: Seq<char>, end: int)
    requires
        0 <= end <= text.len(),
    ensures
        text_width_spec(trimmed_range(text, 0, end)) <= text_width_spec(text.subrange(0, end)),
        text_width_spec(trimmed_range(text, 0, end)) <= text_width_spec(text),
{
    lemma_part_width(text, 0, end);
    if 0 < end {
        lemma_trim_width(text.subrange(0, end));
    } else {
        assert(text.subrange(0, end) =~= Seq::<char>::empty());
    }
}

/// What [`split_index_spec`] finds: a cut within the buffer behind which at
/// least `excess` columns lie, if the buffer has that many, and the last
/// such cut.
pub proof fn lemma_split_index(buffer: Seq<char>, excess: nat)
    ensures
        split_index_spec(buffer, excess) <= buffer.len(),
        excess <= text_width_spec(buffer) ==> excess <= text_width_spec(
            buffer.subrange(split_index_spec(buffer, excess) as int, buffer.len() as int),
        ),
        forall|cut: int|
            split_index_spec(buffer, excess) < cut <= buffer.len() ==> text_width_spec(
                #[trigger] buffer.subrange(cut, buffer.len() as int),
            ) < excess,
    decreases buffer.len(),
{
    let len = buffer.len() as int;
    let found = split_index_spec(buffer, excess) as int;
    if excess == 0 || len == 0 {
        assert(buffer.subrange(len, len) =~= Seq::<char>::empty());
    } else {
        let w = char_width_spec(buffer.last());
        let front = buffer.drop_last();
        assert forall|cut: int| 0 <= cut < len implies text_width_spec(
            #[trigger] buffer.subrange(cut, len),
        ) == text_width_spec(front.subrange(cut, len - 1)) + w by {
            assert(buffer.subrange(cut, len) =~= front.subrange(cut, len - 1).push(
                buffer.last(),
            ));
            lemma_text_width_push(front.subrange(cut, len - 1), buffer.last());
        }
        assert(buffer.subrange(len, len) =~= Seq::<char>::empty());
        assert(front.subrange(len - 1, len - 1) =~= Seq::<char>::empty());
        if excess <= w {
            assert(found == len - 1);
        } else {
            let less = (excess - w) as nat;
            lemma_split_index(front, less);
            assert(buffer =~= front.push(buffer.last()));
            lemma_text_width_push(front, buffer.last());
            assert forall|cut: int| found < cut <= len implies text_width_spec(
                #[trigger] buffer.subrange(cut, len),
            ) < excess by {
                if cut < len {
                    assert(text_width_spec(front.subrange(cut, len - 1)) < less);
                }
            }
            if excess <= text_width_spec(buffer) {
                assert(less <= text_width_spec(front));
            }
        }
    }
}

/// A well-formed state whose buffer is narrower than its limit starts a
/// well-formed scan.
pub proof fn lemma_start_scan(state: LineState)
    requires
        state.wf(),
        text_width_spec(state.buffer) < state.limit(),
    ensures
        state.scan().wf(state.limit()),
{
    assert(state.buffer.subrange(0, state.buffer.len() as int) =~= state.buffer);
}

/// Where a character that does not fit ends the line: within the buffer,
/// and not at its start unless the buffer is empty.
pub proof fn lemma_cut(scan: Scan, kind: LboType)
    requires
        scan.lbo_pos <= scan.buffer.len(),
    ensures
        cut(scan, kind) <= scan.buffer.len(),
        scan.buffer.len() > 0 ==> cut(scan, kind) > 0,
{
}

/// Reading a character keeps the scan well formed while no line is
/// completed. A completed line fits in `limit`, and it leaves a settled
/// buffer behind that is no longer than `limit` and at most two columns
/// wider. The buffer grows by one character at most.
pub proof fn lemma_feed(scan: Scan, limit: nat, ch: char)
    requires
        scan.wf(limit),
    ensures
        ({
            let fed = feed_spec(scan, limit, ch);
            &&& fed.scan.buffer.len() <= scan.buffer.len() + 1
            &&& fed.content is None ==> fed.scan.wf(limit)
            &&& fed.content is Some ==> {
                &&& fed.scan.settled()
                &&& fed.scan.buffer.len() <= limit
                &&& text_width_spec(fed.scan.buffer) <= limit + 2
                &&& text_width_spec(fed.content->0) <= limit
            }
        }),
{
    let lbo = classify(ch, scan.lbo);
    let w = char_width_spec(ch);
    let len = scan.buffer.len() as int;
    lemma_classify_keeps_pairing(ch, scan.lbo);
    if lbo.lbo_type == LboType::Break {
        lemma_trim_width(scan.buffer);
    } else if len == 0 && lbo.lbo_type == LboType::Space {
    } else if scan.finalized + scan.pending + w > limit {
        lemma_overflow(scan, limit, ch);
    } else {
        lemma_fit(scan, limit, ch);
    }
}

/// The part of [`lemma_feed`] for a character that fits.
proof fn lemma_fit(scan: Scan, limit: nat, ch: char)
    requires
        scan.wf(limit),
        scan.finalized + scan.pending + char_width_spec(ch) <= limit,
    ensures
        after_fit(scan, classify(ch, scan.lbo), ch).wf(limit),
        after_fit(scan, classify(ch, scan.lbo), ch).buffer.len() <= scan.buffer.len() + 1,
{
    let lbo = classify(ch, scan.lbo);
    let len = scan.buffer.len() as int;
    let next = after_fit(scan, lbo, ch);
    lemma_classify_keeps_pairing(ch, scan.lbo);
    lemma_text_width_push(scan.buffer, ch);
    assert(next.buffer.subrange(0, len) =~= scan.buffer);
    assert(next.buffer.subrange(0, next.buffer.len() as int) =~= next.buffer);
    assert(next.buffer.subrange(0, scan.lbo_pos as int) =~= scan.buffer.subrange(
        0,
        scan.lbo_pos as int,
    ));
    assert(all_visible(next.buffer)) by {
        assert forall|i: int| 0 <= i < next.buffer.len() implies char_width_spec(
            #[trigger] next.buffer[i],
        ) >= 1 by {
            if i < len {
                assert(next.buffer[i] == scan.buffer[i]);
            }
        }
    }
}

/// The part of [`lemma_feed`] for a character that does not fit.
proof fn lemma_overflow(scan: Scan, limit: nat, ch: char)
    requires
        scan.wf(limit),
        scan.finalized + scan.pending + char_width_spec(ch) > limit,
    ensures
        ({
            let fed = after_overflow(scan, classify(ch, scan.lbo), ch);
            &&& fed.content is Some
            &&& fed.scan.settled()
            &&& fed.scan.buffer.len() <= scan.buffer.len() + 1
            &&& fed.scan.buffer.len() <= limit
            &&& text_width_spec(fed.scan.buffer) <= limit + 2
            &&& text_width_spec(fed.content->0) <= limit
        }),
{
    let lbo = classify(ch, scan.lbo);
    let len = scan.buffer.len() as int;
    lemma_classify_keeps_pairing(ch, scan.lbo);
    lemma_visible_width(scan.buffer);
    let at: int = if lbo.lbo_prev == LboType::Before && scan.lbo_pos > 0 {
        scan.lbo_pos as int
    } else {
        cut(scan, lbo.lbo_type) as int
    };
    lemma_cut(scan, lbo.lbo_type);
    let kept = scan.buffer.subrange(at, len);
    lemma_text_width_split(scan.buffer, at);
    lemma_text_width_push(kept, ch);
    lemma_trimmed_range_width(scan.buffer, at);
    assert(all_visible(kept.push(ch))) by {
        assert forall|i: int| 0 <= i < kept.push(ch).len() implies char_width_spec(
            #[trigger] kept.push(ch)[i],
        ) >= 1 by {
            if i < kept.len() {
                assert(kept.push(ch)[i] == scan.buffer[i + at]);
            }
        }
    }
    assert(all_visible(kept)) by {
        assert forall|i: int| 0 <= i < kept.len() implies char_width_spec(#[trigger] kept[i])
            >= 1 by {
            assert(kept[i] == scan.buffer[i + at]);
        }
    }
    if at == len {
        assert(text_width_spec(kept) == 0);
    }
}

/// Reading on keeps all of this true up to the line: see [`lemma_feed`].
/// Behind a completed line less text is left to read, and the buffer has
/// grown by no more than was read.
pub proof fn lemma_scan(scan: Scan, limit: nat, rest: Seq<char>)
    requires
        scan.wf(limit),
    ensures
        ({
            let found = scan_spec(scan, limit, rest);
            &&& found.rest.len() <= rest.len()
            &&& found.scan.buffer.len() + found.rest.len() <= scan.buffer.len() + rest.len()
            &&& found.content is None ==> {
                &&& found.scan.wf(limit)
                &&& found.rest.len() == 0
            }
            &&& found.content is Some ==> {
                &&& found.rest.len() < rest.len()
                &&& found.scan.settled()
                &&& found.scan.buffer.len() <= limit
                &&& text_width_spec(found.scan.buffer) <= limit + 2
                &&& text_width_spec(found.content->0) <= limit
            }
        }),
    decreases rest.len(),
{
    if rest.len() > 0 {
        let fed = feed_spec(scan, limit, rest[0]);
        lemma_feed(scan, limit, rest[0]);
        if fed.content is None {
            lemma_scan(fed.scan, limit, rest.drop_first());
        }
    }
}

/// The work that is left: it grows with the text that is unread and with
/// the content that is in no line yet, and it is 0 once the last line is
/// out and nothing is left behind.
pub open spec fn work_left(state: LineState) -> nat {
    2 * state.rest.len() + state.buffer.len() + if state.has_next {
        1nat
    } else {
        0nat
    }
}

/// Whether `content` fits in `limit` columns, or is a single character that
/// is wider than `limit`.
pub open spec fn fits_or_single(content: Seq<char>, limit: nat) -> bool {
    ||| text_width_spec(content) <= limit
    ||| content.len() == 1 && char_width_spec(content[0]) > limit
}

/// The line that is cut off a buffer that has become too wide fits, unless
/// it is a single character that is too wide; and the buffer gets shorter.
pub proof fn lemma_carry_over(state: LineState)
    requires
        state.wf(),
        text_width_spec(state.buffer) >= state.limit(),
    ensures
        carry_over(state).state.wf(),
        carry_over(state).content is Some,
        fits_or_single(carry_over(state).content->0, state.limit()),
        carry_over(state).state.buffer.len() < state.buffer.len(),
        carry_over(state).state.rest == state.rest,
        carry_over(state).state.has_next == state.has_next,
{
    let buffer = state.buffer;
    let len = buffer.len() as int;
    let limit = state.limit();
    let excess = (text_width_spec(buffer) - limit) as nat;
    let found = split_index_spec(buffer, excess) as int;
    let at: int = if found == 0 {
        1
    } else {
        found
    };
    lemma_split_index(buffer, excess);
    assert(len >= 1) by {
        if len == 0 {
            assert(text_width_spec(buffer) == 0);
        }
    }
    let kept = buffer.subrange(at, len);
    assert(all_visible(kept)) by {
        assert forall|i: int| 0 <= i < kept.len() implies char_width_spec(#[trigger] kept[i])
            >= 1 by {
            assert(kept[i] == buffer[i + at]);
        }
    }
    lemma_part_width(buffer, at, len);
    lemma_text_width_split(buffer, at);
    lemma_trimmed_range_width(buffer, at);
    let content = trimmed_range(buffer, 0, at);
    if found == 0 {
        let first = buffer.subrange(0, 1);
        assert(text_width_spec(buffer.subrange(1, len)) < excess);
        assert(first.drop_first() =~= Seq::<char>::empty());
        assert(text_width_spec(first) == char_width_spec(buffer[0]));
        lemma_trim_end(first);
        if content.len() == 1 {
            assert(content[0] == first[0]);
        }
    }
}

/// One call on a state that is well formed and has a line to come: the state
/// stays well formed, there is a line, it fits unless it is a single
/// character that is too wide, and less work is left.
pub proof fn lemma_step(state: LineState)
    requires
        state.wf(),
        state.has_next,
    ensures
        next_spec(state).state.wf(),
        next_spec(state).content is Some,
        fits_or_single(next_spec(state).content->0, state.limit()),
        work_left(next_spec(state).state) < work_left(state),
{
    let limit = state.limit();
    if text_width_spec(state.buffer) >= limit {
        lemma_carry_over(state);
    } else {
        lemma_start_scan(state);
        lemma_scan(state.scan(), limit, state.rest);
        let found = scan_spec(state.scan(), limit, state.rest);
        if found.content is None {
            lemma_trim_width(found.scan.buffer);
        }
    }
}

/// An indented line is as wide as its indent and its content together.
pub proof fn lemma_text_width_indented(indent: Seq<char>, content: Seq<char>)
    ensures
        text_width_spec(indented(indent, content)) == if content.len() == 0 {
            0
        } else {
            text_width_spec(indent) + text_width_spec(content)
        },
{
    if content.len() > 0 {
        lemma_text_width_concat(indent, content);
    }
}

/// Whether `text` is empty or ends in a character that is not white space.
pub open spec fn ends_clean(text: Seq<char>) -> bool {
    text.len() == 0 || !white_space(text.last())
}

/// No content that reading a character completes ends in white space.
pub proof fn lemma_feed_ends_clean(scan: Scan, limit: nat, ch: char)
    ensures
        feed_spec(scan, limit, ch).content matches Some(content) ==> ends_clean(content),
{
    lemma_trim_end(scan.buffer);
    let len = scan.buffer.len() as int;
    assert forall|end: int| 0 <= end implies ends_clean(
        #[trigger] trimmed_range(scan.buffer, 0, end),
    ) by {
        let stop = if end <= len {
            end
        } else {
            len
        };
        if 0 < stop {
            lemma_trim_end(scan.buffer.subrange(0, stop));
        }
    }
}

/// No content that reading on completes ends in white space.
pub proof fn lemma_scan_ends_clean(scan: Scan, limit: nat, rest: Seq<char>)
    ensures
        scan_spec(scan, limit, rest).content matches Some(content) ==> ends_clean(content),
    decreases rest.len(),
{
    if rest.len() > 0 {
        lemma_feed_ends_clean(scan, limit, rest[0]);
        let fed = feed_spec(scan, limit, rest[0]);
        if fed.content is None {
            lemma_scan_ends_clean(fed.scan, limit, rest.drop_first());
        }
    }
}

/// No line ends in white space, with or without its indent.
pub proof fn lemma_ends_clean(state: LineState)
    requires
        state.wf(),
        state.has_next,
    ensures
        next_spec(state).content matches Some(content) ==> ends_clean(content) && ends_clean(
            indented(state.indent, content),
        ),
{
    let limit = state.limit();
    if text_width_spec(state.buffer) >= limit {
        let excess = (text_width_spec(state.buffer) - limit) as nat;
        let found = split_index_spec(state.buffer, excess);
        lemma_split_index(state.buffer, excess);
        let at: int = if found == 0 {
            1
        } else {
            found as int
        };
        let stop = if at <= state.buffer.len() {
            at
        } else {
            state.buffer.len() as int
        };
        if 0 < stop {
            lemma_trim_end(state.buffer.subrange(0, stop));
        }
    } else {
        lemma_scan_ends_clean(state.scan(), limit, state.rest);
        let found = scan_spec(state.scan(), limit, state.rest);
        lemma_trim_end(found.scan.buffer);
    }
}

} // verus!
