//! What of a text is to be seen in its lines.
//!
//! Breaking a text into lines drops white space where a line ends or
//! begins, line terminators, and characters that take no space. All other
//! characters, the ink of the text, come out in their order.

use crate::char_buffer::{lemma_trim_end, trim_end, trimmed_range};
use crate::invariants::{
    lemma_carry_over, lemma_feed, lemma_scan, lemma_split_index, lemma_start_scan,
};
use crate::linebreak::{classify, LboType, LBO_BREAKS};
use crate::model::{carry_over, cut, feed_spec, next_spec, scan_spec, LineState, Scan};
use crate::unicode::{char_width_spec, text_width_spec, white_space};
use vstd::prelude::*;

verus! {

/// Whether `ch` is ink: it takes space, and it is neither white space nor a
/// line terminator.
pub open spec fn is_ink(ch: char) -> bool {
    char_width_spec(ch) >= 1 && !white_space(ch) && !LBO_BREAKS@.contains(ch)
}

/// [`is_ink`] as a predicate.
pub open spec fn ink_pred() -> spec_fn(char) -> bool {
    |ch: char| is_ink(ch)
}

/// The ink of `text`: its characters that are ink, in their order.
pub open spec fn ink(text: Seq<char>) -> Seq<char> {
    text.filter(ink_pred())
}

/// The ink of a content that may be there.
pub open spec fn ink_of(content: Option<Seq<char>>) -> Seq<char> {
    match content {
        Some(text) => ink(text),
        None => Seq::empty(),
    }
}

/// The ink of two texts in a row is the ink of the one and then of the
/// other.
pub proof fn lemma_ink_concat(a: Seq<char>, b: Seq<char>)
    ensures
        ink(a + b) == ink(a) + ink(b),
{
    Seq::filter_distributes_over_add(a, b, ink_pred());
}

/// The ink of no text is nothing, and the ink of one character is that
/// character or nothing.
pub proof fn lemma_ink_small(ch: char)
    ensures
        ink(Seq::empty()) == Seq::<char>::empty(),
        ink(seq![ch]) == if is_ink(ch) {
            seq![ch]
        } else {
            Seq::<char>::empty()
        },
{
    reveal_with_fuel(Seq::filter, 2);
    assert(seq![ch].drop_last() =~= Seq::<char>::empty());
    assert(Seq::<char>::empty().push(ch) =~= seq![ch]);
}

/// Appending a character adds its ink.
pub proof fn lemma_ink_push(text: Seq<char>, ch: char)
    ensures
        ink(text.push(ch)) == ink(text) + ink(seq![ch]),
{
    assert(text.push(ch) =~= text + seq![ch]);
    lemma_ink_concat(text, seq![ch]);
}

/// Cutting a text in two at `at` splits its ink.
pub proof fn lemma_ink_split(text: Seq<char>, at: int)
    requires
        0 <= at <= text.len(),
    ensures
        ink(text) == ink(text.subrange(0, at)) + ink(text.subrange(at, text.len() as int)),
{
    assert(text =~= text.subrange(0, at) + text.subrange(at, text.len() as int));
    lemma_ink_concat(text.subrange(0, at), text.subrange(at, text.len() as int));
}

/// The white space at the end of a text holds no ink.
pub proof fn lemma_ink_trim(text: Seq<char>)
    ensures
        ink(trim_end(text)) == ink(text),
    decreases text.len(),
{
    if text.len() > 0 && white_space(text.last()) {
        lemma_ink_trim(text.drop_last());
        assert(text =~= text.drop_last().push(text.last()));
        lemma_ink_push(text.drop_last(), text.last());
        lemma_ink_small(text.last());
        assert(ink(text.drop_last()) + Seq::<char>::empty() =~= ink(text.drop_last()));
    }
}

/// A trimmed part from the start of a text has the ink of that part.
pub proof fn lemma_ink_trimmed_range(text: Seq<char>, end: int)
    requires
        0 <= end <= text.len(),
    ensures
        ink(trimmed_range(text, 0, end)) == ink(text.subrange(0, end)),
{
    if 0 < end {
        lemma_ink_trim(text.subrange(0, end));
    } else {
        assert(text.subrange(0, end) =~= Seq::<char>::empty());
    }
}

/// Reading a character loses no ink: the ink of the buffer and of the
/// character is in the content that the character completes, if it
/// completes one, and in the buffer behind it.
pub proof fn lemma_feed_keeps_ink(scan: Scan, limit: nat, ch: char)
    requires
        scan.lbo_pos <= scan.buffer.len(),
    ensures
        ink_of(feed_spec(scan, limit, ch).content) + ink(feed_spec(scan, limit, ch).scan.buffer)
            == ink(scan.buffer) + ink(seq![ch]),
{
    let lbo = classify(ch, scan.lbo);
    let buffer = scan.buffer;
    let len = buffer.len() as int;
    let none = Seq::<char>::empty();
    let skipped = len == 0 && lbo.lbo_type == LboType::Space;
    lemma_ink_small(ch);
    lemma_ink_push(buffer, ch);
    lemma_ink_trim(buffer);
    assert(ink(buffer) + none =~= ink(buffer));
    assert(none + ink(buffer) =~= ink(buffer));
    if lbo.lbo_type != LboType::Break && !skipped && scan.finalized + scan.pending
        + char_width_spec(ch) > limit {
        let at: int = if lbo.lbo_prev == LboType::Before && scan.lbo_pos > 0 {
            scan.lbo_pos as int
        } else {
            cut(scan, lbo.lbo_type) as int
        };
        let kept = buffer.subrange(at, len);
        lemma_ink_split(buffer, at);
        lemma_ink_trimmed_range(buffer, at);
        lemma_ink_push(kept, ch);
        assert(ink(buffer.subrange(0, at)) + (ink(kept) + ink(seq![ch])) =~= (ink(
            buffer.subrange(0, at),
        ) + ink(kept)) + ink(seq![ch]));
        assert(ink(kept) + none =~= ink(kept));
    }
}

/// Reading on loses no ink.
pub proof fn lemma_scan_keeps_ink(scan: Scan, limit: nat, rest: Seq<char>)
    requires
        scan.wf(limit),
    ensures
        ({
            let found = scan_spec(scan, limit, rest);
            ink_of(found.content) + ink(found.scan.buffer) + ink(found.rest) == ink(scan.buffer)
                + ink(rest)
        }),
    decreases rest.len(),
{
    let none = Seq::<char>::empty();
    lemma_ink_small(' ');
    if rest.len() == 0 {
        assert(rest =~= none);
        assert(none + ink(scan.buffer) + none =~= ink(scan.buffer) + none);
    } else {
        let fed = feed_spec(scan, limit, rest[0]);
        let tail = rest.drop_first();
        lemma_feed_keeps_ink(scan, limit, rest[0]);
        lemma_feed(scan, limit, rest[0]);
        assert(rest =~= seq![rest[0]] + tail);
        lemma_ink_concat(seq![rest[0]], tail);
        if fed.content is None {
            lemma_scan_keeps_ink(fed.scan, limit, tail);
            assert(none + ink(fed.scan.buffer) =~= ink(fed.scan.buffer));
        }
        assert(ink(scan.buffer) + (ink(seq![rest[0]]) + ink(tail)) =~= (ink(scan.buffer) + ink(
            seq![rest[0]],
        )) + ink(tail));
    }
}

/// One call loses no ink: the ink of the buffer and of the unread text is in
/// the line, in the buffer and in the unread text behind the call.
pub proof fn lemma_step_keeps_ink(state: LineState)
    requires
        state.wf(),
        state.has_next,
    ensures
        ({
            let step = next_spec(state);
            ink_of(step.content) + ink(step.state.buffer) + ink(step.state.rest) == ink(
                state.buffer,
            ) + ink(state.rest)
        }),
{
    let none = Seq::<char>::empty();
    let limit = state.limit();
    lemma_ink_small(' ');
    if text_width_spec(state.buffer) >= limit {
        lemma_carry_over(state);
        let step = carry_over(state);
        let at = state.buffer.len() - step.state.buffer.len();
        let excess = (text_width_spec(state.buffer) - limit) as nat;
        lemma_split_index(state.buffer, excess);
        lemma_ink_split(state.buffer, at);
        lemma_ink_trimmed_range(state.buffer, at);
    } else {
        lemma_start_scan(state);
        lemma_scan_keeps_ink(state.scan(), limit, state.rest);
        let found = scan_spec(state.scan(), limit, state.rest);
        lemma_scan(state.scan(), limit, state.rest);
        if found.content is None {
            lemma_ink_trim(found.scan.buffer);
            assert(found.rest =~= none);
            assert(ink(found.scan.buffer) + none + none =~= none + ink(found.scan.buffer)
                + none);
        }
    }
}

/// Whether `ch` is shown: it takes space and is no line terminator.
pub open spec fn is_shown(ch: char) -> bool {
    char_width_spec(ch) >= 1 && !LBO_BREAKS@.contains(ch)
}

/// [`is_shown`] as a predicate.
pub open spec fn shown_pred() -> spec_fn(char) -> bool {
    |ch: char| is_shown(ch)
}

/// What of `text` is shown: its characters that take space and are no line
/// terminators, white space included, in their order.
pub open spec fn shown(text: Seq<char>) -> Seq<char> {
    text.filter(shown_pred())
}

/// Whether `text` holds nothing but white space.
pub open spec fn all_space(text: Seq<char>) -> bool {
    forall|i: int| 0 <= i < text.len() ==> white_space(#[trigger] text[i])
}

/// Whether `whole` is `lead`, `content`, `gap` and `tail` in a row, where
/// `lead` and `gap` hold nothing but white space.
pub open spec fn pieces(
    whole: Seq<char>,
    lead: Seq<char>,
    content: Seq<char>,
    gap: Seq<char>,
    tail: Seq<char>,
) -> bool {
    &&& all_space(lead)
    &&& all_space(gap)
    &&& whole == lead + content + gap + tail
}

/// Whether `whole` is `content` and then `tail`, but for white space in
/// front of `content` and behind it.
pub open spec fn kept_in(whole: Seq<char>, content: Seq<char>, tail: Seq<char>) -> bool {
    exists|lead: Seq<char>, gap: Seq<char>| #[trigger] pieces(whole, lead, content, gap, tail)
}

/// The text of a content that may be there.
pub open spec fn text_of(content: Option<Seq<char>>) -> Seq<char> {
    match content {
        Some(text) => text,
        None => Seq::empty(),
    }
}

/// What is shown of two texts in a row is what is shown of the one and then
/// of the other; of one character, it is the character or nothing.
pub proof fn lemma_shown(a: Seq<char>, b: Seq<char>, ch: char)
    ensures
        shown(a + b) == shown(a) + shown(b),
        shown(Seq::empty()) == Seq::<char>::empty(),
        shown(seq![ch]) == if is_shown(ch) {
            seq![ch]
        } else {
            Seq::<char>::empty()
        },
{
    Seq::filter_distributes_over_add(a, b, shown_pred());
    reveal_with_fuel(Seq::filter, 2);
    assert(seq![ch].drop_last() =~= Seq::<char>::empty());
    assert(Seq::<char>::empty().push(ch) =~= seq![ch]);
}

/// A text is its trimmed part from the start up to `end`, white space, and
/// the rest from `end` on.
pub proof fn lemma_trimmed_pieces(text: Seq<char>, end: int)
    requires
        0 <= end <= text.len(),
    ensures
        pieces(
            text,
            Seq::empty(),
            trimmed_range(text, 0, end),
            text.subrange(trimmed_range(text, 0, end).len() as int, end),
            text.subrange(end, text.len() as int),
        ),
        trimmed_range(text, 0, end).len() <= end,
{
    let part = text.subrange(0, end);
    let content = trimmed_range(text, 0, end);
    lemma_trim_end(part);
    let n = content.len() as int;
    let gap = text.subrange(n, end);
    assert forall|i: int| 0 <= i < gap.len() implies white_space(#[trigger] gap[i]) by {
        assert(gap[i] == part[i + n]);
    }
    assert(text =~= Seq::<char>::empty() + content + gap + text.subrange(
        end,
        text.len() as int,
    ));
}

/// Reading a character keeps what is shown: the buffer and the character,
/// if it is shown, are the content that the character completes, if any, and
/// the buffer behind it, but for white space.
pub proof fn lemma_feed_keeps_text(scan: Scan, limit: nat, ch: char)
    requires
        scan.wf(limit),
    ensures
        kept_in(
            scan.buffer + shown(seq![ch]),
            text_of(feed_spec(scan, limit, ch).content),
            feed_spec(scan, limit, ch).scan.buffer,
        ),
{
    let fed = feed_spec(scan, limit, ch);
    let lbo = classify(ch, scan.lbo);
    let buffer = scan.buffer;
    let len = buffer.len() as int;
    let none = Seq::<char>::empty();
    let whole = buffer + shown(seq![ch]);
    lemma_shown(none, none, ch);
    lemma_feed(scan, limit, ch);
    if lbo.lbo_type == LboType::Break {
        lemma_trimmed_pieces(buffer, len);
        assert(buffer.subrange(0, len) =~= buffer);
        let content = trim_end(buffer);
        let gap = buffer.subrange(content.len() as int, len);
        assert(whole =~= none + content + gap + none);
        assert(pieces(whole, none, content, gap, none));
    } else if len == 0 && lbo.lbo_type == LboType::Space {
        assert(whole =~= shown(seq![ch]) + none + none + buffer);
        assert(pieces(whole, shown(seq![ch]), none, none, buffer));
    } else if scan.finalized + scan.pending + char_width_spec(ch) > limit {
        let at: int = if lbo.lbo_prev == LboType::Before && scan.lbo_pos > 0 {
            scan.lbo_pos as int
        } else {
            cut(scan, lbo.lbo_type) as int
        };
        lemma_trimmed_pieces(buffer, at);
        let content = trimmed_range(buffer, 0, at);
        let gap = buffer.subrange(content.len() as int, at);
        let kept = buffer.subrange(at, len);
        if fed.scan.buffer.len() == kept.len() {
            let wider = gap + seq![ch];
            assert(kept =~= none);
            assert(whole =~= none + content + wider + fed.scan.buffer);
            assert(pieces(whole, none, content, wider, fed.scan.buffer));
        } else {
            assert(whole =~= none + content + gap + fed.scan.buffer);
            assert(pieces(whole, none, content, gap, fed.scan.buffer));
        }
    } else {
        assert(whole =~= none + none + none + fed.scan.buffer);
        assert(pieces(whole, none, none, none, fed.scan.buffer));
    }
}

/// Two steps in a row: where `first` is white space and `front`, and
/// `front` with `more` is kept in a content and a tail, `first` with `more`
/// is kept in them too.
proof fn lemma_kept_later(
    first: Seq<char>,
    front: Seq<char>,
    more: Seq<char>,
    content: Seq<char>,
    tail: Seq<char>,
)
    requires
        kept_in(first, Seq::empty(), front),
        kept_in(front + more, content, tail),
    ensures
        kept_in(first + more, content, tail),
{
    let none = Seq::<char>::empty();
    let (lead, gap) = choose|lead: Seq<char>, gap: Seq<char>| #[trigger]
        pieces(first, lead, none, gap, front);
    let (lead2, gap2) = choose|lead2: Seq<char>, gap2: Seq<char>| #[trigger]
        pieces(front + more, lead2, content, gap2, tail);
    let all = lead + gap + lead2;
    assert(first =~= lead + gap + front);
    assert(first + more =~= lead + gap + (front + more));
    assert(first + more =~= all + content + gap2 + tail);
    assert(pieces(first + more, all, content, gap2, tail));
}

/// A step and what follows: where `first` is kept in a content and `front`,
/// `first` with `more` is kept in the content and `front` with `more`.
proof fn lemma_kept_now(
    first: Seq<char>,
    front: Seq<char>,
    more: Seq<char>,
    content: Seq<char>,
)
    requires
        kept_in(first, content, front),
    ensures
        kept_in(first + more, content, front + more),
{
    let (lead, gap) = choose|lead: Seq<char>, gap: Seq<char>| #[trigger]
        pieces(first, lead, content, gap, front);
    assert(first + more =~= lead + content + gap + (front + more));
    assert(pieces(first + more, lead, content, gap, front + more));
}

/// Every text is kept in nothing and itself.
proof fn lemma_kept_all(whole: Seq<char>)
    ensures
        kept_in(whole, Seq::empty(), whole),
{
    let none = Seq::<char>::empty();
    assert(whole =~= none + none + none + whole);
    assert(pieces(whole, none, none, none, whole));
}

/// Reading on keeps what is shown.
pub proof fn lemma_scan_keeps_text(scan: Scan, limit: nat, rest: Seq<char>)
    requires
        scan.wf(limit),
    ensures
        ({
            let found = scan_spec(scan, limit, rest);
            kept_in(
                scan.buffer + shown(rest),
                text_of(found.content),
                found.scan.buffer + shown(found.rest),
            )
        }),
    decreases rest.len(),
{
    let found = scan_spec(scan, limit, rest);
    let whole = scan.buffer + shown(rest);
    if rest.len() == 0 {
        lemma_kept_all(whole);
    } else {
        let fed = feed_spec(scan, limit, rest[0]);
        let later = rest.drop_first();
        let first = scan.buffer + shown(seq![rest[0]]);
        lemma_feed(scan, limit, rest[0]);
        lemma_feed_keeps_text(scan, limit, rest[0]);
        assert(whole == first + shown(later)) by {
            assert(rest =~= seq![rest[0]] + later);
            lemma_shown(seq![rest[0]], later, ' ');
            assert(whole =~= first + shown(later));
        }
        if fed.content is None {
            lemma_scan_keeps_text(fed.scan, limit, later);
            lemma_kept_later(
                first,
                fed.scan.buffer,
                shown(later),
                text_of(found.content),
                found.scan.buffer + shown(found.rest),
            );
        } else {
            lemma_kept_now(first, fed.scan.buffer, shown(later), text_of(fed.content));
        }
    }
}

/// One call keeps what is shown: see [`crate::laws::law_call_keeps_text`].
pub proof fn lemma_step_keeps_text(state: LineState)
    requires
        state.wf(),
        state.has_next,
    ensures
        ({
            let step = next_spec(state);
            kept_in(
                state.buffer + shown(state.rest),
                text_of(step.content),
                step.state.buffer + shown(step.state.rest),
            )
        }),
{
    let none = Seq::<char>::empty();
    let limit = state.limit();
    let step = next_spec(state);
    let whole = state.buffer + shown(state.rest);
    let tail = step.state.buffer + shown(step.state.rest);
    lemma_shown(none, none, ' ');
    if text_width_spec(state.buffer) >= limit {
        lemma_carry_over(state);
        let at = state.buffer.len() - step.state.buffer.len();
        let excess = (text_width_spec(state.buffer) - limit) as nat;
        lemma_split_index(state.buffer, excess);
        lemma_trimmed_pieces(state.buffer, at);
        let content = trimmed_range(state.buffer, 0, at);
        let gap = state.buffer.subrange(content.len() as int, at);
        assert(whole =~= none + content + gap + tail);
        assert(pieces(whole, none, content, gap, tail));
    } else {
        lemma_start_scan(state);
        lemma_scan(state.scan(), limit, state.rest);
        lemma_scan_keeps_text(state.scan(), limit, state.rest);
        let found = scan_spec(state.scan(), limit, state.rest);
        let behind = found.scan.buffer + shown(found.rest);
        let (lead, gap) = choose|lead: Seq<char>, gap: Seq<char>| #[trigger]
            pieces(whole, lead, text_of(found.content), gap, behind);
        if found.content is None {
            let left = found.scan.buffer;
            lemma_trimmed_pieces(left, left.len() as int);
            assert(left.subrange(0, left.len() as int) =~= left);
            let content = trim_end(left);
            let gap2 = left.subrange(content.len() as int, left.len() as int);
            let all = lead + gap;
            assert(found.rest =~= none);
            assert(whole =~= all + content + gap2 + tail);
            assert(pieces(whole, all, content, gap2, tail));
        } else {
            assert(pieces(whole, lead, text_of(step.content), gap, tail));
        }
    }
}

} // verus!
