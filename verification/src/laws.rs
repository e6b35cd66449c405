//! What holds of the lines that a [`crate::LineIter`] returns.
//!
//! Each law is stated of [`next_spec`], which says what a call of
//! [`crate::LineIter::next`] returns for the state that the iterator is in.

use crate::content::{
    ink, ink_of, kept_in, lemma_ink_concat, lemma_ink_small, lemma_step_keeps_ink,
    lemma_step_keeps_text, shown,
};
use crate::invariants::{
    fits_or_single, lemma_ends_clean, lemma_step, lemma_text_width_indented, work_left,
};
use crate::model::{indented, next_spec, LineState, Step};
use crate::spaces::{is_space, lemma_step_tidy, regular, space_in_front, tidy};
use crate::unicode::{char_width_spec, text_width_spec, white_space};
use vstd::prelude::*;

verus! {

/// The contents of the lines that are returned from `state` on, one call
/// after the other, up to the last line.
pub open spec fn contents_from(state: LineState) -> Seq<Seq<char>>
    decreases work_left(state),
    when state.wf()
    via contents_from_decreases
{
    if state.has_next {
        seq![next_spec(state).content->0] + contents_from(next_spec(state).state)
    } else {
        Seq::empty()
    }
}

#[via_fn]
proof fn contents_from_decreases(state: LineState) {
    if state.has_next {
        lemma_step(state);
    }
}

/// The state after a number of calls.
pub open spec fn after_calls(state: LineState, calls: nat) -> LineState
    decreases calls,
{
    if calls == 0 {
        state
    } else {
        after_calls(next_spec(state).state, (calls - 1) as nat)
    }
}

/// What a series of calls returns when before each call an indent may be
/// set: `indents` holds, for each call, the indent that is offered before
/// it, if any.
pub open spec fn run(state: LineState, indents: Seq<Option<Seq<char>>>) -> Seq<Option<Seq<char>>>
    decreases indents.len(),
{
    if indents.len() == 0 {
        Seq::empty()
    } else {
        let ready = match indents[0] {
            Some(indent) => state.with_indent(indent),
            None => state,
        };
        seq![next_spec(ready).line(ready.indent)] + run(
            next_spec(ready).state,
            indents.drop_first(),
        )
    }
}

/// Every line fits in the line width, indent included. The one exception is
/// a line of a single character that is wider than what the indent leaves
/// of the line; as no character is wider than two columns, there is no
/// exception where the indent leaves two columns or more.
pub proof fn law_line_fits(state: LineState)
    requires
        state.wf(),
        state.has_next,
    ensures
        next_spec(state).content matches Some(content) && {
            ||| text_width_spec(indented(state.indent, content)) <= state.width
            ||| content.len() == 1 && char_width_spec(content[0]) > state.limit()
        },
        state.limit() >= 2 ==> text_width_spec(next_spec(state).line(state.indent)->0)
            <= state.width,
{
    lemma_step(state);
    let content = next_spec(state).content->0;
    lemma_text_width_indented(state.indent, content);
    assert(fits_or_single(content, state.limit()));
}

/// No line ends in white space, before or after the indent is put in front
/// of it.
pub proof fn law_no_space_at_end(state: LineState)
    requires
        state.wf(),
        state.has_next,
    ensures
        next_spec(state).content matches Some(content) && (content.len() > 0 ==> !white_space(
            content.last(),
        )),
        next_spec(state).line(state.indent) matches Some(line) && (line.len() > 0
            ==> !white_space(line.last())),
{
    lemma_step(state);
    lemma_ends_clean(state);
}

/// What is returned depends on nothing but the text, the line width and the
/// indents that are set before the calls: the same of these give the same
/// lines, and the same end.
pub proof fn law_same_input_same_lines(
    text_a: Seq<char>,
    text_b: Seq<char>,
    width_a: nat,
    width_b: nat,
    indents_a: Seq<Option<Seq<char>>>,
    indents_b: Seq<Option<Seq<char>>>,
)
    requires
        text_a == text_b,
        width_a == width_b,
        indents_a == indents_b,
    ensures
        run(LineState::start(text_a, width_a, Seq::empty()), indents_a) == run(
            LineState::start(text_b, width_b, Seq::empty()),
            indents_b,
        ),
{
}

/// A call that returns a line leaves less work than it found, whatever the
/// indent. So no more lines are returned than there was work at the start:
/// twice the length of the text, and one.
pub proof fn law_every_line_is_progress(state: LineState)
    requires
        state.wf(),
        state.has_next,
    ensures
        next_spec(state).state.wf(),
        next_spec(state).content is Some,
        work_left(next_spec(state).state) < work_left(state),
{
    lemma_step(state);
}

/// Setting an indent changes nothing in the work that is left.
pub proof fn law_indent_is_no_work(state: LineState, indent: Seq<char>)
    requires
        state.wf(),
    ensures
        state.with_indent(indent).wf(),
        work_left(state.with_indent(indent)) == work_left(state),
{
}

/// After the last line every call returns no line and changes nothing.
pub proof fn law_end_is_final(state: LineState, calls: nat)
    requires
        !state.has_next,
    ensures
        after_calls(state, calls) == state,
        next_spec(after_calls(state, calls)) == (Step { state, content: None }),
    decreases calls,
{
    if calls > 0 {
        law_end_is_final(state, (calls - 1) as nat);
    }
}

/// The lines come to an end. From a well-formed state the calls return the
/// lines of [`contents_from`], one each, which are no more than the work
/// that is left; the call after them is the first to return no line.
pub proof fn law_lines_end(state: LineState)
    requires
        state.wf(),
    ensures
        contents_from(state).len() <= work_left(state),
        !after_calls(state, contents_from(state).len()).has_next,
        forall|i: nat|
            i < contents_from(state).len() ==> {
                &&& (#[trigger] after_calls(state, i)).has_next
                &&& next_spec(after_calls(state, i)).content == Some(
                    contents_from(state)[i as int],
                )
            },
    decreases work_left(state),
{
    if state.has_next {
        lemma_step(state);
        let next = next_spec(state).state;
        law_lines_end(next);
        let all = contents_from(state);
        let later = contents_from(next);
        assert(all == seq![next_spec(state).content->0] + later);
        assert forall|i: nat| i < all.len() implies {
            &&& (#[trigger] after_calls(state, i)).has_next
            &&& next_spec(after_calls(state, i)).content == Some(all[i as int])
        } by {
            if i > 0 {
                let j = (i - 1) as nat;
                assert(after_calls(state, i) == after_calls(next, j));
                assert(after_calls(next, j).has_next);
                assert(all[i as int] == later[j as int]);
            }
        }
        assert(after_calls(state, all.len()) == after_calls(next, later.len()));
    }
}

/// One call keeps the text. What is shown of the buffer and of the unread
/// text, which is all of it but line terminators and characters that take
/// no space, is the content of the line and then what is shown of the
/// buffer and of the unread text behind the call. Only white space is left
/// out, in front of the content and behind it, where the line begins and
/// ends; white space in the content stays where it is: see [`kept_in`].
pub proof fn law_call_keeps_text(state: LineState)
    requires
        state.wf(),
        state.has_next,
    ensures
        kept_in(
            state.buffer + shown(state.rest),
            next_spec(state).content->0,
            next_spec(state).state.buffer + shown(next_spec(state).state.rest),
        ),
{
    lemma_step(state);
    lemma_step_keeps_text(state);
}

/// One call loses no ink: what of the buffer and of the unread text takes
/// space and is neither white space nor a line terminator is in the line
/// that is returned, or still in the buffer or in the unread text, and in
/// the same order.
pub proof fn law_call_keeps_ink(state: LineState)
    requires
        state.wf(),
        state.has_next,
    ensures
        ({
            let step = next_spec(state);
            ink_of(step.content) + ink(step.state.buffer) + ink(step.state.rest) == ink(
                state.buffer,
            ) + ink(state.rest)
        }),
{
    lemma_step_keeps_ink(state);
}

/// The lines hold the ink of the text, all of it and in its order: put one
/// behind the other, they differ from what was to be read only in white
/// space, line terminators and characters that take no space.
pub proof fn law_lines_keep_ink(state: LineState)
    requires
        state.wf(),
        state.has_next,
    ensures
        ink(contents_from(state).flatten()) == ink(state.buffer + state.rest),
    decreases work_left(state),
{
    let step = next_spec(state);
    let content = step.content->0;
    let later = contents_from(step.state);
    let all = contents_from(state);
    lemma_step(state);
    lemma_step_keeps_ink(state);
    lemma_ink_concat(state.buffer, state.rest);
    assert(all == seq![content] + later);
    assert(all.first() == content);
    assert(all.drop_first() =~= later);
    assert(all.flatten() == content + later.flatten());
    lemma_ink_concat(content, later.flatten());
    if step.state.has_next {
        law_lines_keep_ink(step.state);
        lemma_ink_concat(step.state.buffer, step.state.rest);
        assert(ink(content) + (ink(step.state.buffer) + ink(step.state.rest)) =~= ink(content)
            + ink(step.state.buffer) + ink(step.state.rest));
    } else {
        assert(later =~= Seq::<Seq<char>>::empty());
        assert(later.flatten() =~= Seq::<char>::empty());
        lemma_ink_small(' ');
        assert(step.state.buffer =~= Seq::<char>::empty());
        assert(step.state.rest =~= Seq::<char>::empty());
        assert(ink(content) + Seq::<char>::empty() + Seq::<char>::empty() =~= ink(content)
            + Seq::<char>::empty());
    }
}

/// The lines of a text hold the ink of the text: see
/// [`law_lines_keep_ink`].
pub proof fn law_text_is_kept(text: Seq<char>, width: nat, indent: Seq<char>)
    requires
        text_width_spec(indent) < width,
    ensures
        ink(contents_from(LineState::start(text, width, indent)).flatten()) == ink(text),
{
    let state = LineState::start(text, width, indent);
    assert(text_width_spec(state.buffer) == 0);
    law_lines_keep_ink(state);
    assert(state.buffer + state.rest =~= text);
}

/// No line begins with white space if the buffer is tidy, and a call leaves
/// it tidy. This needs a text whose opening marks take space and whose
/// white space takes one column at most, as the Unicode tables have it: see
/// [`regular`].
pub proof fn law_no_space_in_front(state: LineState)
    requires
        state.wf(),
        state.has_next,
        tidy(state),
        regular(state.rest),
    ensures
        next_spec(state).content matches Some(content) && !space_in_front(content),
        next_spec(state).line(state.indent) matches Some(line) && (space_in_front(line)
            ==> space_in_front(state.indent)),
        tidy(next_spec(state).state),
        regular(next_spec(state).state.rest),
{
    lemma_step(state);
    lemma_step_tidy(state);
}

/// A new iterator, and one that starts over, is tidy. An indent keeps a
/// state tidy if it is set while the buffer does not end in white space, or
/// if it is no wider than the indent before.
pub proof fn law_tidy_states(state: LineState, text: Seq<char>, indent: Seq<char>)
    requires
        state.wf(),
    ensures
        tidy(LineState::start(text, state.width, state.indent)),
        tidy(state) && (state.buffer.len() > 0 ==> !is_space(state.buffer.last())) ==> tidy(
            state.with_indent(indent),
        ),
        tidy(state) && text_width_spec(indent) <= text_width_spec(state.indent) ==> tidy(
            state.with_indent(indent),
        ),
{
}

/// No line of a regular text begins with white space, from a tidy state
/// on and as long as the indent is left alone.
pub proof fn law_lines_begin_clean(state: LineState)
    requires
        state.wf(),
        tidy(state),
        regular(state.rest),
    ensures
        forall|i: int|
            0 <= i < contents_from(state).len() ==> !space_in_front(
                #[trigger] contents_from(state)[i],
            ),
    decreases work_left(state),
{
    if state.has_next {
        lemma_step(state);
        lemma_step_tidy(state);
        let next = next_spec(state).state;
        law_lines_begin_clean(next);
        let all = contents_from(state);
        let later = contents_from(next);
        assert(all == seq![next_spec(state).content->0] + later);
        assert forall|i: int| 0 <= i < all.len() implies !space_in_front(#[trigger] all[i]) by {
            if i > 0 {
                assert(all[i] == later[i - 1]);
            }
        }
    }
}

} // verus!
