//! The iterator that gives a text out line by line.

use crate::char_buffer::CharBuffer;
use crate::cursor::next_char;
use crate::invariants::{
    lemma_feed, lemma_part_width, lemma_scan, lemma_split_index, lemma_start_scan,
    lemma_visible_width, work_left,
};
use crate::laws::{law_every_line_is_progress, law_line_fits, law_no_space_at_end};
use crate::linebreak::{line_break_opportunity, LboState, LboType};
use crate::model::{
    carry_over, feed_spec, indented, next_spec, scan_spec, split_index_spec, LineState, Scan,
};
use crate::unicode::{
    char_width, char_width_spec, lemma_text_width_push, text_width_spec, text_width_within,
    white_space,
};
use vstd::prelude::*;
use vstd::string::StringExecFns;

verus! {

/// The widest line that a [`LineIter`] can be made for.
pub const MAX_LINE_WIDTH: usize = usize::MAX - 2;

/// The view of a line that may be there: its characters.
pub open spec fn line_view(line: Option<String>) -> Option<Seq<char>> {
    match line {
        Some(text) => Some(text@),
        None => None,
    }
}

/// Where to cut `buffer` so that at least `excess` columns lie behind the
/// cut: the last such place, found by going backward from the end of the
/// buffer. It is 0 where the whole buffer is narrower than `excess`.
pub fn split_index(buffer: &CharBuffer, excess: usize) -> (at: usize)
    ensures
        at == split_index_spec(buffer@, excess as nat),
        at <= buffer@.len(),
        excess <= text_width_spec(buffer@) ==> excess <= text_width_spec(
            buffer@.subrange(at as int, buffer@.len() as int),
        ),
        forall|cut: int|
            at < cut <= buffer@.len() ==> text_width_spec(
                #[trigger] buffer@.subrange(cut, buffer@.len() as int),
            ) < excess,
{
    let mut at: usize = buffer.len();
    let mut left: usize = excess;
    proof {
        assert(buffer@.subrange(0, at as int) =~= buffer@);
        lemma_split_index(buffer@, excess as nat);
    }
    while at > 0 && left > 0
        invariant
            at <= buffer@.len(),
            split_index_spec(buffer@, excess as nat) == split_index_spec(
                buffer@.subrange(0, at as int),
                left as nat,
            ),
            split_index_spec(buffer@, excess as nat) <= buffer@.len(),
        decreases at,
    {
        let ghost front = buffer@.subrange(0, at as int);
        proof {
            assert(front.last() == buffer@[at - 1]);
            assert(front.drop_last() =~= buffer@.subrange(0, at - 1));
            lemma_split_index(buffer@, excess as nat);
        }
        match buffer.get(at - 1) {
            Some(ch) => {
                let w = char_width(ch);
                if left <= w {
                    return at - 1;
                }
                left = left - w;
            },
            None => {
                return 0;
            },
        }
        at = at - 1;
    }
    at
}

/// The width of what `buffer` holds.
fn buffer_width(buffer: &CharBuffer) -> (width: usize)
    requires
        text_width_spec(buffer@) <= usize::MAX,
    ensures
        width == text_width_spec(buffer@),
{
    let n = buffer.len();
    let mut i: usize = 0;
    let mut width: usize = 0;
    proof {
        assert(buffer@.subrange(0, 0) =~= Seq::<char>::empty());
    }
    while i < n
        invariant
            i <= n,
            n == buffer@.len(),
            width == text_width_spec(buffer@.subrange(0, i as int)),
            text_width_spec(buffer@) <= usize::MAX,
        decreases n - i,
    {
        proof {
            lemma_text_width_push(buffer@.subrange(0, i as int), buffer@[i as int]);
            assert(buffer@.subrange(0, i as int).push(buffer@[i as int]) =~= buffer@.subrange(
                0,
                i + 1,
            ));
            lemma_part_width(buffer@, 0, i + 1);
        }
        match buffer.get(i) {
            Some(ch) => {
                width = width + char_width(ch);
            },
            None => {},
        }
        i = i + 1;
    }
    proof {
        assert(buffer@.subrange(0, n as int) =~= buffer@);
    }
    width
}

/// Gives a text out line by line. No line is wider than the line width, and
/// every line that is not empty begins with the indent that was set last.
pub struct LineIter<'a> {
    rest: &'a str,
    buffer: CharBuffer,
    finalized: usize,
    pending: usize,
    lbo_pos: usize,
    limit: usize,
    indent: &'a str,
    indent_width: usize,
    open_quot: u8,
    open_apos: u8,
    has_next: bool,
}

impl<'a> View for LineIter<'a> {
    type V = LineState;

    closed spec fn view(&self) -> LineState {
        LineState {
            rest: self.rest@,
            buffer: self.buffer@,
            lbo_pos: self.lbo_pos as nat,
            width: self.limit as nat,
            indent: self.indent@,
            open_quot: self.open_quot,
            open_apos: self.open_apos,
            has_next: self.has_next,
        }
    }
}

impl<'a> LineIter<'a> {
    /// What never changes while a text is read: the line width, the indent
    /// and its width, and the buffer's capacity, which is the line width.
    closed spec fn framed(&self) -> bool {
        &&& 0 < self.limit <= MAX_LINE_WIDTH
        &&& self.indent_width == text_width_spec(self.indent@)
        &&& self.indent_width < self.limit
        &&& self.buffer.wf()
        &&& self.buffer.capacity() == self.limit
    }

    /// The iterator between two calls: its state is well formed, see
    /// [`LineState::wf`], and the widths that it keeps are those of the
    /// buffer and the indent.
    pub closed spec fn wf(&self) -> bool {
        &&& self@.wf()
        &&& self.framed()
        &&& self.finalized == text_width_spec(self.buffer@)
        &&& self.pending == 0
    }

    /// The state of the iterator while it reads, with the classifier's
    /// state `lbo`.
    closed spec fn scan_of(&self, lbo: LboState) -> Scan {
        Scan {
            buffer: self.buffer@,
            finalized: self.finalized as nat,
            pending: self.pending as nat,
            lbo_pos: self.lbo_pos as nat,
            lbo,
        }
    }

    /// The iterator while it reads: the scan is well formed for the columns
    /// that the indent leaves.
    closed spec fn reading(&self, lbo: LboState, limit: usize) -> bool {
        &&& self.framed()
        &&& limit == self.limit - self.indent_width
        &&& self.scan_of(lbo).wf(limit as nat)
    }

    /// Whether `other` has the same text left, line width, indent, counters
    /// of open marks and end mark as `self`.
    closed spec fn same_frame(&self, other: &Self) -> bool {
        &&& self.rest@ == other.rest@
        &&& self.limit == other.limit
        &&& self.indent@ == other.indent@
        &&& self.indent_width == other.indent_width
        &&& self.open_quot == other.open_quot
        &&& self.open_apos == other.open_apos
        &&& self.has_next == other.has_next
    }

    /// A well-formed iterator has a well-formed state.
    pub proof fn lemma_wf(&self)
        requires
            self.wf(),
        ensures
            self@.wf(),
    {
    }

    /// Creates an iterator that gives `text` out in lines of at most
    /// `line_width` columns, without an indent.
    pub fn new(text: &'a str, line_width: usize) -> (iter: LineIter<'a>)
        requires
            0 < line_width <= MAX_LINE_WIDTH,
        ensures
            iter.wf(),
            iter@ == LineState::start(text@, line_width as nat, Seq::<char>::empty()),
    {
        let indent: &'a str = "";
        proof {
            reveal_strlit("");
            assert(indent@ =~= Seq::<char>::empty());
        }
        LineIter {
            rest: text,
            buffer: CharBuffer::new(line_width),
            finalized: 0,
            pending: 0,
            lbo_pos: 0,
            limit: line_width,
            indent,
            indent_width: 0,
            open_quot: 0,
            open_apos: 0,
            has_next: true,
        }
    }

    /// Creates an iterator as [`LineIter::new`] does, if `line_width` is one
    /// that an iterator can be made for: at least 1 and at most
    /// [`MAX_LINE_WIDTH`].
    pub fn try_new(text: &'a str, line_width: usize) -> (made: Option<LineIter<'a>>)
        ensures
            made is Some <==> 0 < line_width <= MAX_LINE_WIDTH,
            made matches Some(iter) ==> iter.wf() && iter@ == LineState::start(
                text@,
                line_width as nat,
                Seq::<char>::empty(),
            ),
    {
        if 0 < line_width && line_width <= MAX_LINE_WIDTH {
            Some(LineIter::new(text, line_width))
        } else {
            None
        }
    }

    /// Sets the indent of the lines that follow, if it is narrower than the
    /// line width. An indent that leaves no column for the text is refused:
    /// then nothing changes and the result is `false`.
    pub fn set_indent(&mut self, indent: &'a str) -> (accepted: bool)
        requires
            old(self).wf(),
        ensures
            final(self).wf(),
            accepted == (text_width_spec(indent@) < old(self)@.width),
            final(self)@ == old(self)@.with_indent(indent@),
    {
        match text_width_within(indent, self.limit - 1) {
            Some(width) => {
                self.indent = indent;
                self.indent_width = width;
                true
            },
            None => false,
        }
    }

    /// Starts over with another text. The line width and the indent stay.
    pub fn init(&mut self, text: &'a str)
        requires
            old(self).wf(),
        ensures
            final(self).wf(),
            final(self)@ == LineState::start(text@, old(self)@.width, old(self)@.indent),
    {
        self.rest = text;
        self.buffer.clear();
        self.finalized = 0;
        self.pending = 0;
        self.lbo_pos = 0;
        self.open_quot = 0;
        self.open_apos = 0;
        self.has_next = true;
    }

    /// The line for `content`: the indent and the content, or an empty line.
    fn with_indent(&self, content: String) -> (line: String)
        ensures
            line@ == indented(self.indent@, content@),
    {
        if content.as_str().is_empty() {
            content
        } else {
            let mut line = String::from_str(self.indent);
            line.append(content.as_str());
            line
        }
    }

    /// Cuts a line off a buffer that is as wide as the line or wider.
    fn carry(&mut self, limit: usize) -> (line: String)
        requires
            old(self).wf(),
            limit == old(self).limit - old(self).indent_width,
            old(self).finalized >= limit,
        ensures
            final(self).wf(),
            final(self)@ == carry_over(old(self)@).state,
            Some(line@) == carry_over(old(self)@).line(old(self)@.indent),
    {
        let excess = self.finalized - limit;
        let found = split_index(&self.buffer, excess);
        let at = if found == 0 {
            1
        } else {
            found
        };
        let ghost before = self.buffer@;
        proof {
            lemma_visible_width(before);
            lemma_part_width(before, at as int, before.len() as int);
        }
        let content = self.buffer.substring_trimmed_end(0, at);
        self.buffer.cr(at);
        proof {
            let kept = before.subrange(at as int, before.len() as int);
            assert(self.buffer@ =~= kept);
            assert forall|i: int| 0 <= i < kept.len() implies char_width_spec(
                #[trigger] kept[i],
            ) >= 1 by {
                assert(kept[i] == before[i + at]);
            }
        }
        self.finalized = buffer_width(&self.buffer);
        if self.lbo_pos != 0 {
            self.lbo_pos = self.buffer.len();
        }
        self.with_indent(content)
    }

    /// Reads `ch`: see [`feed_spec`]. The result is the line that `ch`
    /// completes, if it completes one.
    fn feed(&mut self, lbo: &mut LboState, limit: usize, ch: char) -> (line: Option<String>)
        requires
            old(self).reading(*old(lbo), limit),
        ensures
            final(self).framed(),
            final(self).same_frame(old(self)),
            final(self).scan_of(*final(lbo)) == feed_spec(
                old(self).scan_of(*old(lbo)),
                limit as nat,
                ch,
            ).scan,
            line_view(line) == match feed_spec(
                old(self).scan_of(*old(lbo)),
                limit as nat,
                ch,
            ).content {
                Some(content) => Some(indented(old(self).indent@, content)),
                None => None,
            },
    {
        let ghost scan = self.scan_of(*lbo);
        let ghost fed = feed_spec(scan, limit as nat, ch);
        proof {
            lemma_feed(scan, limit as nat, ch);
            lemma_visible_width(scan.buffer);
        }
        line_break_opportunity(ch, lbo);
        if lbo.lbo_type == LboType::Break {
            let content = self.buffer.to_string_trimmed_end();
            self.buffer.clear();
            self.finalized = 0;
            self.pending = 0;
            self.lbo_pos = 0;
            lbo.open_quot = 0;
            lbo.open_apos = 0;
            return Some(self.with_indent(content));
        }
        if self.buffer.is_empty() && lbo.lbo_type == LboType::Space {
            return None;
        }
        let w = char_width(ch);
        let len = self.buffer.len();
        if self.finalized + self.pending + w > limit {
            let after_mark = lbo.lbo_prev == LboType::Before && self.lbo_pos > 0;
            let at = if after_mark {
                self.lbo_pos
            } else {
                let found = match lbo.lbo_type {
                    LboType::Before | LboType::Both | LboType::Space => len,
                    _ => self.lbo_pos,
                };
                if found == 0 {
                    len
                } else {
                    found
                }
            };
            let pending = if after_mark || at == self.lbo_pos {
                self.pending
            } else {
                0
            };
            let content = self.buffer.substring_trimmed_end(0, at);
            self.buffer.cr(at);
            assert(self.buffer@ =~= scan.buffer.subrange(at as int, len as int));
            self.pending = 0;
            if !after_mark && lbo.lbo_type == LboType::Space {
                self.finalized = 0;
                self.lbo_pos = 0;
            } else {
                let added = self.buffer.add(ch);
                assert(added);
                if !after_mark && (lbo.lbo_type == LboType::Before || lbo.lbo_type
                    == LboType::Both) {
                    self.finalized = w;
                    self.lbo_pos = 0;
                } else {
                    self.finalized = pending + w;
                    if after_mark || lbo.lbo_type == LboType::After {
                        self.lbo_pos = self.buffer.len();
                    } else {
                        self.lbo_pos = 0;
                    }
                }
            }
            assert(self.buffer@ =~= fed.scan.buffer);
            return Some(self.with_indent(content));
        }
        if w > 0 {
            let added = self.buffer.add(ch);
            assert(added);
        }
        match lbo.lbo_type {
            LboType::Before => {
                if lbo.lbo_prev != LboType::Before {
                    self.lbo_pos = len;
                    self.finalized = self.finalized + self.pending;
                    self.pending = w;
                } else {
                    self.pending = self.pending + w;
                }
            },
            LboType::Both => {
                self.lbo_pos = len;
                self.finalized = self.finalized + self.pending;
                self.pending = w;
            },
            LboType::After | LboType::Space => {
                self.lbo_pos = self.buffer.len();
                self.finalized = self.finalized + self.pending + w;
                self.pending = 0;
            },
            _ => {
                self.pending = self.pending + w;
            },
        }
        assert(self.buffer@ =~= fed.scan.buffer);
        None
    }

    /// Returns the next line, or `None` once the last line has been
    /// returned: see [`next_spec`]. The last line is what is left when the
    /// text has been read, and may be empty.
    ///
    /// A line fits in the line width, unless it is a single character that
    /// is wider than what the indent leaves of the line. It does not end in
    /// white space. Every line leaves less work than there was, so the lines
    /// come to an end; from then on the result is `None` and nothing
    /// changes.
    pub fn next(&mut self) -> (line: Option<String>)
        requires
            old(self).wf(),
        ensures
            final(self).wf(),
            final(self)@ == next_spec(old(self)@).state,
            line_view(line) == next_spec(old(self)@).line(old(self)@.indent),
            line is Some <==> old(self)@.has_next,
            line is None ==> final(self)@ == old(self)@,
            line is Some ==> work_left(final(self)@) < work_left(old(self)@),
            line matches Some(text) ==> {
                ||| text_width_spec(text@) <= old(self)@.width
                ||| next_spec(old(self)@).content matches Some(content) && content.len() == 1
                    && char_width_spec(content[0]) > old(self)@.limit()
            },
            line matches Some(text) ==> text@.len() == 0 || !white_space(text@.last()),
    {
        let line = self.advance();
        proof {
            if old(self)@.has_next {
                law_line_fits(old(self)@);
                law_no_space_at_end(old(self)@);
                law_every_line_is_progress(old(self)@);
            }
        }
        line
    }

    /// Does what [`LineIter::next`] does.
    fn advance(&mut self) -> (line: Option<String>)
        requires
            old(self).wf(),
        ensures
            final(self).wf(),
            final(self)@ == next_spec(old(self)@).state,
            line_view(line) == next_spec(old(self)@).line(old(self)@.indent),
    {
        if !self.has_next {
            return None;
        }
        let limit = self.limit - self.indent_width;
        if self.finalized >= limit {
            return Some(self.carry(limit));
        }
        let mut lbo = LboState {
            lbo_type: LboType::Never,
            lbo_prev: LboType::Never,
            open_apos: self.open_apos,
            open_quot: self.open_quot,
        };
        let ghost start = self@;
        proof {
            lemma_start_scan(start);
            lemma_scan(start.scan(), limit as nat, start.rest);
        }
        loop
            invariant
                start == old(self)@,
                start.wf(),
                start.has_next,
                limit == start.limit(),
                text_width_spec(start.buffer) < start.limit(),
                self.reading(lbo, limit),
                self.limit == start.width,
                self.indent@ == start.indent,
                self.open_quot == start.open_quot,
                self.open_apos == start.open_apos,
                self.has_next,
                scan_spec(self.scan_of(lbo), limit as nat, self.rest@) == scan_spec(
                    start.scan(),
                    limit as nat,
                    start.rest,
                ),
            ensures
                self.rest@.len() == 0,
            decreases self.rest@.len(),
        {
            match next_char(self.rest) {
                None => {
                    break ;
                },
                Some((ch, tail)) => {
                    proof {
                        lemma_feed(self.scan_of(lbo), limit as nat, ch);
                        lemma_start_scan(start);
                        lemma_scan(start.scan(), limit as nat, start.rest);
                    }
                    self.rest = tail;
                    let line = self.feed(&mut lbo, limit, ch);
                    if line.is_some() {
                        self.open_quot = lbo.open_quot;
                        self.open_apos = lbo.open_apos;
                        assert(self@ =~= next_spec(start).state);
                        return line;
                    }
                },
            }
        }
        let ghost found = scan_spec(start.scan(), limit as nat, start.rest);
        assert(found.content is None && found.scan == self.scan_of(lbo));
        let content = self.buffer.to_string_trimmed_end();
        self.buffer.clear();
        self.finalized = 0;
        self.pending = 0;
        self.lbo_pos = 0;
        self.has_next = false;
        assert(self.rest@ =~= Seq::<char>::empty());
        assert(self@ =~= next_spec(start).state);
        Some(self.with_indent(content))
    }
}

} // verus!
