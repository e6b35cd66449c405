//! The characters of the line that is being put together.

use crate::unicode::{is_whitespace, white_space};
use vstd::prelude::*;

verus! {

/// A text without the white space at its end: the longest part of `text`,
/// taken from its start, that is empty or ends in a character that is not
/// white space.
pub open spec fn trim_end(text: Seq<char>) -> Seq<char>
    decreases text.len(),
{
    if text.len() == 0 {
        text
    } else if white_space(text.last()) {
        trim_end(text.drop_last())
    } else {
        text
    }
}

/// The part of `text` from `start` up to `end`, where an `end` behind the
/// text stands for the end of the text, without the white space at its end.
/// It is empty where that part holds no character.
pub open spec fn trimmed_range(text: Seq<char>, start: int, end: int) -> Seq<char> {
    let end = if end <= text.len() {
        end
    } else {
        text.len() as int
    };
    if 0 <= start < end {
        trim_end(text.subrange(start, end))
    } else {
        Seq::empty()
    }
}

/// What [`trim_end`] returns is the start of the text, what it leaves out is
/// white space only, and it does not end in white space.
pub proof fn lemma_trim_end(text: Seq<char>)
    ensures
        trim_end(text).len() <= text.len(),
        trim_end(text) == text.subrange(0, trim_end(text).len() as int),
        forall|i: int| trim_end(text).len() <= i < text.len() ==> white_space(text[i]),
        trim_end(text).len() > 0 ==> !white_space(trim_end(text).last()),
    decreases text.len(),
{
    if text.len() == 0 {
        assert(text =~= text.subrange(0, 0));
    } else if white_space(text.last()) {
        let shorter = text.drop_last();
        lemma_trim_end(shorter);
        let n = trim_end(shorter).len() as int;
        assert(shorter.subrange(0, n) =~= text.subrange(0, n));
        assert forall|i: int| n <= i < text.len() implies white_space(text[i]) by {
            if i < shorter.len() {
                assert(shorter[i] == text[i]);
            }
        }
    } else {
        assert(text =~= text.subrange(0, text.len() as int));
    }
}

/// Calls `String::push`. Trusted: the string afterwards is the string before
/// with `ch` at its end.
#[verifier::external_body]
pub(crate) fn push_char(text: &mut String, ch: char)
    ensures
        final(text)@ == old(text)@.push(ch),
{
    text.push(ch);
}

/// The characters of `chars` from `start` up to `end` as a string.
pub(crate) fn string_of(chars: &Vec<char>, start: usize, end: usize) -> (text: String)
    requires
        start <= end <= chars@.len(),
    ensures
        text@ == chars@.subrange(start as int, end as int),
{
    let mut text = String::new();
    let mut i: usize = start;
    while i < end
        invariant
            start <= i <= end <= chars@.len(),
            text@ == chars@.subrange(start as int, i as int),
        decreases end - i,
    {
        push_char(&mut text, chars[i]);
        assert(chars@.subrange(start as int, i as int).push(chars@[i as int])
            == chars@.subrange(start as int, i + 1));
        i += 1;
    }
    text
}

/// A sequence of characters that never grows beyond the capacity it was
/// made with.
pub struct CharBuffer {
    ch_vec: Vec<char>,
    limit: usize,
}

impl View for CharBuffer {
    type V = Seq<char>;

    closed spec fn view(&self) -> Seq<char> {
        self.ch_vec@
    }
}

impl CharBuffer {
    /// The number of characters that the buffer can hold.
    pub closed spec fn capacity(&self) -> nat {
        self.limit as nat
    }

    /// The buffer holds no more than its capacity.
    pub closed spec fn wf(&self) -> bool {
        self.ch_vec@.len() <= self.limit
    }

    /// A buffer that is well formed holds no more than its capacity.
    pub proof fn lemma_within_capacity(&self)
        requires
            self.wf(),
        ensures
            self@.len() <= self.capacity(),
    {
    }

    /// Creates an empty buffer for up to `capacity` characters.
    pub fn new(capacity: usize) -> (buffer: CharBuffer)
        ensures
            buffer.wf(),
            buffer@ == Seq::<char>::empty(),
            buffer.capacity() == capacity,
    {
        CharBuffer { ch_vec: Vec::new(), limit: capacity }
    }

    /// Appends `ch`, unless the buffer is full: then nothing changes and the
    /// result is `false`.
    pub fn add(&mut self, ch: char) -> (added: bool)
        requires
            old(self).wf(),
        ensures
            final(self).wf(),
            added == (old(self)@.len() < old(self).capacity()),
            final(self)@ == if added {
                old(self)@.push(ch)
            } else {
                old(self)@
            },
            final(self).capacity() == old(self).capacity(),
    {
        if self.ch_vec.len() >= self.limit {
            return false;
        }
        self.ch_vec.push(ch);
        true
    }

    /// Removes the first `start` characters and moves the others to the
    /// front, in their order. A `start` at or behind the end empties the
    /// buffer.
    pub fn cr(&mut self, start: usize)
        requires
            old(self).wf(),
        ensures
            final(self).wf(),
            final(self)@ == if start >= old(self)@.len() {
                Seq::<char>::empty()
            } else {
                old(self)@.subrange(start as int, old(self)@.len() as int)
            },
            final(self).capacity() == old(self).capacity(),
    {
        let n = self.ch_vec.len();
        if start >= n {
            self.ch_vec.clear();
            return;
        }
        let ghost before = self.ch_vec@;
        let mut i: usize = start;
        while i < n
            invariant
                start <= i <= n,
                n == before.len(),
                self.ch_vec@.len() == n,
                self.limit == old(self).limit,
                n <= self.limit,
                forall|j: int| 0 <= j < i - start ==> self.ch_vec@[j] == before[j + start],
                forall|j: int| i - start <= j < n ==> self.ch_vec@[j] == before[j],
            decreases n - i,
        {
            let ch = self.ch_vec[i];
            self.ch_vec.set(i - start, ch);
            i += 1;
        }
        self.ch_vec.truncate(n - start);
        assert(self.ch_vec@ =~= before.subrange(start as int, n as int));
    }

    /// The whole content as a string.
    pub fn full(&self) -> (text: String)
        ensures
            text@ == self@,
    {
        let text = string_of(&self.ch_vec, 0, self.ch_vec.len());
        assert(self.ch_vec@.subrange(0, self.ch_vec@.len() as int) =~= self.ch_vec@);
        text
    }

    /// Empties the buffer.
    pub fn clear(&mut self)
        ensures
            final(self).wf(),
            final(self)@ == Seq::<char>::empty(),
            final(self).capacity() == old(self).capacity(),
    {
        self.ch_vec.clear();
    }

    /// The number of characters in the buffer.
    pub fn len(&self) -> (n: usize)
        ensures
            n == self@.len(),
    {
        self.ch_vec.len()
    }

    /// Whether the buffer holds no character.
    pub fn is_empty(&self) -> (empty: bool)
        ensures
            empty == (self@.len() == 0),
    {
        self.ch_vec.len() == 0
    }

    /// The character at `index`, if there is one.
    pub fn get(&self, index: usize) -> (ch: Option<char>)
        ensures
            ch == if index < self@.len() {
                Some(self@[index as int])
            } else {
                None
            },
    {
        if index < self.ch_vec.len() {
            Some(self.ch_vec[index])
        } else {
            None
        }
    }

    /// The content without the white space at its end.
    pub fn to_string_trimmed_end(&self) -> (text: String)
        ensures
            text@ == trim_end(self@),
    {
        let n = self.ch_vec.len();
        let text = self.substring_trimmed_end(0, n);
        assert(self@.subrange(0, n as int) =~= self@);
        text
    }

    /// The characters from `start` up to `end`, or up to the end of the
    /// content if `end` lies behind it, without the white space at their end.
    pub fn substring_trimmed_end(&self, start: usize, end: usize) -> (text: String)
        ensures
            text@ == trimmed_range(self@, start as int, end as int),
    {
        let n = self.ch_vec.len();
        let stop = if end <= n {
            end
        } else {
            n
        };
        if start >= stop {
            return String::new();
        }
        let mut last: usize = stop;
        while last > start
            invariant
                start <= last <= stop <= self.ch_vec@.len(),
                start < stop,
                stop == if end <= self.ch_vec@.len() {
                    end
                } else {
                    self.ch_vec@.len() as usize
                },
                trim_end(self.ch_vec@.subrange(start as int, stop as int)) == trim_end(
                    self.ch_vec@.subrange(start as int, last as int),
                ),
            decreases last,
        {
            let ghost part = self.ch_vec@.subrange(start as int, last as int);
            assert(part.last() == self.ch_vec@[last - 1]);
            if !is_whitespace(self.ch_vec[last - 1]) {
                assert(trim_end(part) == part);
                return string_of(&self.ch_vec, start, last);
            }
            assert(part.drop_last() =~= self.ch_vec@.subrange(start as int, last - 1));
            last -= 1;
        }
        String::new()
    }
}

} // verus!
