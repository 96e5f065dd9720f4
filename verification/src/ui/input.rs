//! A line of text being typed, with a cursor.

use vstd::prelude::*;

use crate::bytes;
use crate::bytes::{bytes_between, char_index, utf8_len};
use crate::text::{piece, string_of};
use crate::ui::wrap;
use crate::ui::wrap::width_of;

verus! {

broadcast use vstd::string::group_string_axioms;

/// A line of input.
pub struct LineInput {
    /// The text typed so far.
    pub chars: Vec<char>,
    /// Byte-offset cursor position within the text.
    pub cursor: usize,
}

/// A line of input as its text and the number of characters before the cursor.
pub struct Line {
    pub text: Seq<char>,
    pub at: int,
}

impl Line {
    /// Nothing typed.
    pub open spec fn blank() -> Line {
        Line { text: Seq::empty(), at: 0 }
    }

    /// The character goes in at the cursor, which moves behind it.
    pub open spec fn typed(self, c: char) -> Line {
        Line { text: self.text.insert(self.at, c), at: self.at + 1 }
    }

    /// The character before the cursor goes.
    pub open spec fn erased(self) -> Line {
        if self.at > 0 {
            Line { text: self.text.remove(self.at - 1), at: self.at - 1 }
        } else {
            self
        }
    }

    /// The cursor one character to the left.
    pub open spec fn to_left(self) -> Line {
        if self.at > 0 {
            Line { at: self.at - 1, ..self }
        } else {
            self
        }
    }

    /// The cursor one character to the right.
    pub open spec fn to_right(self) -> Line {
        if self.at < self.text.len() {
            Line { at: self.at + 1, ..self }
        } else {
            self
        }
    }
}

impl View for LineInput {
    type V = Line;

    open spec fn view(&self) -> Line {
        Line {
            text: self.chars@,
            at: match bytes::chars_before(self.chars@, self.cursor as int) {
                Some(k) => k,
                None => 0,
            },
        }
    }
}

impl LineInput {
    /// The cursor lies between two characters, or at one end of the text.
    pub open spec fn wf(&self) -> bool {
        &&& bytes::chars_before(self.chars@, self.cursor as int) is Some
        &&& bytes::byte_len(self.chars@) <= usize::MAX
    }

    /// Whether there is room for the character.
    pub open spec fn has_room(&self, c: char) -> bool {
        bytes::byte_len(self.chars@) + bytes::char_bytes(c) <= usize::MAX
    }

    /// The cursor is the byte length of the characters before it.
    pub proof fn lemma_cursor(&self)
        requires
            self.wf(),
        ensures
            0 <= self@.at <= self@.text.len(),
            self.cursor == bytes::byte_len(self@.text.take(self@.at)),
    {
        bytes::lemma_chars_before(self.chars@, self.cursor as int);
    }

    /// An empty line.
    pub fn new() -> (r: LineInput)
        ensures
            r.wf(),
            r@ == Line::blank(),
    {
        let r = LineInput { chars: Vec::new(), cursor: 0 };
        proof {
            assert(r.chars@ =~= Seq::<char>::empty());
            bytes::lemma_byte_len_bounds(r.chars@);
        }
        r
    }

    /// Whether nothing is typed.
    pub fn is_empty(&self) -> (r: bool)
        ensures
            r == (self@.text.len() == 0),
    {
        self.chars.len() == 0
    }

    /// The text typed so far.
    pub fn text(&self) -> (r: String)
        ensures
            r@ == self@.text,
    {
        string_of(&self.chars)
    }

    /// Empties the line.
    pub fn clear(&mut self)
        ensures
            final(self).wf(),
            final(self)@ == Line::blank(),
    {
        self.chars = Vec::new();
        self.cursor = 0;
        proof {
            assert(self.chars@ =~= Seq::<char>::empty());
            bytes::lemma_byte_len_bounds(self.chars@);
        }
    }

    /// How many characters come before the cursor.
    fn at(&self) -> (r: usize)
        requires
            self.wf(),
        ensures
            r == self@.at,
            r <= self.chars.len(),
    {
        match char_index(&self.chars, self.cursor) {
            Some(k) => k,
            None => 0,
        }
    }

    /// Whether there is room for the character: a text is at most `usize::MAX` bytes long.
    pub fn takes(&self, c: char) -> (r: bool)
        requires
            self.wf(),
        ensures
            r == self.has_room(c),
    {
        proof {
            assert(self.chars@.subrange(0, self.chars@.len() as int) =~= self.chars@);
        }
        bytes_between(&self.chars, 0, self.chars.len()) <= usize::MAX - utf8_len(c)
    }

    /// Types a character at the cursor.
    pub fn insert(&mut self, c: char)
        requires
            old(self).wf(),
            old(self).has_room(c),
        ensures
            final(self).wf(),
            final(self)@ == old(self)@.typed(c),
            final(self).cursor == old(self).cursor + bytes::char_bytes(c),
    {
        let k = self.at();
        let ghost before = self.chars@;
        proof {
            self.lemma_cursor();
            bytes::lemma_byte_len_take(before, k as int, k as int);
        }
        self.chars.insert(k, c);
        self.cursor = self.cursor + utf8_len(c);
        proof {
            let after = self.chars@;
            assert(after == before.insert(k as int, c));
            assert(after.take(k + 1) =~= before.take(k as int).push(c));
            bytes::lemma_byte_len_push(before.take(k as int), c);
            bytes::lemma_chars_before_take(after, k + 1);
            assert(before =~= before.take(k as int) + before.skip(k as int));
            bytes::lemma_byte_len_concat(before.take(k as int), before.skip(k as int));
            assert(after =~= after.take(k + 1) + before.skip(k as int));
            bytes::lemma_byte_len_concat(after.take(k + 1), before.skip(k as int));
        }
    }

    /// Removes the character before the cursor.
    pub fn backspace(&mut self)
        requires
            old(self).wf(),
        ensures
            final(self).wf(),
            final(self)@ == old(self)@.erased(),
    {
        proof {
            self.lemma_cursor();
        }
        if self.cursor > 0 {
            let k = self.at();
            let ghost before = self.chars@;
            proof {
                assert(before.take(0) =~= Seq::<char>::empty());
                bytes::lemma_byte_len_bounds(before.take(0));
                assert(k > 0);
                assert(before.take(k as int) =~= before.take(k - 1).push(before[k - 1]));
                bytes::lemma_byte_len_push(before.take(k - 1), before[k - 1]);
            }
            let c = self.chars.remove(k - 1);
            self.cursor = self.cursor - utf8_len(c);
            proof {
                let after = self.chars@;
                assert(after == before.remove(k - 1));
                assert(after.take(k - 1) =~= before.take(k - 1));
                bytes::lemma_chars_before_take(after, k - 1);
                assert(before =~= before.take(k as int) + before.skip(k as int));
                bytes::lemma_byte_len_concat(before.take(k as int), before.skip(k as int));
                assert(after =~= before.take(k - 1) + before.skip(k as int));
                bytes::lemma_byte_len_concat(before.take(k - 1), before.skip(k as int));
            }
        } else {
            proof {
                assert(self@.at == 0);
            }
        }
    }

    /// Moves the cursor one character to the left.
    pub fn left(&mut self)
        requires
            old(self).wf(),
        ensures
            final(self).wf(),
            final(self)@ == old(self)@.to_left(),
    {
        proof {
            self.lemma_cursor();
        }
        if self.cursor > 0 {
            let k = self.at();
            let ghost s = self.chars@;
            proof {
                assert(s.take(0) =~= Seq::<char>::empty());
                bytes::lemma_byte_len_bounds(s.take(0));
                assert(k > 0);
                assert(s.take(k as int) =~= s.take(k - 1).push(s[k - 1]));
                bytes::lemma_byte_len_push(s.take(k - 1), s[k - 1]);
                bytes::lemma_chars_before_take(s, k - 1);
            }
            self.cursor = self.cursor - utf8_len(self.chars[k - 1]);
        }
    }

    /// Moves the cursor one character to the right.
    pub fn right(&mut self)
        requires
            old(self).wf(),
        ensures
            final(self).wf(),
            final(self)@ == old(self)@.to_right(),
    {
        let k = self.at();
        proof {
            self.lemma_cursor();
        }
        if k < self.chars.len() {
            let ghost s = self.chars@;
            proof {
                assert(s.take(k + 1) =~= s.take(k as int).push(s[k as int]));
                bytes::lemma_byte_len_push(s.take(k as int), s[k as int]);
                bytes::lemma_byte_len_take(s, k as int, k + 1);
                bytes::lemma_chars_before_take(s, k + 1);
            }
            self.cursor = self.cursor + utf8_len(self.chars[k]);
        }
    }

    /// Moves the cursor to the start.
    pub fn home(&mut self)
        requires
            old(self).wf(),
        ensures
            final(self).wf(),
            final(self)@ == (Line { at: 0, ..old(self)@ }),
    {
        self.cursor = 0;
    }

    /// Moves the cursor to the end.
    pub fn end(&mut self)
        requires
            old(self).wf(),
        ensures
            final(self).wf(),
            final(self)@ == (Line { at: old(self)@.text.len() as int, ..old(self)@ }),
    {
        proof {
            let n = self.chars@.len() as int;
            assert(self.chars@.subrange(0, n) =~= self.chars@);
            assert(self.chars@.take(n) =~= self.chars@);
            bytes::lemma_chars_before_take(self.chars@, n);
        }
        self.cursor = bytes_between(&self.chars, 0, self.chars.len());
    }

    /// The display column of the cursor, counted from the start of the text.
    pub fn column(&self) -> (r: usize)
        requires
            self.wf(),
        ensures
            r == wrap::display_width(self@.text.take(self@.at)),
    {
        let k = self.at();
        let before = piece(&self.chars, 0, k);
        proof {
            assert(before@ =~= self@.text.take(self@.at));
        }
        width_of(&before)
    }
}

/// Backspace takes back what was typed.
pub proof fn law_backspace_undoes_typing(line: Line, c: char)
    requires
        0 <= line.at <= line.text.len(),
    ensures
        line.typed(c).erased() == line,
{
    assert(line.typed(c).erased().text =~= line.text);
}

/// Moving left takes back moving right, and moving right takes back moving left, where there is
/// somewhere to move to.
pub proof fn law_moves_undo_each_other(line: Line)
    ensures
        line.at < line.text.len() && line.at >= 0 ==> line.to_right().to_left() == line,
        0 < line.at <= line.text.len() ==> line.to_left().to_right() == line,
{
}

/// What is typed goes in between what stands before the cursor and what stands behind it, and
/// backspace takes the last character before the cursor.
pub proof fn law_cursor_parts_the_text(before: Seq<char>, after: Seq<char>, c: char)
    ensures
        ({
            let n = before.len() as int;
            let line = Line { text: before + after, at: n };
            &&& line.typed(c) == Line { text: before + seq![c] + after, at: n + 1 }
            &&& (Line { text: before + seq![c] + after, at: n + 1 }).erased() == line
            &&& line.to_left().text == before + after
            &&& line.to_right().text == before + after
            &&& before.len() > 0 ==> line.to_left().at == n - 1
            &&& before.len() == 0 ==> line.to_left() == line && line.erased() == line
            &&& after.len() > 0 ==> line.to_right().at == n + 1
            &&& after.len() == 0 ==> line.to_right() == line
        }),
        Line::blank().text.len() == 0,
        Line::blank().at == 0,
{
    let n = before.len() as int;
    let line = Line { text: before + after, at: n };
    assert(line.typed(c).text =~= before + seq![c] + after);
    assert((Line { text: before + seq![c] + after, at: n + 1 }).erased().text =~= before + after);
}

} // verus!
