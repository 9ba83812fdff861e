//! A one-line text editor.

use crate::text::{byte_offset, char_width, lemma_byte_offset_step, lemma_byte_offsets_grow};
use vstd::prelude::*;

verus! {

/// A text with a cursor, which is a byte offset in front of a character or at
/// the end.
#[derive(Debug, PartialEq, Eq)]
pub struct TextField {
    pub value: String,
    pub cursor: usize,
}

/// A text with a cursor, which is in front of character `position`.
pub ghost struct FieldView {
    pub text: Seq<char>,
    pub position: int,
}

impl FieldView {
    /// The cursor is in the text.
    pub open spec fn wf(self) -> bool {
        0 <= self.position <= self.text.len()
    }

    /// A text with the cursor at its end.
    pub open spec fn at_end(text: Seq<char>) -> FieldView {
        FieldView { text, position: text.len() as int }
    }

    /// A character typed at the cursor.
    pub open spec fn inserted(self, c: char) -> FieldView {
        FieldView { text: self.text.insert(self.position, c), position: self.position + 1 }
    }

    /// The character in front of the cursor removed, if there is one.
    pub open spec fn backspaced(self) -> FieldView {
        if self.position > 0 {
            FieldView {
                text: self.text.remove(self.position - 1),
                position: self.position - 1,
            }
        } else {
            self
        }
    }

    /// The character behind the cursor removed, if there is one.
    pub open spec fn deleted(self) -> FieldView {
        if self.position < self.text.len() {
            FieldView { text: self.text.remove(self.position), ..self }
        } else {
            self
        }
    }

    /// The cursor one character to the left, if there is one.
    pub open spec fn moved_left(self) -> FieldView {
        if self.position > 0 {
            FieldView { position: self.position - 1, ..self }
        } else {
            self
        }
    }

    /// The cursor one character to the right, if there is one.
    pub open spec fn moved_right(self) -> FieldView {
        if self.position < self.text.len() {
            FieldView { position: self.position + 1, ..self }
        } else {
            self
        }
    }

    /// The cursor at the beginning.
    pub open spec fn moved_home(self) -> FieldView {
        FieldView { position: 0, ..self }
    }

    /// The cursor at the end.
    pub open spec fn moved_to_end(self) -> FieldView {
        FieldView::at_end(self.text)
    }
}

/// Backspace takes back what was typed, and so does delete once the cursor is
/// in front of it again.
pub proof fn law_typing_can_be_undone(field: FieldView, c: char)
    requires
        field.wf(),
    ensures
        field.inserted(c).wf(),
        field.inserted(c).backspaced() == field,
        field.inserted(c).moved_left().deleted() == field,
{
    let typed = field.inserted(c).text;
    assert(typed.remove(field.position) =~= field.text);
}

/// A step of the cursor is undone by the opposite step, unless it was blocked.
pub proof fn law_steps_are_opposite(field: FieldView)
    requires
        field.wf(),
    ensures
        field.position > 0 ==> field.moved_left().moved_right() == field,
        field.position < field.text.len() ==> field.moved_right().moved_left() == field,
{
}

impl TextField {
    /// The cursor is in front of character `k`.
    pub open spec fn is_at(self, k: int) -> bool {
        0 <= k <= self.value@.len() && self.cursor == byte_offset(self.value@, k)
    }

    /// The cursor is in front of some character, or at the end.
    pub open spec fn wf(self) -> bool {
        exists|k: int| self.is_at(k)
    }

    proof fn lemma_position(self, k: int)
        requires
            self.is_at(k),
        ensures
            self@.position == k,
    {
        let p = self@.position;
        assert(self.is_at(p));
        if p < k {
            lemma_byte_offsets_grow(self.value@, p, k);
        } else if k < p {
            lemma_byte_offsets_grow(self.value@, k, p);
        }
    }

    /// Which character the cursor is in front of.
    fn find(&self) -> (k: usize)
        requires
            self.wf(),
        ensures
            self.is_at(k as int),
            self@.position == k,
    {
        let ghost p = self@.position;
        assert(self.is_at(p));
        let mut k: usize = 0;
        let mut offset: usize = 0;
        assert(self.value@.take(0) =~= Seq::<char>::empty());
        let length: usize = self.value.as_str().unicode_len();
        while offset < self.cursor
            invariant
                self.is_at(p),
                0 <= k <= p <= length == self.value@.len(),
                offset == byte_offset(self.value@, k as int),
            decreases p - k,
        {
            proof {
                lemma_byte_offset_step(self.value@, k as int);
                if k + 1 < p {
                    lemma_byte_offsets_grow(self.value@, k + 1, p);
                }
            }
            offset += char_width(self.value.as_str().get_char(k));
            k += 1;
        }
        proof {
            if k < p {
                lemma_byte_offsets_grow(self.value@, k as int, p);
            }
        }
        k
    }

    /// A field with the cursor behind its text.
    pub fn new(value: &str) -> (field: TextField)
        ensures
            field.wf(),
            field@ == FieldView::at_end(value@),
    {
        let field = TextField { value: value.to_owned(), cursor: value.as_bytes().len() };
        proof {
            let n = value@.len() as int;
            assert(value@.take(n) =~= value@);
            assert(field.is_at(n));
            field.lemma_position(n);
        }
        field
    }

    /// The field whose text is in two parts, with the cursor between them.
    fn assemble(before: String, after: &str) -> (field: TextField)
        ensures
            field.wf(),
            field@ == (FieldView { text: before@ + after@, position: before@.len() as int }),
    {
        let cursor: usize = before.as_str().as_bytes().len();
        let ghost k = before@.len() as int;
        let ghost front = before@;
        let mut value: String = before;
        value.append(after);
        let field = TextField { value, cursor };
        proof {
            assert(field.value@.take(k) =~= front);
            assert(field.is_at(k));
            field.lemma_position(k);
        }
        field
    }

    /// The part of the text between two characters.
    fn part(&self, from: usize, to: usize) -> (text: &str)
        requires
            from <= to <= self.value@.len(),
        ensures
            text@ == self.value@.subrange(from as int, to as int),
    {
        self.value.as_str().substring_char(from, to)
    }

    /// Types a character at the cursor.
    pub fn insert(&mut self, character: char)
        requires
            old(self).wf(),
        ensures
            final(self).wf(),
            final(self)@ == old(self)@.inserted(character),
    {
        let k: usize = self.find();
        let length: usize = self.value.as_str().unicode_len();
        let mut before: String = self.part(0, k).to_owned();
        before.push(character);
        let field = TextField::assemble(before, self.part(k, length));
        assert(field@.text =~= self@.text.insert(k as int, character));
        *self = field;
    }

    /// Removes the character in front of the cursor.
    pub fn backspace(&mut self)
        requires
            old(self).wf(),
        ensures
            final(self).wf(),
            final(self)@ == old(self)@.backspaced(),
    {
        let k: usize = self.find();
        if k > 0 {
            let length: usize = self.value.as_str().unicode_len();
            let field = TextField::assemble(self.part(0, k - 1).to_owned(), self.part(k, length));
            assert(field@.text =~= self@.text.remove(k - 1));
            *self = field;
        }
    }

    /// Removes the character behind the cursor.
    pub fn delete(&mut self)
        requires
            old(self).wf(),
        ensures
            final(self).wf(),
            final(self)@ == old(self)@.deleted(),
    {
        let k: usize = self.find();
        let length: usize = self.value.as_str().unicode_len();
        if k < length {
            let field = TextField::assemble(self.part(0, k).to_owned(), self.part(k + 1, length));
            assert(field@.text =~= self@.text.remove(k as int));
            *self = field;
        }
    }

    /// Moves the cursor one character to the left.
    pub fn move_left(&mut self)
        requires
            old(self).wf(),
        ensures
            final(self).wf(),
            final(self)@ == old(self)@.moved_left(),
    {
        let k: usize = self.find();
        if k > 0 {
            proof {
                lemma_byte_offset_step(self.value@, k - 1);
            }
            self.cursor = self.cursor - char_width(self.value.as_str().get_char(k - 1));
            proof {
                assert(self.is_at(k - 1));
                self.lemma_position(k - 1);
            }
        }
    }

    /// Moves the cursor one character to the right.
    pub fn move_right(&mut self)
        requires
            old(self).wf(),
        ensures
            final(self).wf(),
            final(self)@ == old(self)@.moved_right(),
    {
        let k: usize = self.find();
        let length: usize = self.value.as_str().unicode_len();
        if k < length {
            self.cursor = self.part(0, k + 1).as_bytes().len();
            proof {
                assert(self.value@.take(k + 1) =~= self.value@.subrange(0, k + 1));
                assert(self.is_at(k + 1));
                self.lemma_position(k + 1);
            }
        }
    }

    /// Moves the cursor to the beginning.
    pub fn move_home(&mut self)
        ensures
            final(self).wf(),
            final(self)@ == old(self)@.moved_home(),
    {
        self.cursor = 0;
        proof {
            assert(self.value@.take(0) =~= Seq::<char>::empty());
            assert(self.is_at(0));
            self.lemma_position(0);
        }
    }

    /// Moves the cursor to the end.
    pub fn move_end(&mut self)
        ensures
            final(self).wf(),
            final(self)@ == old(self)@.moved_to_end(),
    {
        self.cursor = self.value.as_str().as_bytes().len();
        proof {
            let n = self.value@.len() as int;
            assert(self.value@.take(n) =~= self.value@);
            assert(self.is_at(n));
            self.lemma_position(n);
        }
    }

    /// How many characters are in front of the cursor.
    pub fn characters_before(&self) -> (count: usize)
        requires
            self.wf(),
        ensures
            count == self@.position,
    {
        self.find()
    }
}

impl View for TextField {
    type V = FieldView;

    open spec fn view(&self) -> FieldView {
        FieldView { text: self.value@, position: choose|k: int| self.is_at(k) }
    }
}

/// Editing happens at the cursor and nowhere else. A character comes to stand in
/// front of the cursor, backspace takes away the one in front of it, delete the
/// one behind it; the rest of the text stays in its order.
pub proof fn law_editing_is_local(field: FieldView, c: char)
    requires
        field.wf(),
    ensures
        ({
            let (text, p) = (field.text, field.position);
            let typed = field.inserted(c);
            &&& typed.position == p + 1
            &&& typed.text == text.take(p) + seq![c] + text.skip(p)
        }),
        ({
            let (text, p) = (field.text, field.position);
            let shorter = field.backspaced();
            &&& p == 0 ==> shorter == field
            &&& p > 0 ==> shorter.position == p - 1 && shorter.text == text.take(p - 1)
                + text.skip(p)
        }),
        ({
            let (text, p) = (field.text, field.position);
            let shorter = field.deleted();
            &&& p == text.len() ==> shorter == field
            &&& p < text.len() ==> shorter.position == p && shorter.text == text.take(p)
                + text.skip(p + 1)
        }),
{
    let (text, p) = (field.text, field.position);
    assert(field.inserted(c).text =~= text.take(p) + seq![c] + text.skip(p));
    if p > 0 {
        assert(field.backspaced().text =~= text.take(p - 1) + text.skip(p));
    }
    if p < text.len() {
        assert(field.deleted().text =~= text.take(p) + text.skip(p + 1));
    }
}

/// Moving changes the cursor alone: one character to the left or right, as far as
/// there is one, or to the beginning or the end.
pub proof fn law_moving_keeps_the_text(field: FieldView)
    requires
        field.wf(),
    ensures
        field.moved_left().text == field.text,
        field.moved_right().text == field.text,
        field.moved_home().text == field.text,
        field.moved_to_end().text == field.text,
        field.moved_left().position == (if field.position == 0 {
            0
        } else {
            field.position - 1
        }),
        field.moved_right().position == (if field.position == field.text.len() {
            field.position
        } else {
            field.position + 1
        }),
        field.moved_home().position == 0,
        field.moved_to_end().position == field.text.len(),
{
}

} // verus!
