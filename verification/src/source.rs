//! A cursor over the characters of a source text.

use vstd::prelude::*;
use vstd::string::*;

verus! {

/// A source text and a position in it, counted in characters.
pub struct Source<'s> {
    text: &'s str,
    length: usize,
    index: usize,
}

/// The mathematical model of a [`Source`].
pub struct SourceView {
    pub chars: Seq<char>,
    pub index: nat,
}

impl<'s> View for Source<'s> {
    type V = SourceView;

    closed spec fn view(&self) -> SourceView {
        SourceView { chars: self.text@, index: self.index as nat }
    }
}

impl<'s> Source<'s> {
    #[verifier::type_invariant]
    spec fn well_formed(self) -> bool {
        self.length == self.text@.len() && self.index <= self.length
    }

    /// A cursor at the start of the text.
    pub fn new(source: &'s str) -> (r: Self)
        ensures
            r@ == (SourceView { chars: source@, index: 0 }),
    {
        Source { text: source, length: source.unicode_len(), index: 0 }
    }

    /// The position.
    pub fn index(&self) -> (r: usize)
        ensures
            r == self@.index,
            self@.index <= self@.chars.len() <= usize::MAX,
    {
        proof {
            use_type_invariant(self);
        }
        self.index
    }

    /// The character at a position, if there is one.
    pub fn get(&self, index: usize) -> (r: Option<char>)
        ensures
            r == (if index < self@.chars.len() {
                Some(self@.chars[index as int])
            } else {
                None
            }),
    {
        proof {
            use_type_invariant(self);
        }
        if index < self.length {
            Some(self.text.get_char(index))
        } else {
            None
        }
    }

    /// Steps over the character at the position and returns it; at the end
    /// of the text the cursor stays.
    pub fn advance(&mut self) -> (r: Option<char>)
        ensures
            final(self)@.chars == old(self)@.chars,
            old(self)@.index < old(self)@.chars.len() ==> r == Some(
                old(self)@.chars[old(self)@.index as int],
            ) && final(self)@.index == old(self)@.index + 1,
            old(self)@.index >= old(self)@.chars.len() ==> r.is_none() && final(self)@.index
                == old(self)@.index,
    {
        proof {
            use_type_invariant(&*self);
        }
        if self.index < self.length {
            let c = self.text.get_char(self.index);
            self.index += 1;
            Some(c)
        } else {
            None
        }
    }

    /// The character before the position.
    pub fn current(&self) -> (r: Option<char>)
        ensures
            r == (if 0 < self@.index {
                Some(self@.chars[self@.index - 1 as int])
            } else {
                None
            }),
    {
        proof {
            use_type_invariant(self);
        }
        if self.index > 0 {
            self.get(self.index - 1)
        } else {
            None
        }
    }

    /// The character at the position.
    pub fn peek(&self) -> (r: Option<char>)
        ensures
            r == (if self@.index < self@.chars.len() {
                Some(self@.chars[self@.index as int])
            } else {
                None
            }),
            self@.index <= self@.chars.len() <= usize::MAX,
    {
        proof {
            use_type_invariant(self);
        }
        self.get(self.index)
    }

    /// The character after the one at the position.
    pub fn peek_next(&self) -> (r: Option<char>)
        ensures
            r == (if self@.index + 1 < self@.chars.len() {
                Some(self@.chars[self@.index + 1 as int])
            } else {
                None
            }),
    {
        proof {
            use_type_invariant(self);
        }
        if self.index < self.length {
            self.get(self.index + 1)
        } else {
            None
        }
    }

    /// The text between two positions.
    pub fn slice(&self, start: usize, end: usize) -> (r: &str)
        requires
            start <= end <= self@.chars.len(),
        ensures
            r@ == self@.chars.subrange(start as int, end as int),
    {
        self.text.substring_char(start, end)
    }

    /// Steps over the character at the position if it is the expected one.
    pub fn test(&mut self, expected: char) -> (r: bool)
        ensures
            final(self)@.chars == old(self)@.chars,
            r == (old(self)@.index < old(self)@.chars.len() && old(self)@.chars[old(self)@.index as int] == expected),
            final(self)@.index == if r {
                old(self)@.index + 1
            } else {
                old(self)@.index
            },
    {
        proof {
            use_type_invariant(&*self);
        }
        match self.peek() {
            None => false,
            Some(c) => if c == expected {
                self.index += 1;
                true
            } else {
                false
            },
        }
    }
}

} // verus!
