//! A cursor over the characters of the source text.
use vstd::prelude::*;
use vstd::slice::slice_subrange;

use crate::common::errors::CharStreamError;
use crate::common::text;

verus! {

/// The characters of a source text and an offset into them. Offsets count
/// characters, not bytes.
#[derive(Debug)]
pub struct CharStream {
    chars: Vec<char>,
    offset: usize,
}

impl CharStream {
    /// The whole text that the stream runs over.
    pub closed spec fn source(&self) -> Seq<char> {
        self.chars@
    }

    /// How many characters have been passed.
    pub closed spec fn position(&self) -> nat {
        self.offset as nat
    }

    /// The cursor never leaves the text.
    #[verifier::type_invariant]
    pub closed spec fn within_source(&self) -> bool {
        self.offset <= self.chars.len()
    }

    /// A stream at the start of `src`.
    pub fn new(src: &str) -> (stream: CharStream)
        ensures
            stream.source() == src@,
            stream.position() == 0,
    {
        CharStream { chars: text::chars_of(src), offset: 0 }
    }

    /// The current offset.
    pub fn offset(&self) -> (offset: usize)
        ensures
            offset == self.position(),
            offset <= self.source().len() <= usize::MAX,
    {
        proof {
            use_type_invariant(self);
        }
        let _ = self.chars.len();
        self.offset
    }

    /// Steps over one character; at the end of the text it stays there.
    pub fn advance(&mut self)
        ensures
            final(self).source() == old(self).source(),
            final(self).position() == if old(self).position() < old(self).source().len() {
                old(self).position() + 1
            } else {
                old(self).position()
            },
    {
        proof {
            use_type_invariant(&*self);
        }
        if self.offset < self.chars.len() {
            self.offset = self.offset + 1;
        }
    }

    /// The character under the cursor, or `EndOfFile` after the last one.
    pub fn peek(&self) -> (next: Result<char, CharStreamError>)
        ensures
            self.position() <= self.source().len(),
            next == (if self.position() < self.source().len() {
                Ok::<char, CharStreamError>(self.source()[self.position() as int])
            } else {
                Err::<char, CharStreamError>(CharStreamError::EndOfFile)
            }),
    {
        proof {
            use_type_invariant(self);
        }
        if self.reached_end() {
            Err(CharStreamError::EndOfFile)
        } else {
            let ch = self.chars[self.offset];
            Ok(ch)
        }
    }

    pub fn reached_end(&self) -> (at_end: bool)
        ensures
            at_end == (self.position() >= self.source().len()),
    {
        self.offset >= self.chars.len()
    }

    fn slice_at(&self, offset: usize, length: usize) -> (slice: &[char])
        requires
            offset + length <= self.source().len(),
        ensures
            slice@ == self.source().subrange(offset as int, offset + length),
    {
        let chars = self.chars.as_slice();
        assert(offset + length <= chars.len());
        slice_subrange(chars, offset, offset + length)
    }

    /// Moves the cursor forward to the first character for which `pred`
    /// holds, or to the end of the text where there is none.
    pub fn advance_until<F>(&mut self, pred: F) where F: Fn(char) -> bool
        requires
            forall|c: char| pred.requires((c,)),
        ensures
            final(self).source() == old(self).source(),
            old(self).position() <= final(self).position() <= old(self).source().len(),
            forall|i: int|
                old(self).position() <= i < final(self).position() ==> pred.ensures(
                    (#[trigger] old(self).source()[i],),
                    false,
                ),
            final(self).position() < old(self).source().len() ==> pred.ensures(
                (old(self).source()[final(self).position() as int],),
                true,
            ),
    {
        proof {
            use_type_invariant(&*self);
        }
        while self.offset < self.chars.len()
            invariant
                self.chars == old(self).chars,
                old(self).offset <= self.offset <= self.chars.len(),
                forall|c: char| pred.requires((c,)),
                forall|i: int|
                    old(self).offset <= i < self.offset ==> pred.ensures(
                        (#[trigger] self.chars@[i],),
                        false,
                    ),
            ensures
                self.offset < self.chars.len() ==> pred.ensures(
                    (self.chars@[self.offset as int],),
                    true,
                ),
            decreases self.chars.len() - self.offset,
        {
            if pred(self.chars[self.offset]) {
                break ;
            }
            self.offset = self.offset + 1;
        }
    }

    /// Moves the cursor as `advance_until` does and returns the characters
    /// that it passed.
    pub fn take_until<F>(&mut self, pred: F) -> (taken: &[char]) where F: Fn(char) -> bool
        requires
            forall|c: char| pred.requires((c,)),
        ensures
            final(self).source() == old(self).source(),
            old(self).position() <= final(self).position() <= old(self).source().len(),
            forall|i: int|
                old(self).position() <= i < final(self).position() ==> pred.ensures(
                    (#[trigger] old(self).source()[i],),
                    false,
                ),
            final(self).position() < old(self).source().len() ==> pred.ensures(
                (old(self).source()[final(self).position() as int],),
                true,
            ),
            taken@ == old(self).source().subrange(
                old(self).position() as int,
                final(self).position() as int,
            ),
    {
        let offs = self.offset;
        self.advance_until(pred);
        self.slice_at(offs, self.offset - offs)
    }
}

} // verus!
