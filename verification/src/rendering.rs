//! Rendered text that may hold floating-point values.
//!
//! A floating-point value is carried as its bit pattern and left for the printer:
//! everything else in a rendering is finished text.

use crate::text::{push_chars, push_signed, push_text, signed_decimal};
use vstd::prelude::*;

verus! {

/// One step of a rendering: a character, or a floating-point value still to be printed.
pub enum Glyph {
    Char(char),
    /// A 32-bit float, by its bit pattern.
    Single(u32),
    /// A 64-bit float, by its bit pattern.
    Double(u64),
}

/// A stretch of rendered output.
#[derive(Debug, PartialEq, Eq)]
pub enum Piece {
    Text(String),
    /// A 32-bit float, by its bit pattern.
    Single(u32),
    /// A 64-bit float, by its bit pattern.
    Double(u64),
}

/// A character as a step of a rendering.
pub open spec fn glyph(c: char) -> Glyph {
    Glyph::Char(c)
}

/// Text as a rendering.
pub open spec fn glyphs(s: Seq<char>) -> Seq<Glyph> {
    Seq::new(s.len(), |i: int| glyph(s[i]))
}

impl View for Piece {
    type V = Seq<Glyph>;

    open spec fn view(&self) -> Seq<Glyph> {
        match *self {
            Piece::Text(s) => glyphs(s@),
            Piece::Single(bits) => seq![Glyph::Single(bits)],
            Piece::Double(bits) => seq![Glyph::Double(bits)],
        }
    }
}

/// Pieces one after another.
pub open spec fn flatten(pieces: Seq<Piece>) -> Seq<Glyph>
    decreases pieces.len(),
{
    if pieces.len() == 0 {
        seq![]
    } else {
        flatten(pieces.drop_last()) + pieces.last()@
    }
}

/// Rendered output under construction.
#[derive(Debug)]
pub struct Rendering {
    done: Vec<Piece>,
    tail: String,
}

impl View for Rendering {
    type V = Seq<Glyph>;

    closed spec fn view(&self) -> Seq<Glyph> {
        flatten(self.done@) + glyphs(self.tail@)
    }
}

/// Text appended to text renders as the two one after another.
pub proof fn lemma_glyphs_concat(a: Seq<char>, b: Seq<char>)
    ensures
        glyphs(a + b) == glyphs(a) + glyphs(b),
{
    assert(glyphs(a + b) =~= glyphs(a) + glyphs(b));
}

/// Pieces put together give what they give one behind the other.
proof fn lemma_flatten_concat(a: Seq<Piece>, b: Seq<Piece>)
    ensures
        flatten(a + b) == flatten(a) + flatten(b),
    decreases b.len(),
{
    if b.len() == 0 {
        assert(a + b =~= a);
        assert(flatten(a) + flatten(b) =~= flatten(a));
    } else {
        lemma_flatten_concat(a, b.drop_last());
        assert((a + b).drop_last() =~= a + b.drop_last());
        assert(flatten(a + b) =~= flatten(a) + flatten(b));
    }
}

impl Rendering {
    /// Nothing rendered yet.
    pub fn new() -> (r: Self)
        ensures
            r@ == Seq::<Glyph>::empty(),
    {
        let r = Self { done: Vec::new(), tail: String::new() };
        assert(r@ =~= Seq::<Glyph>::empty());
        r
    }

    /// Appends one character.
    pub fn push(&mut self, c: char)
        ensures
            final(self)@ == old(self)@ + glyphs(seq![c]),
    {
        self.tail.push(c);
        assert(self@ =~= old(self)@ + glyphs(seq![c]));
    }

    /// Appends text.
    pub fn push_str(&mut self, s: &str)
        ensures
            final(self)@ == old(self)@ + glyphs(s@),
    {
        push_text(&mut self.tail, s);
        assert(self@ =~= old(self)@ + glyphs(s@));
    }

    /// Appends `chars[from..to]`.
    pub fn push_chars(&mut self, chars: &[char], from: usize, to: usize)
        requires
            from <= to <= chars@.len(),
        ensures
            final(self)@ == old(self)@ + glyphs(chars@.subrange(from as int, to as int)),
    {
        push_chars(&mut self.tail, chars, from, to);
        assert(self@ =~= old(self)@ + glyphs(chars@.subrange(from as int, to as int)));
    }

    /// Appends a number in decimal.
    pub fn push_number(&mut self, n: i64)
        ensures
            final(self)@ == old(self)@ + glyphs(signed_decimal(n as int)),
    {
        push_signed(&mut self.tail, n);
        assert(self@ =~= old(self)@ + glyphs(signed_decimal(n as int)));
    }

    /// Ends the stretch of text under construction.
    fn flush(&mut self)
        ensures
            final(self)@ == old(self)@,
            final(self).tail@ == Seq::<char>::empty(),
    {
        let mut text: String = String::new();
        std::mem::swap(&mut text, &mut self.tail);
        let ghost done0 = self.done@;
        self.done.push(Piece::Text(text));
        proof {
            assert(self.done@.drop_last() =~= done0);
            assert(self@ =~= old(self)@);
        }
    }

    /// Appends a 32-bit float.
    pub fn push_single(&mut self, bits: u32)
        ensures
            final(self)@ == old(self)@ + seq![Glyph::Single(bits)],
    {
        self.flush();
        let ghost done0 = self.done@;
        self.done.push(Piece::Single(bits));
        proof {
            assert(self.done@.drop_last() =~= done0);
            assert(self@ =~= old(self)@ + seq![Glyph::Single(bits)]);
        }
    }

    /// Appends a 64-bit float.
    pub fn push_double(&mut self, bits: u64)
        ensures
            final(self)@ == old(self)@ + seq![Glyph::Double(bits)],
    {
        self.flush();
        let ghost done0 = self.done@;
        self.done.push(Piece::Double(bits));
        proof {
            assert(self.done@.drop_last() =~= done0);
            assert(self@ =~= old(self)@ + seq![Glyph::Double(bits)]);
        }
    }

    /// Appends another rendering.
    pub fn append(&mut self, other: Rendering)
        ensures
            final(self)@ == old(self)@ + other@,
    {
        self.flush();
        let ghost done0 = self.done@;
        let mut rest: Vec<Piece> = other.into_pieces();
        let ghost rest0 = rest@;
        self.done.append(&mut rest);
        proof {
            lemma_flatten_concat(done0, rest0);
            assert(self.done@ =~= done0 + rest0);
            assert(self@ =~= old(self)@ + flatten(rest0));
        }
    }

    /// The rendered pieces, in order.
    pub fn into_pieces(self) -> (r: Vec<Piece>)
        ensures
            flatten(r@) == self@,
    {
        let mut me: Rendering = self;
        me.flush();
        assert(me@ =~= flatten(me.done@));
        me.done
    }
}

} // verus!
