use crate::error::Error;
use std::str::FromStr;
use vstd::prelude::*;

verus! {

/// A rank of the board: one of the eight lines named by the letters `a`..`h`.
#[derive(Eq, Copy, Clone, PartialEq, Debug, Hash, Structural)]
pub enum Rank {
    A,
    B,
    C,
    D,
    E,
    F,
    G,
    H,
}

/// How many ranks there are.
pub const NUM_RANKS: usize = 8;

/// All ranks, in order.
pub const ALL_RANKS: [Rank; 8] = [
    Rank::A,
    Rank::B,
    Rank::C,
    Rank::D,
    Rank::E,
    Rank::F,
    Rank::G,
    Rank::H,
];

impl Rank {
    /// The place of this rank in the order `a`..`h`, counted from 0.
    pub open spec fn idx(self) -> int {
        match self {
            Rank::A => 0,
            Rank::B => 1,
            Rank::C => 2,
            Rank::D => 3,
            Rank::E => 4,
            Rank::F => 5,
            Rank::G => 6,
            Rank::H => 7,
        }
    }

    /// The rank at place `i` modulo 8.
    pub open spec fn of(i: int) -> Rank {
        let m = i % 8;
        if m == 0 {
            Rank::A
        } else if m == 1 {
            Rank::B
        } else if m == 2 {
            Rank::C
        } else if m == 3 {
            Rank::D
        } else if m == 4 {
            Rank::E
        } else if m == 5 {
            Rank::F
        } else if m == 6 {
            Rank::G
        } else {
            Rank::H
        }
    }

    /// The lower-case letter of this rank.
    pub open spec fn letter(self) -> char {
        match self {
            Rank::A => 'a',
            Rank::B => 'b',
            Rank::C => 'c',
            Rank::D => 'd',
            Rank::E => 'e',
            Rank::F => 'f',
            Rank::G => 'g',
            Rank::H => 'h',
        }
    }

    /// The rank that a character names, in either case.
    pub open spec fn of_char(c: char) -> Option<Rank> {
        if c == 'a' || c == 'A' {
            Some(Rank::A)
        } else if c == 'b' || c == 'B' {
            Some(Rank::B)
        } else if c == 'c' || c == 'C' {
            Some(Rank::C)
        } else if c == 'd' || c == 'D' {
            Some(Rank::D)
        } else if c == 'e' || c == 'E' {
            Some(Rank::E)
        } else if c == 'f' || c == 'F' {
            Some(Rank::F)
        } else if c == 'g' || c == 'G' {
            Some(Rank::G)
        } else if c == 'h' || c == 'H' {
            Some(Rank::H)
        } else {
            None
        }
    }

    /// The rank that the first character of a text names.
    pub open spec fn of_text(s: Seq<char>) -> Result<Rank, Error> {
        if s.len() == 0 {
            Err(Error::InvalidRank)
        } else {
            match Rank::of_char(s[0]) {
                Some(r) => Ok(r),
                None => Err(Error::InvalidRank),
            }
        }
    }

    /// Places and ranks correspond one to one.
    pub proof fn lemma_places(self)
        ensures
            0 <= self.idx() < 8,
            Rank::of(self.idx()) == self,
            Rank::of(self.idx() + 8) == self,
            Rank::of(self.idx() - 8) == self,
    {
    }

    /// The rank at any place has that place modulo 8.
    pub proof fn lemma_of_any(i: int)
        ensures
            Rank::of(i).idx() == i % 8,
            Rank::of(i % 8) == Rank::of(i),
            Rank::of(Rank::of(i).idx() + 1) == Rank::of(i + 1),
    {
    }

    /// The rank at a place from 0 to 7 has that place.
    pub proof fn lemma_of(i: int)
        requires
            0 <= i < 8,
        ensures
            Rank::of(i).idx() == i,
    {
    }

    /// Converts a number into the rank at that place, wrapping around after the eighth.
    pub fn from_index(i: usize) -> (r: Rank)
        ensures
            r == Rank::of(i as int),
    {
        let m: usize = i % 8;
        if m == 0 {
            Rank::A
        } else if m == 1 {
            Rank::B
        } else if m == 2 {
            Rank::C
        } else if m == 3 {
            Rank::D
        } else if m == 4 {
            Rank::E
        } else if m == 5 {
            Rank::F
        } else if m == 6 {
            Rank::G
        } else {
            Rank::H
        }
    }

    /// One rank to the left; from `a` it wraps around to `h`.
    pub fn left(&self) -> (r: Rank)
        ensures
            r == Rank::of(self.idx() - 1),
    {
        Rank::from_index(self.to_index() + 7)
    }

    /// One rank to the right; from `h` it wraps around to `a`.
    pub fn right(&self) -> (r: Rank)
        ensures
            r == Rank::of(self.idx() + 1),
    {
        Rank::from_index(self.to_index() + 1)
    }

    /// The place of this rank, from 0 to 7.
    pub fn to_index(&self) -> (i: usize)
        ensures
            i == self.idx(),
    {
        match self {
            Rank::A => 0,
            Rank::B => 1,
            Rank::C => 2,
            Rank::D => 3,
            Rank::E => 4,
            Rank::F => 5,
            Rank::G => 6,
            Rank::H => 7,
        }
    }

    /// The lower-case letter of this rank, as a text of one character.
    pub fn to_str(&self) -> (s: &'static str)
        ensures
            s@ == seq![self.letter()],
    {
        proof {
            reveal_strlit("a");
            reveal_strlit("b");
            reveal_strlit("c");
            reveal_strlit("d");
            reveal_strlit("e");
            reveal_strlit("f");
            reveal_strlit("g");
            reveal_strlit("h");
        }
        let s = match self {
            Rank::A => "a",
            Rank::B => "b",
            Rank::C => "c",
            Rank::D => "d",
            Rank::E => "e",
            Rank::F => "f",
            Rank::G => "g",
            Rank::H => "h",
        };
        assert(s@ =~= seq![self.letter()]);
        s
    }

    /// The number of steps between two ranks, walking from `self` towards `other`.
    pub fn sub(self, other: Self) -> (n: usize)
        ensures
            n == vstd::math::abs(self.idx() - other.idx()),
    {
        let mut r: usize = 0;
        let mut v = self;
        let up = self.to_index() < other.to_index();
        while v != other
            invariant
                up == (self.idx() < other.idx()),
                0 <= r <= 7,
                up ==> v.idx() == self.idx() + r && v.idx() <= other.idx(),
                !up ==> v.idx() == self.idx() - r && v.idx() >= other.idx(),
            decreases vstd::math::abs(v.idx() - other.idx()),
        {
            r += 1;
            if up {
                v = v.right()
            } else {
                v = v.left()
            }
        }
        r
    }

    /// The rank that a character names, in either case.
    pub fn from_char(c: char) -> (r: Option<Rank>)
        ensures
            r == Rank::of_char(c),
    {
        if c == 'a' || c == 'A' {
            Some(Rank::A)
        } else if c == 'b' || c == 'B' {
            Some(Rank::B)
        } else if c == 'c' || c == 'C' {
            Some(Rank::C)
        } else if c == 'd' || c == 'D' {
            Some(Rank::D)
        } else if c == 'e' || c == 'E' {
            Some(Rank::E)
        } else if c == 'f' || c == 'F' {
            Some(Rank::F)
        } else if c == 'g' || c == 'G' {
            Some(Rank::G)
        } else if c == 'h' || c == 'H' {
            Some(Rank::H)
        } else {
            None
        }
    }

    /// Reads a rank from the first character of a text, in either case.
    pub fn parse(s: &str) -> (r: Result<Rank, Error>)
        ensures
            r == Rank::of_text(s@),
    {
        if s.unicode_len() < 1 {
            return Err(Error::InvalidRank);
        }
        match Rank::from_char(s.get_char(0)) {
            Some(r) => Ok(r),
            None => Err(Error::InvalidRank),
        }
    }
}

impl FromStr for Rank {
    type Err = Error;

    /// Reads a rank from the first character of a text.
    fn from_str(s: &str) -> (r: Result<Self, Self::Err>)
        ensures
            r == Rank::of_text(s@),
    {
        Rank::parse(s)
    }
}

} // verus!
