use crate::error::Error;
use std::str::FromStr;
use vstd::prelude::*;

verus! {

/// A file of the board: one of the eight lines named by the digits `1`..`8`.
#[derive(Eq, Copy, Clone, PartialEq, Debug, Hash, Structural)]
pub enum File {
    First,
    Second,
    Third,
    Fourth,
    Fifth,
    Sixth,
    Seventh,
    Eighth,
}

/// How many files there are.
pub const NUM_FILES: usize = 8;

/// All files, in order.
pub const ALL_FILES: [File; 8] = [
    File::First,
    File::Second,
    File::Third,
    File::Fourth,
    File::Fifth,
    File::Sixth,
    File::Seventh,
    File::Eighth,
];

impl File {
    /// The place of this file in the order `1`..`8`, counted from 0.
    pub open spec fn idx(self) -> int {
        match self {
            File::First => 0,
            File::Second => 1,
            File::Third => 2,
            File::Fourth => 3,
            File::Fifth => 4,
            File::Sixth => 5,
            File::Seventh => 6,
            File::Eighth => 7,
        }
    }

    /// The file at place `i` modulo 8.
    pub open spec fn of(i: int) -> File {
        let m = i % 8;
        if m == 0 {
            File::First
        } else if m == 1 {
            File::Second
        } else if m == 2 {
            File::Third
        } else if m == 3 {
            File::Fourth
        } else if m == 4 {
            File::Fifth
        } else if m == 5 {
            File::Sixth
        } else if m == 6 {
            File::Seventh
        } else {
            File::Eighth
        }
    }

    /// The digit of this file.
    pub open spec fn digit(self) -> char {
        match self {
            File::First => '1',
            File::Second => '2',
            File::Third => '3',
            File::Fourth => '4',
            File::Fifth => '5',
            File::Sixth => '6',
            File::Seventh => '7',
            File::Eighth => '8',
        }
    }

    /// The file that a digit names.
    pub open spec fn of_char(c: char) -> Option<File> {
        if c == '1' {
            Some(File::First)
        } else if c == '2' {
            Some(File::Second)
        } else if c == '3' {
            Some(File::Third)
        } else if c == '4' {
            Some(File::Fourth)
        } else if c == '5' {
            Some(File::Fifth)
        } else if c == '6' {
            Some(File::Sixth)
        } else if c == '7' {
            Some(File::Seventh)
        } else if c == '8' {
            Some(File::Eighth)
        } else {
            None
        }
    }

    /// The file that the first character of a text names.
    pub open spec fn of_text(s: Seq<char>) -> Result<File, Error> {
        if s.len() == 0 {
            Err(Error::InvalidFile)
        } else {
            match File::of_char(s[0]) {
                Some(f) => Ok(f),
                None => Err(Error::InvalidFile),
            }
        }
    }

    /// Places and files correspond one to one.
    pub proof fn lemma_places(self)
        ensures
            0 <= self.idx() < 8,
            File::of(self.idx()) == self,
            File::of(self.idx() + 8) == self,
            File::of(self.idx() - 8) == self,
    {
    }

    /// The file at any place has that place modulo 8.
    pub proof fn lemma_of_any(i: int)
        ensures
            File::of(i).idx() == i % 8,
            File::of(i % 8) == File::of(i),
            File::of(File::of(i).idx() + 1) == File::of(i + 1),
    {
    }

    /// The file at a place from 0 to 7 has that place.
    pub proof fn lemma_of(i: int)
        requires
            0 <= i < 8,
        ensures
            File::of(i).idx() == i,
    {
    }

    /// Converts a number into the file at that place, wrapping around after the eighth.
    pub fn from_index(i: usize) -> (f: File)
        ensures
            f == File::of(i as int),
    {
        let m: usize = i % 8;
        if m == 0 {
            File::First
        } else if m == 1 {
            File::Second
        } else if m == 2 {
            File::Third
        } else if m == 3 {
            File::Fourth
        } else if m == 4 {
            File::Fifth
        } else if m == 5 {
            File::Sixth
        } else if m == 6 {
            File::Seventh
        } else {
            File::Eighth
        }
    }

    /// One file down; from the first it wraps around to the eighth.
    pub fn down(&self) -> (f: File)
        ensures
            f == File::of(self.idx() - 1),
    {
        File::from_index(self.to_index() + 7)
    }

    /// One file up; from the eighth it wraps around to the first.
    pub fn up(&self) -> (f: File)
        ensures
            f == File::of(self.idx() + 1),
    {
        File::from_index(self.to_index() + 1)
    }

    /// The place of this file, from 0 to 7.
    pub fn to_index(&self) -> (i: usize)
        ensures
            i == self.idx(),
    {
        match self {
            File::First => 0,
            File::Second => 1,
            File::Third => 2,
            File::Fourth => 3,
            File::Fifth => 4,
            File::Sixth => 5,
            File::Seventh => 6,
            File::Eighth => 7,
        }
    }

    /// The number of this file, from 1 to 8.
    pub fn to_i8(&self) -> (n: i8)
        ensures
            n == self.idx() + 1,
    {
        match self {
            File::First => 1,
            File::Second => 2,
            File::Third => 3,
            File::Fourth => 4,
            File::Fifth => 5,
            File::Sixth => 6,
            File::Seventh => 7,
            File::Eighth => 8,
        }
    }

    /// The file with the given number, which must be one of 1 to 8.
    pub fn from_i8(s: i8) -> (r: Result<File, Error>)
        ensures
            1 <= s <= 8 ==> r == Ok::<File, Error>(File::of(s - 1)),
            !(1 <= s <= 8) ==> r == Err::<File, Error>(Error::InvalidFile),
    {
        match s {
            1 => Ok(File::First),
            2 => Ok(File::Second),
            3 => Ok(File::Third),
            4 => Ok(File::Fourth),
            5 => Ok(File::Fifth),
            6 => Ok(File::Sixth),
            7 => Ok(File::Seventh),
            8 => Ok(File::Eighth),
            _ => Err(Error::InvalidFile),
        }
    }

    /// The number of steps between two files, walking from `self` towards `other`.
    pub fn sub(self, other: Self) -> (n: usize)
        ensures
            n == vstd::math::abs(self.idx() - other.idx()),
    {
        let mut r: usize = 0;
        let mut v = self;
        let up = self.to_index() < other.to_index();
        while v != other
            invariant
                up == (self.idx() < other.idx()),
                0 <= r <= 7,
                up ==> v.idx() == self.idx() + r && v.idx() <= other.idx(),
                !up ==> v.idx() == self.idx() - r && v.idx() >= other.idx(),
            decreases vstd::math::abs(v.idx() - other.idx()),
        {
            r += 1;
            if up {
                v = v.up()
            } else {
                v = v.down()
            }
        }
        r
    }

    /// The file that a digit names.
    pub fn from_char(c: char) -> (r: Option<File>)
        ensures
            r == File::of_char(c),
    {
        if c == '1' {
            Some(File::First)
        } else if c == '2' {
            Some(File::Second)
        } else if c == '3' {
            Some(File::Third)
        } else if c == '4' {
            Some(File::Fourth)
        } else if c == '5' {
            Some(File::Fifth)
        } else if c == '6' {
            Some(File::Sixth)
        } else if c == '7' {
            Some(File::Seventh)
        } else if c == '8' {
            Some(File::Eighth)
        } else {
            None
        }
    }

    /// Reads a file from the first character of a text.
    pub fn parse(s: &str) -> (r: Result<File, Error>)
        ensures
            r == File::of_text(s@),
    {
        if s.unicode_len() < 1 {
            return Err(Error::InvalidFile);
        }
        match File::from_char(s.get_char(0)) {
            Some(f) => Ok(f),
            None => Err(Error::InvalidFile),
        }
    }
}

impl FromStr for File {
    type Err = Error;

    /// Reads a file from the first character of a text.
    fn from_str(s: &str) -> (r: Result<Self, Self::Err>)
        ensures
            r == File::of_text(s@),
    {
        File::parse(s)
    }
}

} // verus!
