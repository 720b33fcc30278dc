use crate::error::Error;
use crate::file::File;
use crate::pgn::at;
use crate::pgn::lemma_at;
use crate::pgn::lemma_square_here;
use crate::pgn::lemma_square_places;
use crate::pgn::span;
use crate::pgn::square;
use crate::pgn::toward;
use crate::pgn::Position;
use crate::rank::Rank;
use std::str::FromStr;
use vstd::prelude::*;
use vstd::seq_lib::*;

verus! {

/// What every piece can tell about itself.
pub trait PieceMovements {
    /// Where the piece stands, as a number.
    fn position(&self) -> u64;

    /// The squares the piece reaches from `position` by the way it moves.
    fn possible_moves(&mut self, position: Position) -> Vec<Position>;

    /// Whether the piece captures.
    fn capture(&mut self) -> bool;
}

/// The six kinds of chess pieces.
#[derive(Debug, Clone, Copy, Eq, PartialEq, Hash, Structural)]
pub enum Kind {
    Pawn,
    Bishop,
    Knight,
    Rook,
    Queen,
    King,
}

/// The side a piece belongs to; `Unknown` where only its kind is known.
#[derive(Debug, Clone, Copy, PartialEq, Eq, Structural)]
pub enum Color {
    White,
    Black,
    Unknown,
}

impl Color {
    /// The side that moves after this one: Black after White, White after any other.
    pub open spec fn other(self) -> Color {
        if self == Color::White {
            Color::Black
        } else {
            Color::White
        }
    }

    /// The side that moves after this one.
    pub fn switch(self) -> (c: Color)
        ensures
            c == self.other(),
    {
        if self == Color::White {
            Color::Black
        } else {
            Color::White
        }
    }
}

impl Kind {
    /// The upper-case letter that names this kind in move notation.
    pub open spec fn letter(self) -> char {
        match self {
            Kind::Pawn => 'P',
            Kind::Bishop => 'B',
            Kind::Knight => 'N',
            Kind::Rook => 'R',
            Kind::Queen => 'Q',
            Kind::King => 'K',
        }
    }

    /// The kind that an upper-case letter names.
    pub open spec fn of_char(c: char) -> Option<Kind> {
        if c == 'P' {
            Some(Kind::Pawn)
        } else if c == 'B' {
            Some(Kind::Bishop)
        } else if c == 'N' {
            Some(Kind::Knight)
        } else if c == 'R' {
            Some(Kind::Rook)
        } else if c == 'Q' {
            Some(Kind::Queen)
        } else if c == 'K' {
            Some(Kind::King)
        } else {
            None
        }
    }

    /// The figurine of this kind: the outlined one for White, the filled one
    /// for any other color.
    pub open spec fn glyph(self, c: Color) -> Seq<char> {
        match self {
            Kind::Pawn => if c == Color::White {
                seq!['\u{2659}']
            } else {
                seq!['\u{265F}', '\u{FE0E}']
            },
            Kind::Bishop => if c == Color::White {
                seq!['\u{2657}']
            } else {
                seq!['\u{265D}']
            },
            Kind::Knight => if c == Color::White {
                seq!['\u{2658}']
            } else {
                seq!['\u{265E}']
            },
            Kind::Rook => if c == Color::White {
                seq!['\u{2656}']
            } else {
                seq!['\u{265C}']
            },
            Kind::Queen => if c == Color::White {
                seq!['\u{2655}']
            } else {
                seq!['\u{265B}']
            },
            Kind::King => if c == Color::White {
                seq!['\u{2654}']
            } else {
                seq!['\u{265A}']
            },
        }
    }

    /// The kind that an upper-case letter names.
    pub fn from_char(c: char) -> (r: Option<Kind>)
        ensures
            r == Kind::of_char(c),
    {
        if c == 'P' {
            Some(Kind::Pawn)
        } else if c == 'B' {
            Some(Kind::Bishop)
        } else if c == 'N' {
            Some(Kind::Knight)
        } else if c == 'R' {
            Some(Kind::Rook)
        } else if c == 'Q' {
            Some(Kind::Queen)
        } else if c == 'K' {
            Some(Kind::King)
        } else {
            None
        }
    }

    /// The letter of this kind, as a text of one character.
    pub fn pgn(&self) -> (s: &'static str)
        ensures
            s@ == seq![self.letter()],
    {
        proof {
            reveal_strlit("P");
            reveal_strlit("B");
            reveal_strlit("N");
            reveal_strlit("R");
            reveal_strlit("Q");
            reveal_strlit("K");
        }
        let s = match self {
            Kind::Pawn => "P",
            Kind::Bishop => "B",
            Kind::Knight => "N",
            Kind::Rook => "R",
            Kind::Queen => "Q",
            Kind::King => "K",
        };
        assert(s@ =~= seq![self.letter()]);
        s
    }

    /// The figurine of this kind in the given color.
    pub fn symbol(&self, c: Color) -> (s: &'static str)
        ensures
            s@ == self.glyph(c),
    {
        proof {
            reveal_strlit("\u{2659}");
            reveal_strlit("\u{265F}\u{FE0E}");
            reveal_strlit("\u{2657}");
            reveal_strlit("\u{265D}");
            reveal_strlit("\u{2658}");
            reveal_strlit("\u{265E}");
            reveal_strlit("\u{2656}");
            reveal_strlit("\u{265C}");
            reveal_strlit("\u{2655}");
            reveal_strlit("\u{265B}");
            reveal_strlit("\u{2654}");
            reveal_strlit("\u{265A}");
        }
        let s = match self {
            Kind::Pawn => {
                if c == Color::White {
                    "\u{2659}"
                } else {
                    "\u{265F}\u{FE0E}"
                }
            },
            Kind::Bishop => {
                if c == Color::White {
                    "\u{2657}"
                } else {
                    "\u{265D}"
                }
            },
            Kind::Knight => {
                if c == Color::White {
                    "\u{2658}"
                } else {
                    "\u{265E}"
                }
            },
            Kind::Rook => {
                if c == Color::White {
                    "\u{2656}"
                } else {
                    "\u{265C}"
                }
            },
            Kind::Queen => {
                if c == Color::White {
                    "\u{2655}"
                } else {
                    "\u{265B}"
                }
            },
            Kind::King => {
                if c == Color::White {
                    "\u{2654}"
                } else {
                    "\u{265A}"
                }
            },
        };
        assert(s@ =~= self.glyph(c));
        s
    }
}

/// Whether a pawn of the given color steps straight ahead from `from` to
/// `to`: one square, or two from the file on which it starts.
pub open spec fn pawn_step(c: Color, from: Position, to: Position) -> bool {
    to.r() == from.r() && match c {
        Color::White => to.f() == from.f() + 1 || (from.f() == 1 && to.f() == 3),
        Color::Black => to.f() == from.f() - 1 || (from.f() == 6 && to.f() == 4),
        Color::Unknown => false,
    }
}

/// The squares straight ahead of a pawn: the double step first, where it
/// stands on the file on which it starts, then the single step, unless that
/// leaves the board.
pub open spec fn pawn_steps(c: Color, from: Position) -> Seq<Position> {
    match c {
        Color::White => (if from.f() == 1 {
            seq![square(from.r(), 3)]
        } else {
            Seq::empty()
        }) + at(from.r(), from.f() + 1),
        Color::Black => (if from.f() == 6 {
            seq![square(from.r(), 4)]
        } else {
            Seq::empty()
        }) + at(from.r(), from.f() - 1),
        Color::Unknown => Seq::empty(),
    }
}

/// Whether `to` is a knight's jump away from `from`: two steps along the
/// rank or the file and one step across.
pub open spec fn knight_jump(from: Position, to: Position) -> bool {
    let a = span(from.r(), to.r());
    let b = span(from.f(), to.f());
    (a == 1 && b == 2) || (a == 2 && b == 1)
}

/// The `i`-th of the seven places other than `k`.
pub open spec fn skip_place(k: int, i: int) -> int {
    if i < k {
        i
    } else {
        i + 1
    }
}

/// The other squares on the file of `from`, by rank, followed by the other
/// squares on its rank, by file.
pub open spec fn rook_lines(from: Position) -> Seq<Position> {
    Seq::new(7, |i: int| square(skip_place(from.r(), i), from.f())) + Seq::new(
        7,
        |i: int| square(from.r(), skip_place(from.f(), i)),
    )
}

/// The squares straight ahead of a pawn are those it steps to.
pub proof fn lemma_pawn_steps(c: Color, from: Position, q: Position)
    ensures
        pawn_steps(c, from).contains(q) <==> pawn_step(c, from, q),
{
    lemma_square_here(from);
    lemma_square_here(q);
    match c {
        Color::White => {
            let double = if from.f() == 1 {
                seq![square(from.r(), 3)]
            } else {
                Seq::empty()
            };
            lemma_at(from.r(), from.f() + 1, q);
            lemma_seq_concat_contains_all_elements(double, at(from.r(), from.f() + 1), q);
            if from.f() == 1 {
                lemma_square_places(from.r(), 3);
                assert(double[0] == square(from.r(), 3));
            }
        },
        Color::Black => {
            let double = if from.f() == 6 {
                seq![square(from.r(), 4)]
            } else {
                Seq::empty()
            };
            lemma_at(from.r(), from.f() - 1, q);
            lemma_seq_concat_contains_all_elements(double, at(from.r(), from.f() - 1), q);
            if from.f() == 6 {
                lemma_square_places(from.r(), 4);
                assert(double[0] == square(from.r(), 4));
            }
        },
        Color::Unknown => {},
    }
}

/// The lines of a rook hold the other squares of its rank and its file.
pub proof fn lemma_rook_lines(from: Position, q: Position)
    ensures
        rook_lines(from).contains(q) <==> from.on_side(q),
{
    lemma_square_here(from);
    lemma_square_here(q);
    let a = Seq::new(7, |i: int| square(skip_place(from.r(), i), from.f()));
    let b = Seq::new(7, |i: int| square(from.r(), skip_place(from.f(), i)));
    lemma_seq_concat_contains_all_elements(a, b, q);
    if a.contains(q) {
        let i = choose|i: int| 0 <= i < a.len() && a[i] == q;
        lemma_square_places(skip_place(from.r(), i), from.f());
    }
    if b.contains(q) {
        let i = choose|i: int| 0 <= i < b.len() && b[i] == q;
        lemma_square_places(from.r(), skip_place(from.f(), i));
    }
    if from.on_side(q) {
        if q.f() == from.f() {
            let i = if q.r() < from.r() {
                q.r()
            } else {
                q.r() - 1
            };
            assert(a[i] == q);
        } else {
            let i = if q.f() < from.f() {
                q.f()
            } else {
                q.f() - 1
            };
            assert(b[i] == q);
        }
    }
}

/// A piece: its kind, its side, and how often it has moved.
#[derive(Debug, Clone, Copy, Eq, PartialEq, Structural)]
pub struct Piece {
    pub kind: Kind,
    pub color: Color,
    pub number_of_moves: i8,
}

impl Piece {
    /// A piece that has not moved yet.
    pub open spec fn fresh(k: Kind, c: Color) -> Piece {
        Piece { kind: k, color: c, number_of_moves: 0 }
    }

    /// This piece after one more move.
    pub open spec fn moved(self) -> Piece {
        Piece {
            kind: self.kind,
            color: self.color,
            number_of_moves: (self.number_of_moves + 1) as i8,
        }
    }

    /// The piece, of unknown color, that the first character of a text names.
    pub open spec fn of_text(s: Seq<char>) -> Result<Piece, Error> {
        if s.len() == 0 {
            Err(Error::InvalidPiece)
        } else {
            match Kind::of_char(s[0]) {
                Some(k) => Ok(Piece::fresh(k, Color::Unknown)),
                None => Err(Error::InvalidPiece),
            }
        }
    }

    /// Whether the way this piece moves leads from `from` to `to`, whatever
    /// stands on the board.
    pub open spec fn can_reach(self, from: Position, to: Position) -> bool {
        match self.kind {
            Kind::Pawn => pawn_step(self.color, from, to),
            Kind::Bishop => from.on_diagonal(to),
            Kind::Knight => knight_jump(from, to),
            Kind::Rook => from.on_side(to),
            Kind::Queen => from.in_line(to),
            Kind::King => from.distance(to) == 1,
        }
    }

    /// Whether `s` lists the squares this piece reaches from `from` in the
    /// order in which the piece looks for them; the order of a knight's
    /// jumps is left open, but none is listed twice.
    pub open spec fn lists_moves(self, from: Position, s: Seq<Position>) -> bool {
        match self.kind {
            Kind::Pawn => s == pawn_steps(self.color, from),
            Kind::Bishop => s == from.diagonal_rings(8),
            Kind::Knight => s.no_duplicates() && forall|q: Position|
                s.contains(q) <==> knight_jump(from, q),
            Kind::Rook => s == rook_lines(from),
            Kind::Queen => s == from.diagonal_rings(8) + rook_lines(from),
            Kind::King => s == from.diagonal_rings(1) + from.side_rings(1),
        }
    }

    /// A list of moves holds exactly the squares that the piece reaches.
    pub proof fn lemma_lists_moves(self, from: Position, s: Seq<Position>, q: Position)
        requires
            self.lists_moves(from, s),
        ensures
            s.contains(q) <==> self.can_reach(from, q),
    {
        lemma_square_here(from);
        lemma_square_here(q);
        match self.kind {
            Kind::Pawn => {
                lemma_pawn_steps(self.color, from, q);
            },
            Kind::Bishop => {
                from.lemma_diagonal_rings(8, q);
            },
            Kind::Knight => {},
            Kind::Rook => {
                lemma_rook_lines(from, q);
            },
            Kind::Queen => {
                from.lemma_diagonal_rings(8, q);
                lemma_rook_lines(from, q);
                lemma_seq_concat_contains_all_elements(from.diagonal_rings(8), rook_lines(from), q);
            },
            Kind::King => {
                from.lemma_diagonal_rings(1, q);
                from.lemma_side_rings(1, q);
                lemma_seq_concat_contains_all_elements(
                    from.diagonal_rings(1),
                    from.side_rings(1),
                    q,
                );
            },
        }
    }

    /// A pawn that stands on the file on which it starts has two squares
    /// straight ahead; any other pawn that has not reached the far edge has one.
    pub proof fn law_pawn_steps(self, from: Position)
        requires
            self.kind == Kind::Pawn,
            self.color == Color::White && from.file != File::Eighth || self.color == Color::Black
                && from.file != File::First,
        ensures
            (self.color == Color::White && from.file == File::Second) || (self.color
                == Color::Black && from.file == File::Seventh) ==> pawn_steps(
                self.color,
                from,
            ).len() == 2,
            !((self.color == Color::White && from.file == File::Second) || (self.color
                == Color::Black && from.file == File::Seventh)) ==> pawn_steps(
                self.color,
                from,
            ).len() == 1,
    {
        lemma_square_here(from);
    }

    /// A piece of the given kind and color that has not moved yet.
    pub fn new(k: Kind, c: Color) -> (p: Box<Piece>)
        ensures
            *p == Piece::fresh(k, c),
    {
        Box::new(Piece { kind: k, color: c, number_of_moves: 0 })
    }

    /// The squares straight ahead of a pawn of the given color.
    fn pawn_moves(color: Color, position: Position) -> (r: Vec<Position>)
        ensures
            r@ == pawn_steps(color, position),
    {
        let mut r: Vec<Position> = Vec::new();
        proof {
            reveal(square);
            position.rank.lemma_places();
            position.file.lemma_places();
        }
        match color {
            Color::White => {
                if position.file == File::Second {
                    r.push(Position { rank: position.rank, file: File::Fourth });
                }
                let ghost double = r@;
                match position.neighbour(0, 1) {
                    Some(n) => {
                        r.push(n);
                    },
                    None => {},
                }
                assert(r@ =~= double + at(position.r(), position.f() + 1));
            },
            Color::Black => {
                if position.file == File::Seventh {
                    r.push(Position { rank: position.rank, file: File::Fifth });
                }
                let ghost double = r@;
                match position.neighbour(0, -1) {
                    Some(n) => {
                        r.push(n);
                    },
                    None => {},
                }
                assert(r@ =~= double + at(position.r(), position.f() - 1));
            },
            Color::Unknown => {},
        }
        r
    }

    /// The other squares on the file and on the rank of a rook.
    fn rook_moves(position: Position) -> (r: Vec<Position>)
        ensures
            r@ == rook_lines(position),
    {
        let mut r: Vec<Position> = Vec::new();
        let ghost along_file = Seq::new(7, |i: int| square(skip_place(position.r(), i), position.f()));
        let ghost along_rank = Seq::new(7, |i: int| square(position.r(), skip_place(position.f(), i)));
        proof {
            reveal(square);
            position.rank.lemma_places();
            position.file.lemma_places();
        }
        let mut i: usize = 0;
        while i < 8
            invariant
                i <= 8,
                0 <= position.r() < 8,
                File::of(position.f()) == position.file,
                along_file == Seq::new(
                    7,
                    |i: int| square(skip_place(position.r(), i), position.f()),
                ),
                r@ == along_file.take(
                    if i <= position.r() {
                        i as int
                    } else {
                        i - 1
                    },
                ),
            decreases 8 - i,
        {
            let rank = Rank::from_index(i);
            proof {
                reveal(square);
                Rank::lemma_of(i as int);
            }
            if rank != position.rank {
                r.push(Position { rank, file: position.file });
            }
            i = i + 1;
            assert(r@ =~= along_file.take(
                if i <= position.r() {
                    i as int
                } else {
                    i - 1
                },
            ));
        }
        assert(r@ =~= along_file);
        let mut j: usize = 0;
        while j < 8
            invariant
                j <= 8,
                0 <= position.f() < 8,
                Rank::of(position.r()) == position.rank,
                along_rank == Seq::new(
                    7,
                    |i: int| square(position.r(), skip_place(position.f(), i)),
                ),
                r@ == along_file + along_rank.take(
                    if j <= position.f() {
                        j as int
                    } else {
                        j - 1
                    },
                ),
            decreases 8 - j,
        {
            let file = File::from_index(j);
            proof {
                reveal(square);
                File::lemma_of(j as int);
            }
            if file != position.file {
                r.push(Position { rank: position.rank, file });
            }
            j = j + 1;
            assert(r@ =~= along_file + along_rank.take(
                if j <= position.f() {
                    j as int
                } else {
                    j - 1
                },
            ));
        }
        assert(r@ =~= along_file + along_rank);
        r
    }

    /// The squares a knight's jump away: those within two rounds of king
    /// steps that no straight line of at most two steps reaches.
    fn knight_moves(position: Position) -> (r: Vec<Position>)
        ensures
            r@.no_duplicates(),
            forall|q: Position| r@.contains(q) <==> knight_jump(position, q),
    {
        let first = position.squares_around(1);
        let mut near = position.squares_around(1);
        proof {
            lemma_square_here(position);
            assert forall|c: Position| near@.contains(c) <==> position.distance(c) == 1 by {
                lemma_square_here(c);
                position.lemma_squares_around(1, c);
            }
        }
        let mut i: usize = 0;
        while i < first.len()
            invariant
                i <= first.len(),
                forall|c: Position| first@.contains(c) <==> position.distance(c) == 1,
                forall|c: Position| near@.contains(c) ==> position.distance(c) <= 2,
                forall|j: int, c: Position|
                    0 <= j < i && #[trigger] first@[j].distance(c) == 1 ==> near@.contains(c),
            decreases first.len() - i,
        {
            let s = first[i];
            let ghost before = near@;
            near.push(s);
            let mut around = s.squares_around(1);
            let ghost ring = around@;
            near.append(&mut around);
            proof {
                assert(first@.contains(s));
                lemma_square_here(position);
                lemma_square_here(s);
                assert(position.distance(s) == 1);
                assert(near@ == before.push(s) + ring);
                assert forall|c: Position| near@.contains(c) implies position.distance(c)
                    <= 2 by {
                    lemma_square_here(c);
                    s.lemma_squares_around(1, c);
                    lemma_seq_concat_contains_all_elements(before.push(s), ring, c);
                    lemma_seq_contains_after_push(before, s, c);
                }
                assert forall|j: int, c: Position|
                    0 <= j < i + 1 && #[trigger] first@[j].distance(c) == 1 implies near@.contains(
                    c,
                ) by {
                    lemma_seq_concat_contains_all_elements(before.push(s), ring, c);
                    lemma_seq_contains_after_push(before, s, c);
                    if j == i {
                        lemma_square_here(c);
                        s.lemma_squares_around(1, c);
                    }
                }
            }
            i = i + 1;
        }
        let around_two = position.squares_around(2);
        let straight_two = position.side_squares(2);
        let diagonal_two = position.diagonals_squares(2);
        let around_one = position.squares_around(1);
        let mut r: Vec<Position> = Vec::new();
        let mut j: usize = 0;
        while j < near.len()
            invariant
                j <= near.len(),
                around_two@ == position.diagonal_rings(2) + position.side_rings(2),
                straight_two@ == position.side_rings(2),
                diagonal_two@ == position.diagonal_rings(2),
                around_one@ == position.diagonal_rings(1) + position.side_rings(1),
                forall|c: Position| near@.contains(c) ==> position.distance(c) <= 2,
                r@.no_duplicates(),
                forall|c: Position| r@.contains(c) ==> knight_jump(position, c),
                forall|m: int|
                    0 <= m < j && knight_jump(position, #[trigger] near@[m]) ==> r@.contains(
                        near@[m],
                    ),
            decreases near.len() - j,
        {
            let c = near[j];
            let ghost before = r@;
            proof {
                assert(near@.contains(c));
                lemma_square_here(position);
                lemma_square_here(c);
                position.lemma_squares_around(2, c);
                position.lemma_squares_around(1, c);
                position.lemma_side_rings(2, c);
                position.lemma_diagonal_rings(2, c);
            }
            let set_aside = c.is_in(&around_two) || c.is_in(&straight_two) || c.is_in(
                &diagonal_two,
            ) || c.is_in(&around_one) || c == position;
            if !set_aside && !c.is_in(&r) {
                r.push(c);
                proof {
                    assert forall|q: Position| r@.contains(q) implies knight_jump(position, q) by {
                        lemma_seq_contains_after_push(before, c, q);
                    }
                    assert forall|m: int|
                        0 <= m < j + 1 && knight_jump(
                            position,
                            #[trigger] near@[m],
                        ) implies r@.contains(near@[m]) by {
                        lemma_seq_contains_after_push(before, c, near@[m]);
                    }
                }
            }
            j = j + 1;
        }
        proof {
            assert forall|q: Position| knight_jump(position, q) implies r@.contains(q) by {
                lemma_square_here(position);
                lemma_square_here(q);
                let s = square(toward(position.r(), q.r(), 1), toward(position.f(), q.f(), 1));
                lemma_square_places(
                    toward(position.r(), q.r(), 1),
                    toward(position.f(), q.f(), 1),
                );
                assert(position.distance(s) == 1);
                assert(first@.contains(s));
                let k = choose|k: int| 0 <= k < first@.len() && first@[k] == s;
                assert(first@[k].distance(q) == 1);
                assert(near@.contains(q));
                let m = choose|m: int| 0 <= m < near@.len() && near@[m] == q;
                assert(knight_jump(position, near@[m]));
            }
        }
        r
    }

    /// Reads a piece of unknown color from the first character of a text.
    pub fn parse(s: &str) -> (r: Result<Piece, Error>)
        ensures
            r == Piece::of_text(s@),
    {
        if s.unicode_len() < 1 {
            return Err(Error::InvalidPiece);
        }
        match Kind::from_char(s.get_char(0)) {
            Some(k) => Ok(*Piece::new(k, Color::Unknown)),
            None => Err(Error::InvalidPiece),
        }
    }
}

impl PieceMovements for Piece {
    /// A piece does not know where it stands: always 0.
    fn position(&self) -> (n: u64)
        ensures
            n == 0,
    {
        0
    }

    /// The squares this piece reaches from `position` by the way it moves,
    /// whatever stands on the board. A pawn's captures are not among them.
    fn possible_moves(&mut self, position: Position) -> (r: Vec<Position>)
        ensures
            *final(self) == *old(self),
            old(self).lists_moves(position, r@),
            forall|q: Position| r@.contains(q) <==> old(self).can_reach(position, q),
    {
        let r = match self.kind {
            Kind::Pawn => Piece::pawn_moves(self.color, position),
            Kind::Bishop => position.diagonals_squares(8),
            Kind::Knight => Piece::knight_moves(position),
            Kind::Rook => Piece::rook_moves(position),
            Kind::Queen => {
                let mut r = position.diagonals_squares(8);
                let mut lines = Piece::rook_moves(position);
                r.append(&mut lines);
                r
            },
            Kind::King => position.squares_around(1),
        };
        proof {
            assert forall|q: Position| r@.contains(q) <==> self.can_reach(position, q) by {
                self.lemma_lists_moves(position, r@, q);
            }
        }
        r
    }

    /// A piece captures nothing by itself: always `false`.
    fn capture(&mut self) -> (b: bool)
        ensures
            !b,
            *final(self) == *old(self),
    {
        false
    }
}

impl FromStr for Piece {
    type Err = Error;

    /// Reads a piece of unknown color from the first character of a text.
    fn from_str(s: &str) -> (r: Result<Self, Self::Err>)
        ensures
            r == Piece::of_text(s@),
    {
        Piece::parse(s)
    }
}

} // verus!
