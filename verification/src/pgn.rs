use crate::error::Error;
use crate::error::NotationCause;
use crate::file::File;
use crate::pieces::Color;
use crate::pieces::Kind;
use crate::pieces::Piece;
use crate::rank::Rank;
use vstd::prelude::*;
use vstd::seq_lib::*;

verus! {

/// A square of the board, named by its rank and its file.
#[derive(Hash, Eq, PartialEq, Debug, Copy, Clone, Structural)]
pub struct Position {
    pub rank: Rank,
    pub file: File,
}

/// Whether rank place `r` and file place `f` name a square of the board.
pub open spec fn on_board(r: int, f: int) -> bool {
    0 <= r < 8 && 0 <= f < 8
}

/// The square at rank place `r` and file place `f`.
#[verifier::opaque]
pub open spec fn square(r: int, f: int) -> Position {
    Position { rank: Rank::of(r), file: File::of(f) }
}

/// A square on the board has the places it was made from.
pub proof fn lemma_square_places(r: int, f: int)
    requires
        on_board(r, f),
    ensures
        square(r, f).r() == r,
        square(r, f).f() == f,
{
    reveal(square);
    Rank::lemma_of(r);
    File::lemma_of(f);
}

/// Every square is the square at its own places, which are on the board.
pub proof fn lemma_square_here(p: Position)
    ensures
        on_board(p.r(), p.f()),
        square(p.r(), p.f()) == p,
{
    reveal(square);
    p.rank.lemma_places();
    p.file.lemma_places();
}

/// Appending four sequences one by one is appending their concatenation.
pub proof fn lemma_append_four<A>(base: Seq<A>, a: Seq<A>, b: Seq<A>, c: Seq<A>, d: Seq<A>)
    ensures
        (((base + a) + b) + c) + d == base + (((a + b) + c) + d),
{
    assert((((base + a) + b) + c) + d =~= base + (((a + b) + c) + d));
}

/// The square at the given places as a sequence of one, or nothing where the
/// places are off the board.
pub open spec fn at(r: int, f: int) -> Seq<Position> {
    if on_board(r, f) {
        seq![square(r, f)]
    } else {
        Seq::empty()
    }
}

/// How far two places are apart.
pub open spec fn span(a: int, b: int) -> int {
    if a <= b {
        b - a
    } else {
        a - b
    }
}

/// The one square that `at` holds is the square at the given places.
pub proof fn lemma_at(r: int, f: int, q: Position)
    ensures
        at(r, f).contains(q) <==> on_board(r, f) && q.r() == r && q.f() == f,
{
    lemma_square_here(q);
    if on_board(r, f) {
        lemma_square_places(r, f);
        assert(at(r, f)[0] == square(r, f));
    }
}

/// The place `k` steps from `a` in the direction of the sign of `s`.
pub open spec fn shift(a: int, s: int, k: int) -> int {
    if s > 0 {
        a + k
    } else if s < 0 {
        a - k
    } else {
        a
    }
}

/// The place `k` steps from `a` towards `b`.
pub open spec fn toward(a: int, b: int, k: int) -> int {
    shift(a, b - a, k)
}

impl Position {
    /// The place of this square's rank, from 0 to 7.
    pub open spec fn r(self) -> int {
        self.rank.idx()
    }

    /// The place of this square's file, from 0 to 7.
    pub open spec fn f(self) -> int {
        self.file.idx()
    }

    /// The number of king steps between two squares.
    pub open spec fn distance(self, to: Position) -> int {
        let dr = span(self.r(), to.r());
        let df = span(self.f(), to.f());
        if dr >= df {
            dr
        } else {
            df
        }
    }

    /// Whether `to` is another square on a diagonal through this one.
    pub open spec fn on_diagonal(self, to: Position) -> bool {
        self != to && span(self.r(), to.r()) == span(self.f(), to.f())
    }

    /// Whether `to` is another square on the rank or on the file of this one.
    pub open spec fn on_side(self, to: Position) -> bool {
        self != to && (to.r() == self.r() || to.f() == self.f())
    }

    /// Whether a straight line (rank, file or diagonal) joins the two squares.
    pub open spec fn in_line(self, to: Position) -> bool {
        self.on_diagonal(to) || self.on_side(to)
    }

    /// The squares at `k` diagonal steps from this one: towards higher rank
    /// and file first, then lower rank, then lower file, then both lower.
    pub open spec fn diagonal_ring(self, k: int) -> Seq<Position> {
        at(self.r() + k, self.f() + k) + at(self.r() - k, self.f() + k) + at(
            self.r() + k,
            self.f() - k,
        ) + at(self.r() - k, self.f() - k)
    }

    /// The diagonal rings at 1 to `n` steps, nearest first.
    pub open spec fn diagonal_rings(self, n: int) -> Seq<Position>
        decreases n,
    {
        if n <= 0 {
            Seq::empty()
        } else {
            self.diagonal_rings(n - 1) + self.diagonal_ring(n)
        }
    }

    /// The squares at `k` straight steps from this one: to the left first,
    /// then up, then to the right, then down.
    pub open spec fn side_ring(self, k: int) -> Seq<Position> {
        at(self.r() - k, self.f()) + at(self.r(), self.f() + k) + at(self.r() + k, self.f()) + at(
            self.r(),
            self.f() - k,
        )
    }

    /// The straight rings at 1 to `n` steps, nearest first.
    pub open spec fn side_rings(self, n: int) -> Seq<Position>
        decreases n,
    {
        if n <= 0 {
            Seq::empty()
        } else {
            self.side_rings(n - 1) + self.side_ring(n)
        }
    }

    /// The number of squares strictly between two squares that a straight line joins.
    pub open spec fn gap(self, to: Position) -> nat {
        if self.in_line(to) {
            (self.distance(to) - 1) as nat
        } else {
            0
        }
    }

    /// The squares strictly between this square and `to`, walking from here to
    /// there; none where no straight line joins the two.
    pub open spec fn path_to(self, to: Position) -> Seq<Position> {
        Seq::new(
            self.gap(to),
            |i: int| square(toward(self.r(), to.r(), i + 1), toward(self.f(), to.f(), i + 1)),
        )
    }

    /// The square `k` steps along the ray in the direction of the signs of
    /// `sr` and `sf`, as a sequence of one, or nothing where the ray has
    /// left the board.
    pub open spec fn ray(self, sr: int, sf: int, k: int) -> Seq<Position> {
        at(shift(self.r(), sr, k), shift(self.f(), sf, k))
    }

    /// Whether `cursor` is where `k` rounds of single steps along a ray from
    /// this square lead, a step that would leave the board being left out.
    #[verifier::opaque]
    pub open spec fn cursor_at(self, cursor: Position, sr: int, sf: int, k: int) -> bool {
        let j = self.distance(cursor);
        &&& 0 <= j <= k
        &&& cursor.r() == shift(self.r(), sr, j)
        &&& cursor.f() == shift(self.f(), sf, j)
        &&& j < k ==> !on_board(shift(cursor.r(), sr, 1), shift(cursor.f(), sf, 1))
    }

    /// Whether `q` lies on the straight line from this square to `to`,
    /// strictly between the two.
    pub open spec fn strictly_between(self, q: Position, to: Position) -> bool {
        let k = self.distance(q);
        &&& self.in_line(to)
        &&& 1 <= k < self.distance(to)
        &&& q.r() == toward(self.r(), to.r(), k)
        &&& q.f() == toward(self.f(), to.f(), k)
    }

    /// A diagonal ring holds the squares on the diagonals at that distance.
    pub proof fn lemma_diagonal_ring(self, k: int, q: Position)
        requires
            k >= 1,
        ensures
            self.diagonal_ring(k).contains(q) <==> self.on_diagonal(q) && self.distance(q) == k,
    {
        let a = at(self.r() + k, self.f() + k);
        let b = at(self.r() - k, self.f() + k);
        let c = at(self.r() + k, self.f() - k);
        let d = at(self.r() - k, self.f() - k);
        lemma_at(self.r() + k, self.f() + k, q);
        lemma_at(self.r() - k, self.f() + k, q);
        lemma_at(self.r() + k, self.f() - k, q);
        lemma_at(self.r() - k, self.f() - k, q);
        lemma_seq_concat_contains_all_elements(a, b, q);
        lemma_seq_concat_contains_all_elements(a + b, c, q);
        lemma_seq_concat_contains_all_elements(a + b + c, d, q);
        lemma_square_here(self);
        lemma_square_here(q);
    }

    /// The diagonal rings out to `n` hold the squares on the diagonals at
    /// distance 1 to `n`.
    pub proof fn lemma_diagonal_rings(self, n: int, q: Position)
        ensures
            self.diagonal_rings(n).contains(q) <==> self.on_diagonal(q) && self.distance(q) <= n,
        decreases n,
    {
        lemma_square_here(self);
        lemma_square_here(q);
        if n <= 0 {
        } else {
            self.lemma_diagonal_rings(n - 1, q);
            self.lemma_diagonal_ring(n, q);
            lemma_seq_concat_contains_all_elements(
                self.diagonal_rings(n - 1),
                self.diagonal_ring(n),
                q,
            );
        }
    }

    /// A straight ring holds the squares on the rank and the file at that distance.
    pub proof fn lemma_side_ring(self, k: int, q: Position)
        requires
            k >= 1,
        ensures
            self.side_ring(k).contains(q) <==> self.on_side(q) && self.distance(q) == k,
    {
        let a = at(self.r() - k, self.f());
        let b = at(self.r(), self.f() + k);
        let c = at(self.r() + k, self.f());
        let d = at(self.r(), self.f() - k);
        lemma_at(self.r() - k, self.f(), q);
        lemma_at(self.r(), self.f() + k, q);
        lemma_at(self.r() + k, self.f(), q);
        lemma_at(self.r(), self.f() - k, q);
        lemma_seq_concat_contains_all_elements(a, b, q);
        lemma_seq_concat_contains_all_elements(a + b, c, q);
        lemma_seq_concat_contains_all_elements(a + b + c, d, q);
        lemma_square_here(self);
        lemma_square_here(q);
    }

    /// The straight rings out to `n` hold the squares on the rank and the
    /// file at distance 1 to `n`.
    pub proof fn lemma_side_rings(self, n: int, q: Position)
        ensures
            self.side_rings(n).contains(q) <==> self.on_side(q) && self.distance(q) <= n,
        decreases n,
    {
        lemma_square_here(self);
        lemma_square_here(q);
        if n <= 0 {
        } else {
            self.lemma_side_rings(n - 1, q);
            self.lemma_side_ring(n, q);
            lemma_seq_concat_contains_all_elements(self.side_rings(n - 1), self.side_ring(n), q);
        }
    }

    /// The squares around this one out to `n` steps are those that a straight
    /// line joins to it at distance 1 to `n`.
    pub proof fn lemma_squares_around(self, n: int, q: Position)
        ensures
            (self.diagonal_rings(n) + self.side_rings(n)).contains(q) <==> self.in_line(q)
                && self.distance(q) <= n,
    {
        self.lemma_diagonal_rings(n, q);
        self.lemma_side_rings(n, q);
        lemma_seq_concat_contains_all_elements(self.diagonal_rings(n), self.side_rings(n), q);
    }

    /// The path between two squares that a straight line joins holds every
    /// square strictly between them, in the order of the walk, and neither
    /// end; between two squares that no straight line joins it is empty.
    pub proof fn law_path_between(self, to: Position)
        ensures
            !self.in_line(to) ==> self.path_to(to).len() == 0,
            self.in_line(to) ==> self.path_to(to).len() == self.distance(to) - 1,
            forall|i: int|
                0 <= i < self.path_to(to).len() ==> self.strictly_between(
                    #[trigger] self.path_to(to)[i],
                    to,
                ) && self.distance(self.path_to(to)[i]) == i + 1,
            forall|q: Position|
                self.strictly_between(q, to) <==> #[trigger] self.path_to(to).contains(q),
            !self.path_to(to).contains(self),
            !self.path_to(to).contains(to),
    {
        let path = self.path_to(to);
        lemma_square_here(self);
        lemma_square_here(to);
        assert forall|i: int| 0 <= i < path.len() implies self.strictly_between(
            #[trigger] path[i],
            to,
        ) && self.distance(path[i]) == i + 1 by {
            lemma_square_places(
                toward(self.r(), to.r(), i + 1),
                toward(self.f(), to.f(), i + 1),
            );
        }
        assert forall|q: Position| self.strictly_between(q, to) implies #[trigger] path.contains(
            q,
        ) by {
            let k = self.distance(q);
            lemma_square_here(q);
            assert(path[k - 1] == q);
        }
    }

    /// The square that a rank text and a file number name.
    pub open spec fn named(rank: Seq<char>, file: int) -> Position {
        Position { rank: Rank::of_text(rank)->Ok_0, file: File::of(file - 1) }
    }

    /// The square named by a rank letter and a file number.
    pub fn new(rank: &str, file: i8) -> (p: Position)
        requires
            Rank::of_text(rank@) is Ok,
            1 <= file <= 8,
        ensures
            p == Position::named(rank@, file as int),
    {
        Position { file: File::from_i8(file).unwrap(), rank: Rank::parse(rank).unwrap() }
    }

    /// The square on the given rank and file.
    pub fn new_(rank: Rank, file: File) -> (p: Position)
        ensures
            p.rank == rank,
            p.file == file,
    {
        Position { file: file, rank: rank }
    }

    /// The neighbour one step away in the direction of the signs of `dr` and
    /// `df`, unless that step leaves the board.
    pub fn neighbour(&self, dr: i8, df: i8) -> (n: Option<Position>)
        ensures
            on_board(shift(self.r(), dr as int, 1), shift(self.f(), df as int, 1)) ==> n == Some(
                square(shift(self.r(), dr as int, 1), shift(self.f(), df as int, 1)),
            ),
            !on_board(shift(self.r(), dr as int, 1), shift(self.f(), df as int, 1)) ==> n.is_none(),
    {
        let rank = if dr > 0 {
            self.rank.right()
        } else if dr < 0 {
            self.rank.left()
        } else {
            self.rank
        };
        let file = if df > 0 {
            self.file.up()
        } else if df < 0 {
            self.file.down()
        } else {
            self.file
        };
        let rank_kept = if dr > 0 {
            self.rank.to_index() < rank.to_index()
        } else if dr < 0 {
            self.rank.to_index() > rank.to_index()
        } else {
            true
        };
        let file_kept = if df > 0 {
            self.file.to_index() < file.to_index()
        } else if df < 0 {
            self.file.to_index() > file.to_index()
        } else {
            true
        };
        proof {
            reveal(square);
            self.rank.lemma_places();
            self.file.lemma_places();
            if 0 <= self.r() + 1 < 8 {
                Rank::lemma_of(self.r() + 1);
            }
            if 0 <= self.r() - 1 < 8 {
                Rank::lemma_of(self.r() - 1);
            }
            if 0 <= self.f() + 1 < 8 {
                File::lemma_of(self.f() + 1);
            }
            if 0 <= self.f() - 1 < 8 {
                File::lemma_of(self.f() - 1);
            }
        }
        if rank_kept && file_kept {
            Some(Position { rank, file })
        } else {
            None
        }
    }

    /// Whether this square is among the given ones.
    pub fn is_in(&self, squares: &Vec<Position>) -> (b: bool)
        ensures
            b == squares@.contains(*self),
    {
        let mut i: usize = 0;
        while i < squares.len()
            invariant
                i <= squares.len(),
                forall|j: int| 0 <= j < i ==> squares@[j] != *self,
            decreases squares.len() - i,
        {
            if squares[i] == *self {
                return true;
            }
            i = i + 1;
        }
        false
    }

    /// Takes one step with a cursor along a ray, unless the step would leave
    /// the board, and records the square reached.
    fn step_ray(
        self,
        cursor: &mut Position,
        dr: i8,
        df: i8,
        Ghost(k): Ghost<int>,
        out: &mut Vec<Position>,
    )
        requires
            -1 <= dr <= 1,
            -1 <= df <= 1,
            dr != 0 || df != 0,
            0 <= k,
            self.cursor_at(*old(cursor), dr as int, df as int, k),
        ensures
            self.cursor_at(*final(cursor), dr as int, df as int, k + 1),
            final(out)@ == old(out)@ + self.ray(dr as int, df as int, k + 1),
    {
        proof {
            reveal(Position::cursor_at);
            lemma_square_here(self);
            lemma_square_here(*cursor);
        }
        match cursor.neighbour(dr, df) {
            Some(n) => {
                proof {
                    lemma_square_places(
                        shift(cursor.r(), dr as int, 1),
                        shift(cursor.f(), df as int, 1),
                    );
                }
                *cursor = n;
                out.push(n);
                assert(out@ =~= old(out)@ + self.ray(dr as int, df as int, k + 1));
            },
            None => {
                assert(out@ =~= old(out)@ + self.ray(dr as int, df as int, k + 1));
            },
        }
    }

    /// The diagonal neighbours of this square out to `limit` steps, ring by ring.
    pub fn diagonals_squares(self, limit: i8) -> (r: Vec<Position>)
        ensures
            r@ == self.diagonal_rings(limit as int),
    {
        let mut r: Vec<Position> = Vec::new();
        let mut c0 = self;
        let mut c1 = self;
        let mut c2 = self;
        let mut c3 = self;
        let mut k: i8 = 0;
        proof {
            reveal(Position::cursor_at);
        }
        while k < limit
            invariant
                0 <= k,
                limit > 0 ==> k <= limit,
                limit <= 0 ==> k == 0,
                r@ == self.diagonal_rings(k as int),
                self.cursor_at(c0, 1, 1, k as int),
                self.cursor_at(c1, -1, 1, k as int),
                self.cursor_at(c2, 1, -1, k as int),
                self.cursor_at(c3, -1, -1, k as int),
            decreases limit - k,
        {
            let ghost base = r@;
            self.step_ray(&mut c0, 1, 1, Ghost(k as int), &mut r);
            self.step_ray(&mut c1, -1, 1, Ghost(k as int), &mut r);
            self.step_ray(&mut c2, 1, -1, Ghost(k as int), &mut r);
            self.step_ray(&mut c3, -1, -1, Ghost(k as int), &mut r);
            proof {
                lemma_append_four(
                    base,
                    self.ray(1, 1, k + 1),
                    self.ray(-1, 1, k + 1),
                    self.ray(1, -1, k + 1),
                    self.ray(-1, -1, k + 1),
                );
            }
            k = k + 1;
        }
        r
    }

    /// The neighbours of this square along its rank and its file out to
    /// `limit` steps, ring by ring.
    pub fn side_squares(self, limit: i8) -> (r: Vec<Position>)
        ensures
            r@ == self.side_rings(limit as int),
    {
        let mut r: Vec<Position> = Vec::new();
        let mut c0 = self;
        let mut c1 = self;
        let mut c2 = self;
        let mut c3 = self;
        let mut k: i8 = 0;
        proof {
            reveal(Position::cursor_at);
        }
        while k < limit
            invariant
                0 <= k,
                limit > 0 ==> k <= limit,
                limit <= 0 ==> k == 0,
                r@ == self.side_rings(k as int),
                self.cursor_at(c0, -1, 0, k as int),
                self.cursor_at(c1, 0, 1, k as int),
                self.cursor_at(c2, 1, 0, k as int),
                self.cursor_at(c3, 0, -1, k as int),
            decreases limit - k,
        {
            let ghost base = r@;
            self.step_ray(&mut c0, -1, 0, Ghost(k as int), &mut r);
            self.step_ray(&mut c1, 0, 1, Ghost(k as int), &mut r);
            self.step_ray(&mut c2, 1, 0, Ghost(k as int), &mut r);
            self.step_ray(&mut c3, 0, -1, Ghost(k as int), &mut r);
            proof {
                lemma_append_four(
                    base,
                    self.ray(-1, 0, k + 1),
                    self.ray(0, 1, k + 1),
                    self.ray(1, 0, k + 1),
                    self.ray(0, -1, k + 1),
                );
            }
            k = k + 1;
        }
        r
    }

    /// The squares strictly between this square and `to` along the rank, the
    /// file or the diagonal that joins them, walking from here to there; none
    /// where no straight line joins the two.
    pub fn shortest_path(self, to: Position) -> (r: Vec<Position>)
        ensures
            r@ == self.path_to(to),
    {
        let mut r: Vec<Position> = Vec::new();
        let dr = self.rank.sub(to.rank);
        let df = self.file.sub(to.file);
        let steps = if dr >= df {
            dr
        } else {
            df
        };
        if steps == 0 || !(dr == 0 || df == 0 || dr == df) {
            assert(r@ =~= self.path_to(to));
            return r;
        }
        let sr: i8 = if self.rank.to_index() < to.rank.to_index() {
            1
        } else if self.rank.to_index() > to.rank.to_index() {
            -1
        } else {
            0
        };
        let sf: i8 = if self.file.to_index() < to.file.to_index() {
            1
        } else if self.file.to_index() > to.file.to_index() {
            -1
        } else {
            0
        };
        let mut p = self;
        let mut i: usize = 1;
        proof {
            lemma_square_here(self);
        }
        while i < steps
            invariant
                self.in_line(to),
                steps == self.distance(to),
                sr as int == (if self.r() < to.r() { 1int } else if self.r() > to.r() { -1 } else { 0 }),
                sf as int == (if self.f() < to.f() { 1int } else if self.f() > to.f() { -1 } else { 0 }),
                1 <= i <= steps,
                r@.len() == i - 1,
                p == square(toward(self.r(), to.r(), i - 1), toward(self.f(), to.f(), i - 1)),
                forall|j: int|
                    0 <= j < i - 1 ==> r@[j] == square(
                        toward(self.r(), to.r(), j + 1),
                        toward(self.f(), to.f(), j + 1),
                    ),
            decreases steps - i,
        {
            proof {
                lemma_square_here(self);
                lemma_square_here(to);
                lemma_square_places(
                    toward(self.r(), to.r(), i - 1),
                    toward(self.f(), to.f(), i - 1),
                );
            }
            let n = p.neighbour(sr, sf);
            p = n.unwrap();
            r.push(p);
            i = i + 1;
        }
        assert(r@ =~= self.path_to(to));
        r
    }

    /// The diagonal neighbours followed by the straight neighbours of this
    /// square, each out to `limit` steps.
    pub fn squares_around(self, limit: i8) -> (r: Vec<Position>)
        ensures
            r@ == self.diagonal_rings(limit as int) + self.side_rings(limit as int),
    {
        let mut r: Vec<Position> = Vec::new();
        let mut d = self.diagonals_squares(limit);
        let mut s = self.side_squares(limit);
        r.append(&mut d);
        r.append(&mut s);
        r
    }
}

/// The decoder of move tokens.
#[derive(Clone, Copy)]
pub struct PGN {}

/// One end of a move as a token names it: the piece that moves and a square.
#[derive(Clone, Copy, Debug)]
pub struct Move {
    pub piece: Piece,
    pub position: Position,
}

/// The square that a rank letter and a file digit name; of two faults the
/// one in the digit is reported.
pub open spec fn square_named(r: char, f: char) -> Result<Position, Error> {
    match File::of_char(f) {
        None => Err(Error::InvalidNotation(NotationCause::File)),
        Some(file) => match Rank::of_char(r) {
            None => Err(Error::InvalidNotation(NotationCause::Rank)),
            Some(rank) => Ok(Position { rank, file }),
        },
    }
}

/// The two squares that four characters of a token name, from the `i`-th
/// on: the origin, then the destination.
pub open spec fn squares_named(s: Seq<char>, i: int) -> Result<(Position, Position), Error> {
    match square_named(s[i], s[i + 1]) {
        Err(e) => Err(e),
        Ok(from) => match square_named(s[i + 2], s[i + 3]) {
            Err(e) => Err(e),
            Ok(to) => Ok((from, to)),
        },
    }
}

/// What a move token says: the kind of the piece that moves, its origin and
/// its destination. A token of four characters speaks of a pawn; one of
/// five starts with the letter of the kind.
pub open spec fn decoded(s: Seq<char>) -> Result<(Kind, Position, Position), Error> {
    if s.len() == 4 {
        match squares_named(s, 0) {
            Err(e) => Err(e),
            Ok((from, to)) => Ok((Kind::Pawn, from, to)),
        }
    } else if s.len() == 5 {
        match Kind::of_char(s[0]) {
            None => Err(Error::InvalidNotation(NotationCause::Piece)),
            Some(k) => match squares_named(s, 1) {
                Err(e) => Err(e),
                Ok((from, to)) => Ok((k, from, to)),
            },
        }
    } else {
        Err(Error::InvalidNotation(NotationCause::Length))
    }
}

impl PGN {
    /// Reads the square that a rank letter and a file digit name.
    fn read_square(r: char, f: char) -> (p: Result<Position, Error>)
        ensures
            p == square_named(r, f),
    {
        let file = match File::from_char(f) {
            Some(v) => v,
            None => {
                return Err(Error::InvalidNotation(NotationCause::File));
            },
        };
        let rank = match Rank::from_char(r) {
            Some(v) => v,
            None => {
                return Err(Error::InvalidNotation(NotationCause::Rank));
            },
        };
        Ok(Position { rank, file })
    }

    /// Decodes a move token such as `e2e4` or `Qh4e1` into its two ends:
    /// the origin first, then the destination, each with the piece that the
    /// token names, whose color is not known.
    pub fn parse(m: &str) -> (r: Result<Vec<Move>, Error>)
        ensures
            match decoded(m@) {
                Ok((k, from, to)) => r matches Ok(v) && v@ == seq![
                    Move { piece: Piece::fresh(k, Color::Unknown), position: from },
                    Move { piece: Piece::fresh(k, Color::Unknown), position: to },
                ],
                Err(e) => r matches Err(f) && f == e,
            },
    {
        let n = m.unicode_len();
        if n != 4 && n != 5 {
            return Err(Error::InvalidNotation(NotationCause::Length));
        }
        let first: usize = if n == 4 {
            0
        } else {
            1
        };
        let kind = if n == 4 {
            Kind::Pawn
        } else {
            match Kind::from_char(m.get_char(0)) {
                Some(k) => k,
                None => {
                    return Err(Error::InvalidNotation(NotationCause::Piece));
                },
            }
        };
        let from = match PGN::read_square(m.get_char(first), m.get_char(first + 1)) {
            Ok(p) => p,
            Err(e) => {
                return Err(e);
            },
        };
        let to = match PGN::read_square(m.get_char(first + 2), m.get_char(first + 3)) {
            Ok(p) => p,
            Err(e) => {
                return Err(e);
            },
        };
        let mut r: Vec<Move> = Vec::new();
        r.push(Move { piece: *Piece::new(kind, Color::Unknown), position: from });
        r.push(Move { piece: *Piece::new(kind, Color::Unknown), position: to });
        assert(r@ =~= seq![
            Move { piece: Piece::fresh(kind, Color::Unknown), position: from },
            Move { piece: Piece::fresh(kind, Color::Unknown), position: to },
        ]);
        Ok(r)
    }
}

} // verus!
