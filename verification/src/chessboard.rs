use crate::error::Error;
use crate::file::File;
use crate::game::Move;
use crate::pgn::decoded;
use crate::pgn::lemma_square_here;
use crate::pgn::lemma_square_places;
use crate::pgn::span;
use crate::pgn::square;
use crate::pgn::Position;
use crate::pgn::PGN;
use crate::pieces::Color;
use crate::pieces::Kind;
use crate::pieces::Piece;
use crate::pieces::PieceMovements;
use crate::rank::Rank;
use crate::squares::held;
use crate::squares::Squares;
use vstd::prelude::*;
use vstd::seq_lib::*;

verus! {

/// What the move that was judged last asks of the players.
#[derive(Debug, Clone, Copy, PartialEq, Eq, Structural)]
pub enum BoardStatus {
    /// An ordinary move: the ply is complete.
    Ordinary,
    /// Reserved; the engine never reports it.
    Checkmate,
    /// Reserved; the engine never reports it.
    Stalemate,
    /// A pawn has reached the far edge: the mover must choose what it becomes
    /// before the ply is complete.
    Promote,
    /// Reserved; the engine never reports it.
    EnPassant,
}

/// A chess board: at most one piece on each of its 64 squares, and the
/// status of the move that was judged last.
#[derive(Debug)]
pub struct Chessboard2 {
    board: Squares,
    status: BoardStatus,
}

/// The number under which a square is kept: file by file, and within a file
/// rank by rank.
pub open spec fn code(p: Position) -> u8 {
    (p.f() * 8 + p.r()) as u8
}

/// The square that is kept under the number `k`.
pub open spec fn numbered(k: u8) -> Position {
    square(k as int % 8, k as int / 8)
}

/// Squares and their numbers correspond one to one.
pub proof fn lemma_code(p: Position, q: Position)
    ensures
        code(p) < 64,
        code(p) == code(q) ==> p == q,
{
    lemma_square_here(p);
    lemma_square_here(q);
}

/// A board has 64 squares: every set of squares is finite and holds at
/// most that many.
pub proof fn lemma_squares_finite(s: Set<Position>)
    ensures
        s.finite(),
        s.len() <= 64,
{
    let all = Seq::new(64, |i: int| square(i % 8, i / 8));
    seq_to_set_is_finite(all);
    all.lemma_cardinality_of_set();
    assert forall|p: Position| s.contains(p) implies all.to_set().contains(p) by {
        lemma_square_here(p);
        assert(all[p.f() * 8 + p.r()] == p);
    }
    vstd::set_lib::lemma_len_subset(s, all.to_set());
}

/// Whether a pawn of the given color takes from `from` to `to`: one step
/// ahead and one step to either side.
pub open spec fn pawn_takes(c: Color, from: Position, to: Position) -> bool {
    span(from.r(), to.r()) == 1 && match c {
        Color::White => to.f() == from.f() + 1,
        Color::Black => to.f() == from.f() - 1,
        Color::Unknown => false,
    }
}

/// Whether a piece may end a move of its own kind on `q`: the square is
/// empty, or a piece of another color stands there and the mover is no pawn.
pub open spec fn may_land(b: Map<Position, Piece>, x: Piece, q: Position) -> bool {
    !b.contains_key(q) || (b[q].color != x.color && x.kind != Kind::Pawn)
}

/// Whether something stands in the way from `from` to `to`: a straight
/// line joins the two, and a square strictly between them is occupied.
pub open spec fn blocked(b: Map<Position, Piece>, from: Position, to: Position) -> bool {
    exists|q: Position| #[trigger] from.strictly_between(q, to) && b.contains_key(q)
}

/// Whether `pm` was a pawn's double step from the file on which it starts
/// that landed one file from `to` on the rank of `to`, made by the side that
/// `x`, a pawn too, does not belong to.
pub open spec fn passes(pm: Move, x: Piece, to: Position) -> bool {
    &&& pm.piece.kind == Kind::Pawn
    &&& x.kind == Kind::Pawn
    &&& pm.piece.color != x.color
    &&& (pm.piece.color == Color::White && pm.from.file == File::Second && pm.to.file
        == File::Fourth) || (pm.piece.color == Color::Black && pm.from.file == File::Seventh
        && pm.to.file == File::Fifth)
    &&& span(to.f(), pm.to.f()) == 1
    &&& to.rank == pm.to.rank
}

/// Whether the pawn `x` on `from` may take in passing by moving to `to`:
/// the move before was a double step, as `passes` says, by a pawn of the
/// other side that still stands where it landed, which is beside `x`; `to`
/// is empty, and `x` takes towards it.
pub open spec fn in_passing(
    b: Map<Position, Piece>,
    prev: Option<Move>,
    x: Piece,
    from: Position,
    to: Position,
) -> bool {
    &&& prev matches Some(pm)
    &&& passes(pm, x, to)
    &&& pawn_takes(x.color, from, to)
    &&& from.file == pm.to.file
    &&& !b.contains_key(to)
    &&& b.contains_key(pm.to)
    &&& b[pm.to].kind == Kind::Pawn
    &&& b[pm.to].color != x.color
}

/// Whether the piece `x` on `from` may move to `to`: by a move of its kind
/// to a square where it may land, by a pawn's capture of a piece of another
/// color, or by a capture in passing.
pub open spec fn legal_target(
    b: Map<Position, Piece>,
    prev: Option<Move>,
    x: Piece,
    from: Position,
    to: Position,
) -> bool {
    ||| x.can_reach(from, to) && may_land(b, x, to)
    ||| x.kind == Kind::Pawn && pawn_takes(x.color, from, to) && b.contains_key(to) && b[to].color
        != x.color
    ||| in_passing(b, prev, x, from, to)
}

/// Whether a piece of the given color that comes to stand on `pos` has
/// reached the far edge: the eighth file for White, the first for any other.
pub open spec fn far_edge(color: Color, pos: Position) -> bool {
    if color == Color::White {
        pos.file == File::Eighth
    } else {
        pos.file == File::First
    }
}

/// The move from `from` to `to` on the board `b`, which must be legal.
pub open spec fn made_move(
    b: Map<Position, Piece>,
    prev: Option<Move>,
    from: Position,
    to: Position,
) -> Move {
    let passing = in_passing(b, prev, b[from], from, to);
    Move {
        from: from,
        to: to,
        piece: b[from],
        capture: if passing {
            Some(b[prev->Some_0.to])
        } else if b.contains_key(to) {
            Some(b[to])
        } else {
            None
        },
        is_from_orignal_pos: b[from].number_of_moves == 0,
        en_passant: passing,
    }
}

/// How the board `b` judges the move from `from` to `to` by the side
/// `color`, `prev` being the move made before: the move and its status, or
/// the first reason, in this order, for which it is turned down.
pub open spec fn judge(
    b: Map<Position, Piece>,
    prev: Option<Move>,
    from: Position,
    to: Position,
    color: Color,
) -> Result<(Move, BoardStatus), Error> {
    if from == to {
        Err(Error::SameOriginAndDestination)
    } else if !b.contains_key(from) {
        Err(Error::NoPieceAtOrigin)
    } else if b[from].color != color {
        Err(Error::WrongColorToMove)
    } else if blocked(b, from, to) {
        Err(Error::BlockedPath)
    } else if !legal_target(b, prev, b[from], from, to) {
        Err(Error::IllegalDestination)
    } else if b[from].number_of_moves == i8::MAX {
        Err(Error::InvariantViolation)
    } else {
        Ok(
            (
                made_move(b, prev, from, to),
                if b[from].kind == Kind::Pawn && far_edge(color, to) {
                    BoardStatus::Promote
                } else {
                    BoardStatus::Ordinary
                },
            ),
        )
    }
}

/// The square of the `i`-th entry of a listing of a position: rank by rank
/// within a file, file after file, and from the first file again after the
/// eighth.
pub open spec fn slot(i: int) -> Position {
    square(i % 8, (i / 8) % 8)
}

/// The rank and the file at which a walk over the entries of a listing
/// stands at the `i`-th entry name the square of that entry.
proof fn lemma_slot(i: int, rank: Rank, file: File)
    requires
        0 <= i,
        rank == Rank::of(i),
        file == File::of(i / 8),
    ensures
        (Position { rank, file }) == slot(i),
{
    reveal(square);
    Rank::lemma_of_any(i);
    File::lemma_of_any(i / 8);
}

/// The file at which a walk over the entries of a listing stands when it
/// comes to the `i`-th entry: that of the entry before.
spec fn file_before(i: int) -> File {
    if i == 0 {
        File::First
    } else {
        File::of((i - 1) / 8)
    }
}

/// A walk over the entries of a listing changes to the next file before
/// every eighth entry.
proof fn lemma_file_step(i: int, file: File)
    requires
        0 <= i,
        file == file_before(i),
    ensures
        i > 0 && i % 8 == 0 ==> File::of(file.idx() + 1) == File::of(i / 8),
        !(i > 0 && i % 8 == 0) ==> file == File::of(i / 8),
{
    if i > 0 {
        File::lemma_of_any((i - 1) / 8);
    }
}

/// The board `b` after the first `n` entries of the listing `s` have been
/// laid on it one by one, each piece on the square of its entry.
pub open spec fn laid(b: Map<Position, Piece>, s: Seq<Option<Box<Piece>>>, n: int) -> Map<
    Position,
    Piece,
>
    decreases n,
{
    if n <= 0 {
        b
    } else {
        let before = laid(b, s, n - 1);
        match s[n - 1] {
            Some(x) => before.insert(slot(n - 1), *x),
            None => before,
        }
    }
}

/// A listing of at most 64 entries puts each of its pieces on a square of
/// its own and leaves the other squares as they were.
pub proof fn lemma_laid(b: Map<Position, Piece>, s: Seq<Option<Box<Piece>>>, n: int, p: Position)
    requires
        0 <= n <= 64,
        n <= s.len(),
    ensures
        code(p) < n && s[code(p) as int] is Some ==> laid(b, s, n).contains_key(p) && laid(
            b,
            s,
            n,
        )[p] == *s[code(p) as int]->Some_0,
        !(code(p) < n && s[code(p) as int] is Some) ==> laid(b, s, n).contains_key(p)
            == b.contains_key(p) && (b.contains_key(p) ==> laid(b, s, n)[p] == b[p]),
    decreases n,
{
    if n > 0 {
        lemma_laid(b, s, n - 1, p);
        lemma_square_here(p);
        lemma_square_places((n - 1) % 8, ((n - 1) / 8) % 8);
    }
}

/// The kind of the piece that starts on the given rank of a side's own file.
pub open spec fn back_rank(r: int) -> Kind {
    if r == 0 || r == 7 {
        Kind::Rook
    } else if r == 1 || r == 6 {
        Kind::Knight
    } else if r == 2 || r == 5 {
        Kind::Bishop
    } else if r == 3 {
        Kind::Queen
    } else {
        Kind::King
    }
}

/// The piece that starts on a square of the first, second, seventh or
/// eighth file.
pub open spec fn starting_piece(p: Position) -> Piece {
    if p.f() == 0 {
        Piece::fresh(back_rank(p.r()), Color::White)
    } else if p.f() == 1 {
        Piece::fresh(Kind::Pawn, Color::White)
    } else if p.f() == 6 {
        Piece::fresh(Kind::Pawn, Color::Black)
    } else {
        Piece::fresh(back_rank(p.r()), Color::Black)
    }
}

/// The position from which a game starts: White on the first two files,
/// Black on the last two, the pawns in front.
pub open spec fn starting_position() -> Map<Position, Piece> {
    Map::new(|p: Position| p.f() <= 1 || p.f() >= 6, |p: Position| starting_piece(p))
}

/// Whether a listing has 64 entries that hold the pieces of the position
/// from which a game starts.
pub open spec fn lists_opening(s: Seq<Option<Box<Piece>>>) -> bool {
    &&& s.len() == 64
    &&& forall|j: int|
        0 <= j < 64 ==> (#[trigger] s[j]) is Some == starting_position().contains_key(slot(j))
    &&& forall|j: int|
        0 <= j < 64 ==> ((#[trigger] s[j]) matches Some(x) ==> *x == starting_position()[slot(j)])
}

/// Laying the listing of the starting position on an empty board gives the
/// starting position.
pub proof fn lemma_opening(s: Seq<Option<Box<Piece>>>)
    requires
        lists_opening(s),
    ensures
        laid(Map::empty(), s, 64) == starting_position(),
{
    let b = laid(Map::empty(), s, 64);
    assert forall|p: Position| #[trigger]
        b.contains_key(p) == starting_position().contains_key(p) by {
        lemma_laid(Map::empty(), s, 64, p);
        lemma_code(p, p);
        lemma_square_here(p);
        assert(slot(code(p) as int) == p);
    }
    assert forall|p: Position| b.contains_key(p) implies #[trigger] b[p] == starting_position()[p] by {
        lemma_laid(Map::empty(), s, 64, p);
        lemma_code(p, p);
        lemma_square_here(p);
        assert(slot(code(p) as int) == p);
    }
    assert(b =~= starting_position());
}

/// The move that a reference, if any, leads to.
pub open spec fn owned(m: Option<&Move>) -> Option<Move> {
    match m {
        Some(v) => Some(*v),
        None => None,
    }
}

/// Whether the piece `x` on `at` attacks `target`: it could take a piece
/// standing there, and nothing stands in its way.
pub open spec fn attacks(b: Map<Position, Piece>, at: Position, x: Piece, target: Position) -> bool {
    &&& at != target
    &&& if x.kind == Kind::Pawn {
        pawn_takes(x.color, at, target)
    } else {
        x.can_reach(at, target)
    }
    &&& !blocked(b, at, target)
}

/// Whether a piece of a color other than `color` attacks `field`.
pub open spec fn threatened(b: Map<Position, Piece>, color: Color, field: Position) -> bool {
    exists|p: Position| #[trigger]
        b.contains_key(p) && b[p].color != color && attacks(b, p, b[p], field)
}

/// Whether `p` is the first square, by number, on which a piece of the
/// given kind and color stands.
pub open spec fn first_of(b: Map<Position, Piece>, kind: Kind, color: Color, p: Position) -> bool {
    &&& b.contains_key(p)
    &&& b[p].kind == kind
    &&& b[p].color == color
    &&& forall|q: Position|
        #[trigger] b.contains_key(q) && b[q].kind == kind && b[q].color == color ==> code(p)
            <= code(q)
}

/// Whether the king of the given color is attacked; `false` where no such
/// king stands on the board.
pub open spec fn in_check(b: Map<Position, Piece>, color: Color) -> bool {
    exists|k: Position| #[trigger] first_of(b, Kind::King, color, k) && threatened(b, color, k)
}

impl View for Chessboard2 {
    type V = Map<Position, Piece>;

    /// The piece on each occupied square.
    closed spec fn view(&self) -> Map<Position, Piece> {
        Map::new(
            |p: Position| held(self.board).contains_key(code(p)),
            |p: Position| held(self.board)[code(p)],
        )
    }
}

impl Clone for Chessboard2 {
    /// A board with the same pieces on the same squares and the same status.
    fn clone(&self) -> (c: Self)
        ensures
            c@ == self@,
            c.last_status() == self.last_status(),
    {
        Chessboard2 { board: self.board.copy(), status: self.status }
    }
}

impl Chessboard2 {
    /// The status of the move that was judged last.
    pub closed spec fn last_status(&self) -> BoardStatus {
        self.status
    }

    /// The number under which a square is kept.
    fn code_of(pos: &Position) -> (k: u8)
        ensures
            k == code(*pos),
            k < 64,
    {
        proof {
            lemma_square_here(*pos);
        }
        let f = pos.file.to_index();
        let r = pos.rank.to_index();
        (f * 8 + r) as u8
    }

    /// The square that is kept under a number.
    fn square_of(k: u8) -> (p: Position)
        requires
            k < 64,
        ensures
            code(p) == k,
            p == numbered(k),
    {
        proof {
            reveal(square);
            Rank::lemma_of((k % 8) as int);
            File::lemma_of((k / 8) as int);
        }
        Position { rank: Rank::from_index((k % 8) as usize), file: File::from_index((k / 8) as usize) }
    }

    /// An empty board.
    pub fn new() -> (b: Chessboard2)
        ensures
            b@ == Map::<Position, Piece>::empty(),
            b.last_status() == BoardStatus::Ordinary,
    {
        let b = Chessboard2 { board: Squares::empty(), status: BoardStatus::Ordinary };
        assert(b@ =~= Map::<Position, Piece>::empty());
        b
    }

    /// Puts a piece on a square, in place of what stood there.
    pub fn set_(&mut self, pos: Position, v: Box<Piece>)
        ensures
            final(self)@ == old(self)@.insert(pos, *v),
            final(self).last_status() == old(self).last_status(),
    {
        let k = Chessboard2::code_of(&pos);
        self.board.put(k, v);
        proof {
            assert forall|q: Position| q != pos implies code(q) != code(pos) by {
                lemma_code(q, pos);
            }
            assert(self@ =~= old(self)@.insert(pos, *v));
        }
    }

    /// Puts a piece on the square named by a rank letter and a file number.
    pub fn set(&mut self, rank: &str, file: i8, v: Box<Piece>)
        requires
            Rank::of_text(rank@) is Ok,
            1 <= file <= 8,
        ensures
            final(self)@ == old(self)@.insert(Position::named(rank@, file as int), *v),
            final(self).last_status() == old(self).last_status(),
    {
        self.set_(Position::new(rank, file), v);
    }

    /// The piece on the square named by a rank letter and a file number, if any.
    pub fn get(&self, rank: &str, file: i8) -> (r: Option<&Box<Piece>>)
        requires
            Rank::of_text(rank@) is Ok,
            1 <= file <= 8,
        ensures
            r.is_some() == self@.contains_key(Position::named(rank@, file as int)),
            r matches Some(b) ==> **b == self@[Position::named(rank@, file as int)],
    {
        let pos = Position::new(rank, file);
        self.get_with_pos(&pos)
    }

    /// The piece on a square, if any.
    pub fn get_with_pos(&self, pos: &Position) -> (r: Option<&Box<Piece>>)
        ensures
            r.is_some() == self@.contains_key(*pos),
            r matches Some(b) ==> **b == self@[*pos],
    {
        self.board.get(Chessboard2::code_of(pos))
    }

    /// Takes the piece, if any, off a square and hands it out.
    pub fn remove(&mut self, pos: Position) -> (r: Option<Piece>)
        ensures
            final(self)@ == old(self)@.remove(pos),
            final(self).last_status() == old(self).last_status(),
            r.is_some() == old(self)@.contains_key(pos),
            r matches Some(x) ==> x == old(self)@[pos],
    {
        let k = Chessboard2::code_of(&pos);
        let r = match self.board.get(k) {
            Some(v) => Some(**v),
            None => None,
        };
        self.board.take(k);
        proof {
            assert forall|q: Position| q != pos implies code(q) != code(pos) by {
                lemma_code(q, pos);
            }
            assert(self@ =~= old(self)@.remove(pos));
        }
        r
    }

    /// Puts a new piece of the given kind and color on `pos`, in place of
    /// the piece that stands there; on an empty square it does nothing.
    pub fn promote(&mut self, pos: &Position, kind: Kind, color: Color)
        ensures
            old(self)@.contains_key(*pos) ==> final(self)@ == old(self)@.insert(
                *pos,
                Piece::fresh(kind, color),
            ),
            !old(self)@.contains_key(*pos) ==> final(self)@ == old(self)@,
            final(self).last_status() == old(self).last_status(),
    {
        let occupied = self.get_with_pos(pos).is_some();
        if occupied {
            self.set_(*pos, Piece::new(kind, color));
        }
    }

    /// Whether `previous_move` was a pawn's double step that landed one file
    /// from `to` on the rank of `to`, made by the side that the pawn `piece`
    /// does not belong to.
    pub fn is_enpassant(&self, previous_move: &Move, piece: Piece, to: &Position) -> (b: bool)
        ensures
            b == passes(*previous_move, piece, *to),
    {
        if previous_move.piece.kind != Kind::Pawn || piece.kind != Kind::Pawn {
            return false;
        }
        if previous_move.piece.color == piece.color {
            return false;
        }
        let white_pawn_4_file = previous_move.piece.color == Color::White
            && previous_move.from.file == File::Second && previous_move.to.file == File::Fourth;
        let black_pawn_5_file = previous_move.piece.color == Color::Black
            && previous_move.from.file == File::Seventh && previous_move.to.file == File::Fifth;
        let is_neighbour_file = to.file.sub(previous_move.to.file) == 1;
        let move_to_same_rank = previous_move.to.rank == to.rank;
        (white_pawn_4_file || black_pawn_5_file) && is_neighbour_file && move_to_same_rank
    }

    /// Whether a piece of the given color that comes to stand on `pos` has
    /// reached the far edge of the board.
    pub fn can_promote(&self, color: Color, pos: &Position) -> (b: bool)
        ensures
            b == far_edge(color, *pos),
    {
        if color == Color::White {
            return pos.file == File::Eighth;
        }
        pos.file == File::First
    }

    /// The first square, by number, on which a piece of the given kind and
    /// color stands, with that piece.
    pub fn find_piece(&self, kind: Kind, color: Color) -> (r: Result<(Position, Piece), Error>)
        ensures
            r matches Ok((p, x)) ==> first_of(self@, kind, color, p) && x == self@[p],
            r matches Err(e) ==> e == Error::PieceNotFound && forall|q: Position|
                !(#[trigger] self@.contains_key(q) && self@[q].kind == kind && self@[q].color
                    == color),
    {
        let all = self.board.entries();
        let mut best: Option<(u8, Piece)> = None;
        let mut i: usize = 0;
        while i < all.len()
            invariant
                i <= all.len(),
                forall|j: int|
                    0 <= j < all@.len() ==> held(self.board).contains_pair(
                        (#[trigger] all@[j]).0,
                        all@[j].1,
                    ),
                best matches Some((k, x)) ==> k < 64 && held(self.board).contains_pair(k, x)
                    && x.kind == kind && x.color == color,
                best matches Some((k, x)) ==> forall|j: int|
                    0 <= j < i && (#[trigger] all@[j]).1.kind == kind && all@[j].1.color == color
                        && all@[j].0 < 64 ==> k <= all@[j].0,
                best is None ==> forall|j: int|
                    0 <= j < i ==> !((#[trigger] all@[j]).1.kind == kind && all@[j].1.color
                        == color && all@[j].0 < 64),
            decreases all.len() - i,
        {
            let (k, x) = all[i];
            // Only the numbers below 64 are numbers of squares.
            if k < 64 && x.kind == kind && x.color == color {
                let better = match best {
                    Some((b, _)) => k < b,
                    None => true,
                };
                if better {
                    best = Some((k, x));
                }
            }
            i = i + 1;
        }
        match best {
            Some((k, x)) => {
                let p = Chessboard2::square_of(k);
                proof {
                    assert forall|q: Position|
                        #[trigger] self@.contains_key(q) && self@[q].kind == kind && self@[q].color
                            == color implies code(p) <= code(q) by {
                        lemma_code(q, q);
                        let j = choose|j: int| 0 <= j < all@.len() && (#[trigger] all@[j]).0 == code(q);
                        assert(held(self.board).contains_pair(all@[j].0, all@[j].1));
                    }
                }
                Ok((p, x))
            },
            None => {
                proof {
                    assert forall|q: Position|
                        !(#[trigger] self@.contains_key(q) && self@[q].kind == kind
                            && self@[q].color == color) by {
                        if self@.contains_key(q) {
                            lemma_code(q, q);
                            let j = choose|j: int|
                                0 <= j < all@.len() && (#[trigger] all@[j]).0 == code(q);
                            assert(held(self.board).contains_pair(all@[j].0, all@[j].1));
                        }
                    }
                }
                Err(Error::PieceNotFound)
            },
        }
    }

    /// The squares a pawn of the given color on `from` takes towards.
    fn pawn_targets(color: Color, from: Position) -> (r: Vec<Position>)
        ensures
            forall|q: Position| r@.contains(q) <==> pawn_takes(color, from, q),
    {
        let diagonal = from.diagonals_squares(1);
        let mut r: Vec<Position> = Vec::new();
        let mut i: usize = 0;
        while i < diagonal.len()
            invariant
                i <= diagonal.len(),
                diagonal@ == from.diagonal_rings(1),
                forall|q: Position| r@.contains(q) ==> pawn_takes(color, from, q),
                forall|j: int|
                    0 <= j < i && pawn_takes(color, from, #[trigger] diagonal@[j]) ==> r@.contains(
                        diagonal@[j],
                    ),
            decreases diagonal.len() - i,
        {
            let q = diagonal[i];
            let ghost before = r@;
            let ahead = match color {
                Color::White => q.file.to_index() == from.file.to_index() + 1,
                Color::Black => q.file.to_index() + 1 == from.file.to_index(),
                Color::Unknown => false,
            };
            proof {
                assert(diagonal@.contains(q));
                from.lemma_diagonal_rings(1, q);
                lemma_square_here(q);
                lemma_square_here(from);
            }
            if ahead {
                r.push(q);
                proof {
                    assert forall|c: Position| r@.contains(c) implies pawn_takes(color, from, c) by {
                        lemma_seq_contains_after_push(before, q, c);
                    }
                    assert forall|j: int|
                        0 <= j < i + 1 && pawn_takes(
                            color,
                            from,
                            #[trigger] diagonal@[j],
                        ) implies r@.contains(diagonal@[j]) by {
                        lemma_seq_contains_after_push(before, q, diagonal@[j]);
                    }
                }
            }
            i = i + 1;
        }
        proof {
            assert forall|q: Position| pawn_takes(color, from, q) implies r@.contains(q) by {
                from.lemma_diagonal_rings(1, q);
                lemma_square_here(q);
                lemma_square_here(from);
                assert(diagonal@.contains(q));
                let j = choose|j: int| 0 <= j < diagonal@.len() && diagonal@[j] == q;
                assert(pawn_takes(color, from, diagonal@[j]));
            }
        }
        r
    }

    /// Whether an occupied square lies strictly between `from` and `to` on
    /// the straight line that joins them.
    fn is_blocked(&self, from: Position, to: Position) -> (b: bool)
        ensures
            b == blocked(self@, from, to),
    {
        let path = from.shortest_path(to);
        proof {
            from.law_path_between(to);
        }
        let mut i: usize = 0;
        while i < path.len()
            invariant
                i <= path.len(),
                path@ == from.path_to(to),
                forall|q: Position|
                    from.strictly_between(q, to) <==> #[trigger] from.path_to(to).contains(q),
                forall|j: int| 0 <= j < i ==> !self@.contains_key(#[trigger] path@[j]),
            decreases path.len() - i,
        {
            let q = path[i];
            if self.get_with_pos(&q).is_some() {
                proof {
                    assert(path@.contains(q));
                    assert(from.strictly_between(q, to) && self@.contains_key(q));
                }
                return true;
            }
            i = i + 1;
        }
        proof {
            assert forall|q: Position|
                !(#[trigger] from.strictly_between(q, to) && self@.contains_key(q)) by {
                if from.strictly_between(q, to) {
                    assert(path@.contains(q));
                    let j = choose|j: int| 0 <= j < path@.len() && path@[j] == q;
                    assert(!self@.contains_key(path@[j]));
                }
            }
        }
        false
    }

    /// Whether the piece `x`, standing on `at`, attacks `target`.
    fn piece_attacks(&self, at: Position, x: Piece, target: &Position) -> (b: bool)
        ensures
            b == attacks(self@, at, x, *target),
    {
        if at == *target {
            return false;
        }
        let mut piece = x;
        let reach = piece.possible_moves(at);
        let can_capture = if x.kind == Kind::Pawn {
            let targets = Chessboard2::pawn_targets(x.color, at);
            target.is_in(&targets)
        } else {
            target.is_in(&reach)
        };
        if !can_capture {
            return false;
        }
        !self.is_blocked(at, *target)
    }

    /// Whether a piece of a color other than `color` attacks `field`.
    pub fn is_field_threatened(&self, color: Color, field: &Position) -> (b: bool)
        ensures
            b == threatened(self@, color, *field),
    {
        let all = self.board.entries();
        let mut i: usize = 0;
        while i < all.len()
            invariant
                i <= all.len(),
                forall|j: int|
                    0 <= j < all@.len() ==> held(self.board).contains_pair(
                        (#[trigger] all@[j]).0,
                        all@[j].1,
                    ),
                forall|j: int|
                    0 <= j < i && (#[trigger] all@[j]).0 < 64 ==> !(all@[j].1.color != color
                        && attacks(self@, numbered(all@[j].0), all@[j].1, *field)),
            decreases all.len() - i,
        {
            let (k, x) = all[i];
            // Only the numbers below 64 are numbers of squares.
            if k < 64 {
                let p = Chessboard2::square_of(k);
                if x.color != color && self.piece_attacks(p, x, field) {
                    proof {
                        assert(self@.contains_key(p) && self@[p].color != color && attacks(
                            self@,
                            p,
                            self@[p],
                            *field,
                        ));
                    }
                    return true;
                }
            }
            i = i + 1;
        }
        proof {
            assert forall|p: Position|
                !(#[trigger] self@.contains_key(p) && self@[p].color != color && attacks(
                    self@,
                    p,
                    self@[p],
                    *field,
                )) by {
                if self@.contains_key(p) {
                    lemma_code(p, p);
                    lemma_square_here(p);
                    let j = choose|j: int| 0 <= j < all@.len() && (#[trigger] all@[j]).0 == code(p);
                    assert(held(self.board).contains_pair(all@[j].0, all@[j].1));
                    assert(p == numbered(all@[j].0));
                }
            }
        }
        false
    }

    /// Whether the king of the given color is attacked; `false` where no
    /// such king stands on the board.
    pub fn is_checked(&self, color: Color) -> (b: bool)
        ensures
            b == in_check(self@, color),
    {
        match self.find_piece(Kind::King, color) {
            Ok((king_pos, _)) => {
                let b = self.is_field_threatened(color, &king_pos);
                proof {
                    assert forall|k: Position| first_of(self@, Kind::King, color, k) implies k
                        == king_pos by {
                        lemma_code(k, king_pos);
                    }
                }
                b
            },
            Err(_) => false,
        }
    }

    /// The squares among `reach` on which the piece `x` may land.
    fn landing_squares(&self, reach: &Vec<Position>, x: Piece) -> (r: Vec<Position>)
        ensures
            forall|q: Position|
                #[trigger] r@.contains(q) <==> reach@.contains(q) && may_land(self@, x, q),
    {
        let mut r: Vec<Position> = Vec::new();
        let mut i: usize = 0;
        while i < reach.len()
            invariant
                i <= reach.len(),
                forall|q: Position|
                    #[trigger] r@.contains(q) ==> reach@.contains(q) && may_land(self@, x, q),
                forall|j: int|
                    0 <= j < i && may_land(self@, x, #[trigger] reach@[j]) ==> r@.contains(
                        reach@[j],
                    ),
            decreases reach.len() - i,
        {
            let q = reach[i];
            let ghost before = r@;
            let keep = match self.get_with_pos(&q) {
                Some(p) => p.color != x.color && x.kind != Kind::Pawn,
                None => true,
            };
            if keep {
                r.push(q);
                proof {
                    assert(reach@.contains(q));
                    assert forall|c: Position| #[trigger]
                        r@.contains(c) implies reach@.contains(c) && may_land(self@, x, c) by {
                        lemma_seq_contains_after_push(before, q, c);
                    }
                    assert forall|j: int|
                        0 <= j < i + 1 && may_land(self@, x, #[trigger] reach@[j]) implies r@.contains(
                        reach@[j],
                    ) by {
                        lemma_seq_contains_after_push(before, q, reach@[j]);
                    }
                }
            }
            i = i + 1;
        }
        proof {
            assert forall|q: Position| reach@.contains(q) && may_land(self@, x, q) implies r@.contains(
                q,
            ) by {
                let j = choose|j: int| 0 <= j < reach@.len() && reach@[j] == q;
                assert(may_land(self@, x, reach@[j]));
            }
        }
        r
    }

    /// Adds to `moves` the squares among `targets` on which a piece of a
    /// color other than `color` stands.
    fn add_captures(&self, moves: &mut Vec<Position>, targets: &Vec<Position>, color: Color)
        ensures
            forall|q: Position|
                #[trigger] final(moves)@.contains(q) <==> old(moves)@.contains(q) || (
                targets@.contains(q) && self@.contains_key(q) && self@[q].color != color),
    {
        let mut i: usize = 0;
        while i < targets.len()
            invariant
                i <= targets.len(),
                forall|q: Position|
                    #[trigger] moves@.contains(q) ==> old(moves)@.contains(q) || (
                    targets@.contains(q) && self@.contains_key(q) && self@[q].color != color),
                forall|q: Position| old(moves)@.contains(q) ==> #[trigger] moves@.contains(q),
                forall|j: int|
                    0 <= j < i && self@.contains_key(#[trigger] targets@[j])
                        && self@[targets@[j]].color != color ==> moves@.contains(targets@[j]),
            decreases targets.len() - i,
        {
            let q = targets[i];
            let ghost before = moves@;
            let taken = match self.get_with_pos(&q) {
                Some(p) => p.color != color,
                None => false,
            };
            if taken {
                moves.push(q);
                proof {
                    assert(targets@.contains(q));
                    assert forall|c: Position| #[trigger]
                        moves@.contains(c) implies old(moves)@.contains(c) || (targets@.contains(c)
                        && self@.contains_key(c) && self@[c].color != color) by {
                        lemma_seq_contains_after_push(before, q, c);
                    }
                    assert forall|c: Position| old(moves)@.contains(c) implies #[trigger]
                        moves@.contains(c) by {
                        lemma_seq_contains_after_push(before, q, c);
                    }
                    assert forall|j: int|
                        0 <= j < i + 1 && self@.contains_key(#[trigger] targets@[j])
                            && self@[targets@[j]].color != color implies moves@.contains(
                        targets@[j],
                    ) by {
                        lemma_seq_contains_after_push(before, q, targets@[j]);
                    }
                }
            }
            i = i + 1;
        }
        proof {
            assert forall|q: Position|
                targets@.contains(q) && self@.contains_key(q) && self@[q].color
                    != color implies moves@.contains(q) by {
                let j = choose|j: int| 0 <= j < targets@.len() && targets@[j] == q;
                assert(self@.contains_key(targets@[j]));
            }
        }
    }

    /// Judges the move that `notation` names, for the side `color`, after
    /// `previous_move`. Nothing on the board moves: on success the board
    /// only remembers the status it hands out with the move.
    pub fn move_(
        &mut self,
        previous_move: Option<&Move>,
        notation: &str,
        color: Color,
        can_castle: bool,
    ) -> (r: Result<(Move, BoardStatus), Error>)
        ensures
            final(self)@ == old(self)@,
            decoded(notation@) matches Err(e) ==> r == Err::<(Move, BoardStatus), Error>(e),
            decoded(notation@) matches Ok((k, from, to)) ==> r == judge(
                old(self)@,
                owned(previous_move),
                from,
                to,
                color,
            ),
            r matches Ok((m, st)) ==> final(self).last_status() == st,
            r is Err ==> final(self).last_status() == old(self).last_status(),
    {
        let ends = match PGN::parse(notation) {
            Ok(v) => v,
            Err(e) => {
                return Err(e);
            },
        };
        let from = ends[0].position;
        let to = ends[1].position;
        self.weigh(previous_move, from, to, color)
    }

    /// Judges the move from `from` to `to`, for the side `color`, after
    /// `previous_move`.
    pub fn weigh(
        &mut self,
        previous_move: Option<&Move>,
        from: Position,
        to: Position,
        color: Color,
    ) -> (r: Result<(Move, BoardStatus), Error>)
        ensures
            final(self)@ == old(self)@,
            r == judge(old(self)@, owned(previous_move), from, to, color),
            r matches Ok((m, st)) ==> final(self).last_status() == st,
            r is Err ==> final(self).last_status() == old(self).last_status(),
    {
        if from == to {
            return Err(Error::SameOriginAndDestination);
        }
        let piece = match self.get_with_pos(&from) {
            Some(v) => **v,
            None => {
                return Err(Error::NoPieceAtOrigin);
            },
        };
        if piece.color != color {
            return Err(Error::WrongColorToMove);
        }
        let mut mover = piece;
        let reach = mover.possible_moves(from);
        let mut moves = self.landing_squares(&reach, piece);
        let ghost by_step = piece.can_reach(from, to) && may_land(self@, piece, to);
        assert(moves@.contains(to) == by_step);
        let targets = if piece.kind == Kind::Pawn {
            Chessboard2::pawn_targets(color, from)
        } else {
            Vec::new()
        };
        let ghost takes = piece.kind == Kind::Pawn && pawn_takes(color, from, to);
        assert(targets@.contains(to) == takes);
        self.add_captures(&mut moves, &targets, color);
        let ghost by_capture = takes && self@.contains_key(to) && self@[to].color != color;
        assert(moves@.contains(to) == (by_step || by_capture));
        if self.is_blocked(from, to) {
            return Err(Error::BlockedPath);
        }
        let mut capture: Option<Piece> = None;
        let mut passing = false;
        match previous_move {
            Some(pm) => {
                if self.is_enpassant(pm, piece, &to) && to.is_in(&targets) && from.file
                    == pm.to.file && self.get_with_pos(&to).is_none() {
                    match self.get_with_pos(&pm.to) {
                        Some(v) => {
                            if v.kind == Kind::Pawn && v.color != color {
                                let ghost before = moves@;
                                moves.push(to);
                                proof {
                                    assert forall|q: Position|
                                        moves@.contains(q) <==> before.contains(q) || q == to by {
                                        lemma_seq_contains_after_push(before, to, q);
                                    }
                                }
                                capture = Some(**v);
                                passing = true;
                            }
                        },
                        None => {},
                    }
                }
            },
            None => {},
        }
        if !passing {
            match self.get_with_pos(&to) {
                Some(p) => {
                    if p.color != color {
                        capture = Some(**p);
                    }
                },
                None => {},
            }
        }
        assert(passing == in_passing(self@, owned(previous_move), piece, from, to));
        assert(moves@.contains(to) == (by_step || by_capture || passing));
        if !to.is_in(&moves) {
            return Err(Error::IllegalDestination);
        }
        if piece.number_of_moves == i8::MAX {
            return Err(Error::InvariantViolation);
        }
        let status = if piece.kind == Kind::Pawn && self.can_promote(color, &to) {
            BoardStatus::Promote
        } else {
            BoardStatus::Ordinary
        };
        self.status = status;
        let m = Move {
            from: from,
            to: to,
            piece: piece,
            capture: capture,
            is_from_orignal_pos: piece.number_of_moves == 0,
            en_passant: passing,
        };
        assert(m == made_move(self@, owned(previous_move), from, to));
        Ok((m, status))
    }

    /// Lays the pieces of a listing on the board, one by one: the entries
    /// run rank by rank within a file and file after file, and start over
    /// from the first file after the 64th.
    pub fn set_position(&mut self, board: Vec<Option<Box<Piece>>>)
        ensures
            final(self)@ == laid(old(self)@, board@, board@.len() as int),
            final(self).last_status() == old(self).last_status(),
    {
        let mut rank = Rank::A;
        let mut file = File::First;
        let mut i: usize = 0;
        while i < board.len()
            invariant
                i <= board.len(),
                rank == Rank::of(i as int),
                file == file_before(i as int),
                self@ == laid(old(self)@, board@, i as int),
                self.last_status() == old(self).last_status(),
            decreases board.len() - i,
        {
            proof {
                lemma_file_step(i as int, file);
            }
            if i % 8 == 0 && i > 0 {
                file = file.up();
                rank = Rank::A;
            }
            proof {
                lemma_slot(i as int, rank, file);
            }
            match &board[i] {
                Some(p) => {
                    self.set_(Position::new_(rank, file), Box::new(**p));
                },
                None => {},
            }
            rank = rank.right();
            proof {
                Rank::lemma_of_any(i as int);
            }
            i = i + 1;
        }
    }

    /// The kind of the piece that starts on the given rank of a side's own file.
    fn back_rank_kind(r: usize) -> (k: Kind)
        ensures
            k == back_rank(r as int),
    {
        if r == 0 || r == 7 {
            Kind::Rook
        } else if r == 1 || r == 6 {
            Kind::Knight
        } else if r == 2 || r == 5 {
            Kind::Bishop
        } else if r == 3 {
            Kind::Queen
        } else {
            Kind::King
        }
    }

    /// The `i`-th entry of the listing of the position from which a game starts.
    fn opening_entry(i: usize) -> (e: Option<Box<Piece>>)
        requires
            i < 64,
        ensures
            e is Some == starting_position().contains_key(slot(i as int)),
            e matches Some(x) ==> *x == starting_position()[slot(i as int)],
    {
        proof {
            lemma_square_places(i as int % 8, (i as int / 8) % 8);
        }
        let file = i / 8;
        let rank = i % 8;
        if file == 0 {
            Some(Piece::new(Chessboard2::back_rank_kind(rank), Color::White))
        } else if file == 1 {
            Some(Piece::new(Kind::Pawn, Color::White))
        } else if file == 6 {
            Some(Piece::new(Kind::Pawn, Color::Black))
        } else if file == 7 {
            Some(Piece::new(Chessboard2::back_rank_kind(rank), Color::Black))
        } else {
            None
        }
    }

    /// Clears the board and sets up the position from which a game starts.
    pub fn reset(&mut self)
        ensures
            final(self)@ == starting_position(),
            final(self).last_status() == BoardStatus::Ordinary,
    {
        let mut v: Vec<Option<Box<Piece>>> = Vec::new();
        let mut i: usize = 0;
        while i < 64
            invariant
                i <= 64,
                v@.len() == i,
                forall|j: int|
                    0 <= j < i ==> (#[trigger] v@[j]) is Some == starting_position().contains_key(
                        slot(j),
                    ),
                forall|j: int|
                    0 <= j < i ==> ((#[trigger] v@[j]) matches Some(x) ==> *x
                        == starting_position()[slot(j)]),
            decreases 64 - i,
        {
            v.push(Chessboard2::opening_entry(i));
            i = i + 1;
        }
        self.board = Squares::empty();
        self.status = BoardStatus::Ordinary;
        assert(self@ =~= Map::<Position, Piece>::empty());
        proof {
            lemma_opening(v@);
        }
        self.set_position(v);
    }
}

/// At most one piece stands on a square: two pieces that a board holds on
/// the same square are one and the same.
pub proof fn law_one_piece_per_square(b: Chessboard2, p: Position, x: Piece, y: Piece)
    requires
        b@.contains_pair(p, x),
        b@.contains_pair(p, y),
    ensures
        x == y,
{
}

/// The board asks for a promotion exactly when the move it has judged legal
/// brings a pawn to the far edge for its color.
pub proof fn law_promotion_status(
    b: Map<Position, Piece>,
    prev: Option<Move>,
    from: Position,
    to: Position,
    color: Color,
)
    requires
        judge(b, prev, from, to, color) is Ok,
    ensures
        judge(b, prev, from, to, color)->Ok_0.1 == BoardStatus::Promote <==> b[from].kind
            == Kind::Pawn && far_edge(color, to),
        judge(b, prev, from, to, color)->Ok_0.1 == BoardStatus::Promote || judge(
            b,
            prev,
            from,
            to,
            color,
        )->Ok_0.1 == BoardStatus::Ordinary,
{
}

/// A capture in passing is judged legal only directly after the double step
/// of a pawn of the other side over the destination, and it takes that pawn:
/// from the square on which it landed, which lies beside the destination on
/// the same rank, not from the destination.
pub proof fn law_capture_in_passing(
    b: Map<Position, Piece>,
    prev: Option<Move>,
    from: Position,
    to: Position,
    color: Color,
)
    requires
        judge(b, prev, from, to, color) is Ok,
        judge(b, prev, from, to, color)->Ok_0.0.en_passant,
    ensures
        prev is Some,
        passes(prev->Some_0, b[from], to),
        judge(b, prev, from, to, color)->Ok_0.0.taken_at() == prev->Some_0.to,
        prev->Some_0.to != to,
        prev->Some_0.to.rank == to.rank,
        span(prev->Some_0.to.f(), to.f()) == 1,
        b.contains_key(prev->Some_0.to),
        b[prev->Some_0.to].kind == Kind::Pawn,
        b[prev->Some_0.to].color != color,
        judge(b, prev, from, to, color)->Ok_0.0.capture == Some(b[prev->Some_0.to]),
        !judge(b, prev, from, to, color)->Ok_0.0.applied_to(b).contains_key(prev->Some_0.to),
        judge(b, prev, from, to, color)->Ok_0.0.applied_to(b).contains_pair(to, b[from].moved()),
{
    let m = judge(b, prev, from, to, color)->Ok_0.0;
    lemma_square_here(from);
    lemma_square_here(to);
    lemma_square_here(prev->Some_0.to);
    lemma_square_here(m.taken_at());
}

} // verus!
