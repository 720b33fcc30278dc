use crate::chessboard::far_edge;
use crate::chessboard::in_check;
use crate::chessboard::judge;
use crate::chessboard::lemma_squares_finite;
use crate::chessboard::starting_position;
use crate::chessboard::threatened;
use crate::chessboard::BoardStatus;
use crate::chessboard::Chessboard2;
use crate::clock::local_time_text;
use crate::error::Error;
use crate::file::File;
use crate::pgn::decoded;
use crate::pgn::lemma_square_here;
use crate::pgn::Position;
use crate::pieces::Color;
use crate::pieces::Kind;
use crate::pieces::Piece;
use crate::rank::Rank;
use std::collections::VecDeque;
use vstd::prelude::*;

verus! {

/// A move of one piece, as the board judged it.
#[derive(Copy, Clone, Debug, PartialEq, Eq)]
pub struct Move {
    /// The square the piece leaves.
    pub from: Position,
    /// The square the piece goes to.
    pub to: Position,
    /// The piece that moves: as it stands on `from` where the board hands
    /// the move out, and with its counter raised by this move where the
    /// history holds the move.
    pub piece: Piece,
    /// The piece that the move takes off the board, if any.
    pub capture: Option<Piece>,
    /// Whether this is the first move of the piece.
    pub is_from_orignal_pos: bool,
    /// Whether the move takes a pawn in passing: the pawn taken then stands
    /// beside the square the mover leaves, not on the square it goes to.
    pub en_passant: bool,
}

/// The digit for a number from 0 to 9.
pub open spec fn digit_char(d: int) -> char {
    if d == 0 {
        '0'
    } else if d == 1 {
        '1'
    } else if d == 2 {
        '2'
    } else if d == 3 {
        '3'
    } else if d == 4 {
        '4'
    } else if d == 5 {
        '5'
    } else if d == 6 {
        '6'
    } else if d == 7 {
        '7'
    } else if d == 8 {
        '8'
    } else {
        '9'
    }
}

/// The decimal digits of a number, without leading zeros.
pub open spec fn decimal(n: nat) -> Seq<char>
    decreases n,
{
    if n < 10 {
        seq![digit_char(n as int)]
    } else {
        decimal(n / 10) + seq![digit_char((n % 10) as int)]
    }
}

/// The text of a number from 0 to 9.
fn digit_text(d: usize) -> (s: &'static str)
    requires
        d < 10,
    ensures
        s@ == seq![digit_char(d as int)],
{
    proof {
        reveal_strlit("0");
        reveal_strlit("1");
        reveal_strlit("2");
        reveal_strlit("3");
        reveal_strlit("4");
        reveal_strlit("5");
        reveal_strlit("6");
        reveal_strlit("7");
        reveal_strlit("8");
        reveal_strlit("9");
    }
    let s = if d == 0 {
        "0"
    } else if d == 1 {
        "1"
    } else if d == 2 {
        "2"
    } else if d == 3 {
        "3"
    } else if d == 4 {
        "4"
    } else if d == 5 {
        "5"
    } else if d == 6 {
        "6"
    } else if d == 7 {
        "7"
    } else if d == 8 {
        "8"
    } else {
        "9"
    };
    assert(s@ =~= seq![digit_char(d as int)]);
    s
}

/// Appends the decimal digits of a number to a text.
fn append_decimal(s: &mut String, n: usize)
    ensures
        final(s)@ == old(s)@ + decimal(n as nat),
    decreases n,
{
    if n >= 10 {
        append_decimal(s, n / 10);
    }
    s.append(digit_text(n % 10));
    assert(s@ =~= old(s)@ + decimal(n as nat));
}

/// Whether two pieces are of the same kind and color.
pub open spec fn same_piece(a: Piece, b: Piece) -> bool {
    a.kind == b.kind && a.color == b.color
}

/// Whether the move `m` was made by a piece of the kind and color of
/// `piece`, from `from` where one is given, and to `to` where one is given.
pub open spec fn move_matches(m: Move, piece: Piece, from: Option<Position>, to: Option<Position>) -> bool {
    &&& same_piece(m.piece, piece)
    &&& from matches Some(f) ==> m.from == f
    &&& to matches Some(t) ==> m.to == t
}

/// Whether `at` is the place of the first move on record that matches.
pub open spec fn first_match(
    history: Seq<Move>,
    piece: Piece,
    from: Option<Position>,
    to: Option<Position>,
    at: int,
) -> bool {
    &&& 0 <= at < history.len()
    &&& move_matches(history[at], piece, from, to)
    &&& forall|j: int| 0 <= j < at ==> !move_matches(#[trigger] history[j], piece, from, to)
}

/// The square that a reference, if any, leads to.
pub open spec fn owned_square(p: Option<&Position>) -> Option<Position> {
    match p {
        Some(v) => Some(*v),
        None => None,
    }
}

impl Move {
    /// The square from which the move takes a piece off the board: the
    /// destination, or, in passing, the square on the rank of the
    /// destination and on the file of the origin.
    pub open spec fn taken_at(self) -> Position {
        if self.en_passant {
            Position { rank: self.to.rank, file: self.from.file }
        } else {
            self.to
        }
    }

    /// The move as the history records it once it is made: the piece with
    /// its counter raised by this move, and the mark of a first move set
    /// where the counter stood at 0 before.
    pub open spec fn recorded(self) -> Move {
        Move {
            from: self.from,
            to: self.to,
            piece: self.piece.moved(),
            capture: self.capture,
            is_from_orignal_pos: self.piece.number_of_moves == 0,
            en_passant: self.en_passant,
        }
    }

    /// The board after the move: the origin, the destination and the square
    /// of the capture are cleared, and the piece, having moved once more,
    /// stands on the destination.
    pub open spec fn applied_to(self, b: Map<Position, Piece>) -> Map<Position, Piece> {
        b.remove(self.from).remove(self.to).remove(self.taken_at()).insert(
            self.to,
            self.piece.moved(),
        )
    }

    /// The board after the move has been taken back: the destination is
    /// cleared, the piece stands on the origin as this move holds it, and the
    /// piece taken, if any, stands where it was taken. For a move taken from
    /// the history the piece is held with its counter raised, and the
    /// counter stays so.
    pub open spec fn undone_on(self, b: Map<Position, Piece>) -> Map<Position, Piece> {
        let back = b.remove(self.to).insert(self.from, self.piece);
        match self.capture {
            Some(c) => back.insert(self.taken_at(), c),
            None => back,
        }
    }

    /// The move as a record of a game writes it: the letter of the piece
    /// unless it is a pawn, the rank it comes from if this is its first move
    /// and it is no pawn, the rank and the file it goes to, an `x` where it
    /// takes a piece, and a space.
    pub open spec fn text(self) -> Seq<char> {
        (if self.piece.kind != Kind::Pawn {
            seq![self.piece.kind.letter()]
        } else {
            Seq::empty()
        }) + (if self.piece.kind != Kind::Pawn && self.is_from_orignal_pos {
            seq![self.from.rank.letter()]
        } else {
            Seq::empty()
        }) + seq![self.to.rank.letter(), self.to.file.digit()] + (if self.capture is Some {
            seq!['x']
        } else {
            Seq::empty()
        }) + seq![' ']
    }

    /// The square from which the move takes a piece off the board.
    pub fn capture_square(&self) -> (p: Position)
        ensures
            p == self.taken_at(),
    {
        if self.en_passant {
            Position { rank: self.to.rank, file: self.from.file }
        } else {
            self.to
        }
    }

    /// The move as a record of a game writes it.
    pub fn pgn(&self) -> (s: String)
        ensures
            s@ == self.text(),
    {
        proof {
            reveal_strlit("");
            reveal_strlit("x");
            reveal_strlit(" ");
        }
        let kind_str = if self.piece.kind != Kind::Pawn {
            self.piece.kind.pgn()
        } else {
            ""
        };
        let capture_str = match self.capture {
            Some(_) => "x",
            None => "",
        };
        let has_moved_str = if self.piece.kind != Kind::Pawn && self.is_from_orignal_pos {
            self.from.rank.to_str()
        } else {
            ""
        };
        let mut s = String::from_str(kind_str);
        s.append(has_moved_str);
        s.append(self.to.rank.to_str());
        s.append(digit_text(self.to.file.to_index() + 1));
        s.append(capture_str);
        s.append(" ");
        proof {
            assert(self.to.file.digit() == digit_char(self.to.file.idx() + 1));
            assert(s@ =~= self.text());
        }
        s
    }
}

/// The move made last, if any.
pub open spec fn last_move(history: Seq<Move>) -> Option<Move> {
    if history.len() > 0 {
        Some(history.last())
    } else {
        None
    }
}

/// The square on which the king of a side starts.
pub open spec fn king_home(color: Color) -> Position {
    Position {
        rank: Rank::E,
        file: if color == Color::White {
            File::First
        } else {
            File::Eighth
        },
    }
}

/// The square on which the rook of a side that is nearer to rank `a` starts.
pub open spec fn a_rook_home(color: Color) -> Position {
    Position { rank: Rank::A, file: king_home(color).file }
}

/// The square on which the rook of a side that is nearer to rank `h` starts.
pub open spec fn h_rook_home(color: Color) -> Position {
    Position { rank: Rank::H, file: king_home(color).file }
}

/// Whether the king or a rook of a side has ever left the square on which it
/// starts.
pub open spec fn has_left_home(history: Seq<Move>, color: Color) -> bool {
    exists|i: int|
        0 <= i < history.len() && (#[trigger] history[i]).piece.color == color && ((
        history[i].piece.kind == Kind::King && history[i].from == king_home(color)) || (
        history[i].piece.kind == Kind::Rook && (history[i].from == a_rook_home(color)
            || history[i].from == h_rook_home(color))))
}

/// The squares between the king of a side and its two rooks, as they start:
/// those towards rank `a` first.
pub open spec fn castling_path(color: Color) -> Seq<Position> {
    king_home(color).path_to(a_rook_home(color)) + king_home(color).path_to(h_rook_home(color))
}

/// Whether a side may castle: it is White or Black and not in check, neither
/// its king nor its rooks have left their squares, no square between the
/// king and the rooks is occupied, and at least one of these squares is not
/// attacked.
pub open spec fn may_castle(b: Map<Position, Piece>, history: Seq<Move>, color: Color) -> bool {
    &&& color != Color::Unknown
    &&& !in_check(b, color)
    &&& !has_left_home(history, color)
    &&& forall|i: int|
        0 <= i < castling_path(color).len() ==> !b.contains_key(#[trigger] castling_path(color)[i])
    &&& exists|i: int|
        0 <= i < castling_path(color).len() && !threatened(
            b,
            color,
            #[trigger] castling_path(color)[i],
        )
}

/// What a game makes of the move from `from` to `to`: the board, the
/// history, the side to move and the answer after it. A move that the board
/// turns down changes nothing and is answered with the board's reason. A
/// move that leaves the mover's own king attacked is made and taken back:
/// every piece stands where it stood, but the counter of the mover stays
/// raised. Any other move is made and recorded; the turn passes to the other
/// side unless a pawn waits to be promoted.
pub open spec fn outcome(
    b: Map<Position, Piece>,
    history: Seq<Move>,
    side: Color,
    from: Position,
    to: Position,
) -> (Map<Position, Piece>, Seq<Move>, Color, Result<BoardStatus, Error>) {
    match judge(b, last_move(history), from, to, side) {
        Err(e) => (b, history, side, Err(e)),
        Ok((m, st)) => {
            if in_check(m.applied_to(b), side) {
                (b.insert(from, b[from].moved()), history, side, Ok(BoardStatus::Ordinary))
            } else if st == BoardStatus::Promote {
                (m.applied_to(b), history.push(m.recorded()), side, Ok(BoardStatus::Promote))
            } else {
                (
                    m.applied_to(b),
                    history.push(m.recorded()),
                    side.other(),
                    Ok(BoardStatus::Ordinary),
                )
            }
        },
    }
}

/// The status that a board remembers after it has judged a move: that of
/// the move, or, where it turned the move down, the status it remembered
/// before.
pub open spec fn status_after(
    before: BoardStatus,
    judged: Result<(Move, BoardStatus), Error>,
) -> BoardStatus {
    match judged {
        Ok((m, st)) => st,
        Err(e) => before,
    }
}

/// Whether no key stands twice in a list of notes.
pub open spec fn keys_differ(notes: Seq<(Seq<char>, Seq<char>)>) -> bool {
    forall|i: int, j: int|
        0 <= i < j < notes.len() ==> (#[trigger] notes[i]).0 != (#[trigger] notes[j]).0
}

/// Whether a note stands under the given key.
pub open spec fn has_key(notes: Seq<(Seq<char>, Seq<char>)>, key: Seq<char>) -> bool {
    exists|i: int| 0 <= i < notes.len() && (#[trigger] notes[i]).0 == key
}

/// Whether `at` is the place of the first note under the given key.
pub open spec fn first_under(notes: Seq<(Seq<char>, Seq<char>)>, key: Seq<char>, at: int) -> bool {
    &&& 0 <= at < notes.len()
    &&& notes[at].0 == key
    &&& forall|j: int| 0 <= j < at ==> (#[trigger] notes[j]).0 != key
}

/// The notes after a value has been noted under a key: in place of the
/// first note under that key, or, where there is none, behind all others.
pub open spec fn noted(
    notes: Seq<(Seq<char>, Seq<char>)>,
    key: Seq<char>,
    value: Seq<char>,
) -> Seq<(Seq<char>, Seq<char>)> {
    if has_key(notes, key) {
        notes.update(choose|at: int| first_under(notes, key, at), (key, value))
    } else {
        notes.push((key, value))
    }
}

/// The notes as a record of a game writes them: each as `[key: value]`.
pub open spec fn notes_text(notes: Seq<(Seq<char>, Seq<char>)>) -> Seq<char>
    decreases notes.len(),
{
    if notes.len() == 0 {
        Seq::empty()
    } else {
        notes_text(notes.drop_last()) + seq!['['] + notes.last().0 + seq![':', ' ']
            + notes.last().1 + seq![']']
    }
}

/// The `k`-th pair of moves as a record of a game writes it: its number, a
/// full stop and a space, the move of the first side, the move of the second
/// side if it has been made, and a space.
pub open spec fn pair_text(history: Seq<Move>, k: int) -> Seq<char> {
    decimal((k + 1) as nat) + seq!['.', ' '] + history[2 * k].text() + (if 2 * k + 1
        < history.len() {
        history[2 * k + 1].text()
    } else {
        Seq::empty()
    }) + seq![' ']
}

/// The first `pairs` pairs of moves as a record of a game writes them.
pub open spec fn record_text(history: Seq<Move>, pairs: int) -> Seq<char>
    decreases pairs,
{
    if pairs <= 0 {
        Seq::empty()
    } else {
        record_text(history, pairs - 1) + pair_text(history, pairs - 1)
    }
}

/// A game of chess: the board, the side to move, the moves made so far and
/// notes about the game.
#[derive(Debug)]
pub struct Game {
    pub board: Chessboard2,
    turn: Color,
    moves: VecDeque<Move>,
    metadata: Vec<(String, String)>,
}

impl Clone for Game {
    /// A game with the same board, side to move, moves and notes.
    fn clone(&self) -> (g: Self)
        ensures
            g.pieces() == self.pieces(),
            g.status() == self.status(),
            g.side() == self.side(),
            g.history() == self.history(),
            g.notes() == self.notes(),
    {
        let mut moves: VecDeque<Move> = VecDeque::with_capacity(90);
        let mut i: usize = 0;
        while i < self.moves.len()
            invariant
                i <= self.moves.len(),
                moves@ == self.moves@.take(i as int),
            decreases self.moves.len() - i,
        {
            moves.push_back(self.moves[i]);
            assert(self.moves@.take(i + 1) =~= self.moves@.take(i as int).push(self.moves@[i as int]));
            i = i + 1;
        }
        assert(self.moves@.take(i as int) =~= self.moves@);
        let mut metadata: Vec<(String, String)> = Vec::new();
        let mut j: usize = 0;
        while j < self.metadata.len()
            invariant
                j <= self.metadata.len(),
                metadata@.len() == j,
                forall|k: int|
                    0 <= k < j ==> (#[trigger] metadata@[k]).0@ == self.metadata@[k].0@
                        && metadata@[k].1@ == self.metadata@[k].1@,
            decreases self.metadata.len() - j,
        {
            metadata.push((self.metadata[j].0.clone(), self.metadata[j].1.clone()));
            j = j + 1;
        }
        let g = Game { board: self.board.clone(), turn: self.turn, moves, metadata };
        assert(g.notes() =~= self.notes());
        g
    }
}

impl Game {
    /// The piece on each occupied square of the board.
    pub closed spec fn pieces(&self) -> Map<Position, Piece> {
        self.board@
    }

    /// The status of the move that the board judged last.
    pub closed spec fn status(&self) -> BoardStatus {
        self.board.last_status()
    }

    /// The side to move.
    pub closed spec fn side(&self) -> Color {
        self.turn
    }

    /// The moves made so far, the first one first.
    pub closed spec fn history(&self) -> Seq<Move> {
        self.moves@
    }

    /// The notes about the game, each a key and a value, in the order in
    /// which their keys were first noted.
    pub closed spec fn notes(&self) -> Seq<(Seq<char>, Seq<char>)> {
        Seq::new(self.metadata@.len(), |i: int| (self.metadata@[i].0@, self.metadata@[i].1@))
    }

    /// The board.
    pub fn board(&self) -> (b: &Chessboard2)
        ensures
            b@ == self.pieces(),
            b.last_status() == self.status(),
    {
        &self.board
    }

    /// The side to move.
    pub fn turn(&self) -> (c: Color)
        ensures
            c == self.side(),
    {
        self.turn
    }

    /// The moves made so far, the first one first.
    pub fn moves(&self) -> (m: &VecDeque<Move>)
        ensures
            m@ == self.history(),
    {
        &self.moves
    }

    /// The notes about the game.
    pub fn metadata(&self) -> (m: &Vec<(String, String)>)
        ensures
            m@.len() == self.notes().len(),
            forall|i: int|
                0 <= i < m@.len() ==> ((#[trigger] m@[i]).0@, m@[i].1@) == self.notes()[i],
    {
        &self.metadata
    }

    /// A game at its start: the starting position, White to move, no move
    /// made, and one note, under `created_at`, of the time of the call.
    pub fn new() -> (g: Game)
        ensures
            g.pieces() == starting_position(),
            g.status() == BoardStatus::Ordinary,
            g.side() == Color::White,
            g.history() == Seq::<Move>::empty(),
            g.notes().len() == 1,
            g.notes()[0].0 == "created_at"@,
            keys_differ(g.notes()),
    {
        let mut r = Game {
            board: Chessboard2::new(),
            turn: Color::White,
            moves: VecDeque::with_capacity(90),
            metadata: Vec::new(),
        };
        r.board.reset();
        assert(r.notes() =~= Seq::empty());
        r.insert_metadata(String::from_str("created_at"), local_time_text());
        r
    }

    /// Back to the start of a game: the starting position, White to move,
    /// no move made, and one note, under `created_at`, of the time of the call.
    pub fn reset(&mut self)
        ensures
            final(self).pieces() == starting_position(),
            final(self).status() == BoardStatus::Ordinary,
            final(self).side() == Color::White,
            final(self).history() == Seq::<Move>::empty(),
            final(self).notes().len() == 1,
            final(self).notes()[0].0 == "created_at"@,
            keys_differ(final(self).notes()),
    {
        self.board.reset();
        self.metadata = Vec::new();
        self.turn = Color::White;
        self.moves.clear();
        assert(self.notes() =~= Seq::empty());
        self.insert_metadata(String::from_str("created_at"), local_time_text());
    }

    /// Notes a value under a key, in place of the value noted under it before.
    pub fn insert_metadata(&mut self, key: String, value: String)
        ensures
            final(self).notes() == noted(old(self).notes(), key@, value@),
            keys_differ(old(self).notes()) ==> keys_differ(final(self).notes()),
            final(self).pieces() == old(self).pieces(),
            final(self).status() == old(self).status(),
            final(self).side() == old(self).side(),
            final(self).history() == old(self).history(),
    {
        let ghost before = self.notes();
        let mut i: usize = 0;
        while i < self.metadata.len()
            invariant
                i <= self.metadata.len(),
                self.notes() == before,
                before == old(self).notes(),
                self.board == old(self).board,
                self.turn == old(self).turn,
                self.moves == old(self).moves,
                forall|j: int| 0 <= j < i ==> (#[trigger] before[j]).0 != key@,
            decreases self.metadata.len() - i,
        {
            if self.metadata[i].0 == key {
                proof {
                    assert(first_under(before, key@, i as int));
                    let at = choose|at: int| first_under(before, key@, at);
                    assert(at == i);
                }
                self.metadata.set(i, (key, value));
                assert(self.notes() =~= noted(before, key@, value@));
                return ;
            }
            i = i + 1;
        }
        self.metadata.push((key, value));
        assert(self.notes() =~= noted(before, key@, value@));
    }

    /// Puts a new piece of the given kind, of the color of the side to move,
    /// in place of the piece on `pos`, and passes the turn to the other side.
    pub fn promote(&mut self, pos: &Position, kind: Kind)
        ensures
            old(self).pieces().contains_key(*pos) ==> final(self).pieces() == old(self).pieces().insert(
                *pos,
                Piece::fresh(kind, old(self).side()),
            ),
            !old(self).pieces().contains_key(*pos) ==> final(self).pieces() == old(self).pieces(),
            final(self).side() == old(self).side().other(),
            final(self).status() == old(self).status(),
            final(self).history() == old(self).history(),
            final(self).notes() == old(self).notes(),
    {
        self.board.promote(pos, kind, self.turn);
        self.turn = self.turn.switch();
    }

    /// How many moves have been made.
    pub fn number_of_moves(self) -> (n: usize)
        ensures
            n == self.history().len(),
    {
        self.moves.len()
    }

    /// Makes a move on the board and records it: the counter of the piece
    /// is raised, on the board and in the record alike.
    pub fn add_move(&mut self, m: Move)
        requires
            m.piece.number_of_moves < i8::MAX,
        ensures
            final(self).pieces() == m.applied_to(old(self).pieces()),
            final(self).history() == old(self).history().push(m.recorded()),
            final(self).side() == old(self).side(),
            final(self).status() == old(self).status(),
            final(self).notes() == old(self).notes(),
    {
        let mut m = m;
        self.board.remove(m.from);
        self.board.remove(m.to);
        if m.en_passant {
            self.board.remove(m.capture_square());
        }
        let ghost given = m;
        m.piece.number_of_moves += 1;
        self.board.set_(m.to, Box::new(m.piece));
        m.is_from_orignal_pos = m.piece.number_of_moves == 1;
        self.moves.push_back(m);
        assert(m == given.recorded());
        assert(self.board@ =~= given.applied_to(old(self).board@));
    }

    /// Takes the last move back: off the record and off the board. The
    /// mover goes back to its origin as the record holds it, so its counter
    /// is not lowered. Without a move on record it does nothing.
    pub fn rollback_move(&mut self)
        ensures
            old(self).history().len() == 0 ==> final(self).pieces() == old(self).pieces(),
            old(self).history().len() == 0 ==> final(self).history() == old(self).history(),
            old(self).history().len() > 0 ==> final(self).pieces() == old(self).history().last().undone_on(old(self).pieces()),
            old(self).history().len() > 0 ==> final(self).history() == old(self).history().drop_last(),
            final(self).side() == old(self).side(),
            final(self).status() == old(self).status(),
            final(self).notes() == old(self).notes(),
    {
        match self.moves.pop_back() {
            Some(mm) => {
                self.board.remove(mm.to);
                self.board.set_(mm.from, Box::new(mm.piece));
                match mm.capture {
                    Some(c) => {
                        self.board.set_(mm.capture_square(), Box::new(c));
                    },
                    None => {},
                }
                assert(self.history() =~= old(self).history().drop_last());
            },
            None => {},
        }
    }

    /// How many moves on record were made by a piece of the kind and color
    /// of `piece`.
    pub fn count_moves(&self, piece: &Piece) -> (n: usize)
        ensures
            n == self.history().filter(|m: Move| same_piece(m.piece, *piece)).len(),
    {
        let ghost pred = |m: Move| same_piece(m.piece, *piece);
        let mut n: usize = 0;
        let mut i: usize = 0;
        assert(self.moves@.take(0) =~= Seq::<Move>::empty());
        while i < self.moves.len()
            invariant
                i <= self.moves.len(),
                n <= i,
                pred == (|m: Move| same_piece(m.piece, *piece)),
                n == self.moves@.take(i as int).filter(pred).len(),
            decreases self.moves.len() - i,
        {
            let m = self.moves[i];
            proof {
                assert(self.moves@.take(i + 1) =~= self.moves@.take(i as int).push(m));
                self.moves@.take(i as int).lemma_filter_push(m, pred);
            }
            if m.piece.kind == piece.kind && m.piece.color == piece.color {
                n = n + 1;
            }
            i = i + 1;
        }
        assert(self.moves@.take(i as int) =~= self.moves@);
        n
    }

    /// The first move on record that a piece of the kind and color of
    /// `piece` made, from `from` where one is given, and to `to` where one
    /// is given.
    pub fn find_move(&self, piece: &Piece, from: Option<&Position>, to: Option<&Position>) -> (r:
        Option<Move>)
        ensures
            r matches Some(m) ==> exists|at: int|
                first_match(self.history(), *piece, owned_square(from), owned_square(to), at)
                    && self.history()[at] == m,
            r is None ==> forall|i: int|
                0 <= i < self.history().len() ==> !move_matches(
                    #[trigger] self.history()[i],
                    *piece,
                    owned_square(from),
                    owned_square(to),
                ),
    {
        let mut i: usize = 0;
        while i < self.moves.len()
            invariant
                i <= self.moves.len(),
                forall|j: int|
                    0 <= j < i ==> !move_matches(
                        #[trigger] self.moves@[j],
                        *piece,
                        owned_square(from),
                        owned_square(to),
                    ),
            decreases self.moves.len() - i,
        {
            let m = self.moves[i];
            if m.piece.kind == piece.kind && m.piece.color == piece.color {
                let from_fits = match from {
                    Some(f) => m.from == *f,
                    None => true,
                };
                let to_fits = match to {
                    Some(t) => m.to == *t,
                    None => true,
                };
                if from_fits && to_fits {
                    proof {
                        assert(first_match(
                            self.history(),
                            *piece,
                            owned_square(from),
                            owned_square(to),
                            i as int,
                        ));
                    }
                    return Some(m);
                }
            }
            i = i + 1;
        }
        None
    }

    /// Whether the given side may castle, as far as this engine looks into it.
    pub fn can_castle(&self, color: Color) -> (b: bool)
        ensures
            b == may_castle(self.pieces(), self.history(), color),
    {
        let home = match color {
            Color::White => File::First,
            Color::Black => File::Eighth,
            Color::Unknown => {
                return false;
            },
        };
        if self.board.is_checked(color) {
            return false;
        }
        let a_rook_pos = Position::new_(Rank::A, home);
        let h_rook_pos = Position::new_(Rank::H, home);
        let king_pos = Position::new_(Rank::E, home);
        let king = Piece::new(Kind::King, color);
        let rook = Piece::new(Kind::Rook, color);
        let king_left = self.find_move(&king, Some(&king_pos), None).is_some();
        let a_rook_left = self.find_move(&rook, Some(&a_rook_pos), None).is_some();
        let h_rook_left = self.find_move(&rook, Some(&h_rook_pos), None).is_some();
        assert((king_left || a_rook_left || h_rook_left) == has_left_home(self.history(), color));
        if king_left || a_rook_left || h_rook_left {
            return false;
        }
        let mut c = king_pos.shortest_path(a_rook_pos);
        let mut towards_h = king_pos.shortest_path(h_rook_pos);
        c.append(&mut towards_h);
        assert(c@ == castling_path(color));
        let mut any_field_safe = false;
        let mut is_blocking = false;
        let mut i: usize = 0;
        while i < c.len()
            invariant
                i <= c.len(),
                c@ == castling_path(color),
                is_blocking == exists|j: int| 0 <= j < i && self.board@.contains_key(#[trigger] c@[j]),
                any_field_safe == exists|j: int|
                    0 <= j < i && !threatened(self.board@, color, #[trigger] c@[j]),
            decreases c.len() - i,
        {
            let field = c[i];
            if !self.board.is_field_threatened(color, &field) {
                any_field_safe = true;
            }
            if self.board.get_with_pos(&field).is_some() {
                is_blocking = true;
            }
            i = i + 1;
        }
        any_field_safe && !is_blocking
    }

    /// Makes the move that a token such as `e2e4` names, for the side to
    /// move. A move that the board turns down changes nothing and is answered
    /// with the board's reason. A move that would leave the mover's own king
    /// attacked is taken back at once and answered like an ordinary move,
    /// but the turn stays. After any other move the turn passes to the other
    /// side, unless a pawn waits to be promoted: then the answer is
    /// `Promote`, and the turn passes when `promote` is called.
    pub fn move_(&mut self, pgn: &str) -> (r: Result<BoardStatus, Error>)
        ensures
            final(self).notes() == old(self).notes(),
            decoded(pgn@) matches Err(e) ==> r == Err::<BoardStatus, Error>(e),
            decoded(pgn@) is Err ==> final(self).pieces() == old(self).pieces(),
            decoded(pgn@) is Err ==> final(self).history() == old(self).history(),
            decoded(pgn@) is Err ==> final(self).side() == old(self).side(),
            decoded(pgn@) is Err ==> final(self).status() == old(self).status(),
            decoded(pgn@) matches Ok((k, from, to)) ==> (
                final(self).pieces(),
                final(self).history(),
                final(self).side(),
                r,
            ) == outcome(old(self).pieces(), old(self).history(), old(self).side(), from, to),
            decoded(pgn@) matches Ok((k, from, to)) ==> final(self).status() == status_after(
                old(self).status(),
                judge(old(self).pieces(), last_move(old(self).history()), from, to, old(self).side()),
            ),
    {
        let can_castle = self.can_castle(self.turn);
        let result = if self.moves.len() > 0 {
            let last = self.moves[self.moves.len() - 1];
            self.board.move_(Some(&last), pgn, self.turn, can_castle)
        } else {
            self.board.move_(None, pgn, self.turn, can_castle)
        };
        match result {
            Ok((m, status)) => {
                proof {
                    let (k, from, to) = decoded(pgn@)->Ok_0;
                    law_rollback_restores(
                        self.board@,
                        last_move(self.moves@),
                        from,
                        to,
                        self.turn,
                    );
                }
                self.add_move(m);
                let is_checked = self.board.is_checked(self.turn);
                if !is_checked {
                    match status {
                        BoardStatus::Promote => {
                            return Ok(status);
                        },
                        _ => {},
                    }
                    self.turn = self.turn.switch();
                } else {
                    self.rollback_move();
                    assert(self.moves@ =~= old(self).moves@);
                }
                Ok(BoardStatus::Ordinary)
            },
            Err(e) => Err(e),
        }
    }

    /// The notes as a record of a game writes them: each as `[key: value]`.
    pub fn metadata_pgn(&self) -> (s: String)
        ensures
            s@ == notes_text(self.notes()),
    {
        proof {
            reveal_strlit("[");
            reveal_strlit(": ");
            reveal_strlit("]");
        }
        let mut s = String::new();
        let mut i: usize = 0;
        assert(self.notes().take(0) =~= Seq::empty());
        while i < self.metadata.len()
            invariant
                i <= self.metadata.len(),
                "["@ == seq!['['],
                ": "@ == seq![':', ' '],
                "]"@ == seq![']'],
                s@ == notes_text(self.notes().take(i as int)),
            decreases self.metadata.len() - i,
        {
            let ghost before = s@;
            s.append("[");
            s.append(self.metadata[i].0.as_str());
            s.append(": ");
            s.append(self.metadata[i].1.as_str());
            s.append("]");
            proof {
                let now = self.notes().take(i + 1);
                assert(now.drop_last() =~= self.notes().take(i as int));
                assert(now.last() == self.notes()[i as int]);
                assert(s@ =~= notes_text(now));
            }
            i = i + 1;
        }
        assert(self.notes().take(i as int) =~= self.notes());
        s
    }

    /// The moves made so far as a record of a game writes them: pair by
    /// pair, each pair with its number.
    pub fn save(&self) -> (s: String)
        ensures
            s@ == record_text(self.history(), (self.history().len() as int + 1) / 2),
    {
        proof {
            reveal_strlit(". ");
            reveal_strlit(" ");
        }
        let mut s = String::new();
        let n = self.moves.len();
        let pairs = n / 2 + n % 2;
        let mut counter: usize = 1;
        while counter <= pairs
            invariant
                1 <= counter <= pairs + 1,
                n == self.moves@.len(),
                pairs == (n as int + 1) / 2,
                ". "@ == seq!['.', ' '],
                " "@ == seq![' '],
                s@ == record_text(self.moves@, counter - 1),
            decreases pairs + 1 - counter,
        {
            let ghost before = s@;
            let i = 2 * (counter - 1);
            append_decimal(&mut s, counter);
            s.append(". ");
            s.append(self.moves[i].pgn().as_str());
            if i + 1 < n {
                s.append(self.moves[i + 1].pgn().as_str());
            }
            s.append(" ");
            proof {
                assert(s@ =~= before + pair_text(self.moves@, counter - 1));
            }
            counter = counter + 1;
        }
        s
    }
}

/// A move that the board has judged legal can be taken back: taking it
/// back after making it puts every piece on the square where it stood, the
/// mover on its origin and the piece taken, if any, on its square. Only the
/// counter of the mover is not as it was: it stays raised.
pub proof fn law_rollback_restores(
    b: Map<Position, Piece>,
    prev: Option<Move>,
    from: Position,
    to: Position,
    color: Color,
)
    requires
        judge(b, prev, from, to, color) is Ok,
    ensures
        judge(b, prev, from, to, color)->Ok_0.0.recorded().undone_on(
            judge(b, prev, from, to, color)->Ok_0.0.applied_to(b),
        ) == b.insert(from, b[from].moved()),
{
    let m = judge(b, prev, from, to, color)->Ok_0.0;
    lemma_square_here(from);
    lemma_square_here(to);
    if m.en_passant {
        let pm = prev->Some_0;
        lemma_square_here(pm.to);
        lemma_square_here(m.taken_at());
        assert(m.taken_at() == pm.to);
    }
    assert(m.recorded().undone_on(m.applied_to(b)) =~= b.insert(from, b[from].moved()));
}

/// A game answers a move with `Promote` exactly when the move is legal,
/// does not leave the mover's own king attacked and brings a pawn to the
/// far edge; the move is then made and recorded, but the turn does not pass.
pub proof fn law_promotion_keeps_turn(
    b: Map<Position, Piece>,
    history: Seq<Move>,
    side: Color,
    from: Position,
    to: Position,
)
    ensures
        outcome(b, history, side, from, to).3 == Ok::<BoardStatus, Error>(BoardStatus::Promote)
            <==> judge(b, last_move(history), from, to, side) is Ok && b[from].kind == Kind::Pawn
            && far_edge(side, to) && !in_check(
            judge(b, last_move(history), from, to, side)->Ok_0.0.applied_to(b),
            side,
        ),
        outcome(b, history, side, from, to).3 == Ok::<BoardStatus, Error>(BoardStatus::Promote)
            ==> outcome(b, history, side, from, to).2 == side,
        outcome(b, history, side, from, to).3 == Ok::<BoardStatus, Error>(BoardStatus::Promote)
            ==> outcome(b, history, side, from, to).1 == history.push(
            judge(b, last_move(history), from, to, side)->Ok_0.0.recorded(),
        ),
{
}

/// A move that would leave the mover's own king attacked moves nothing:
/// the game keeps the history and the side to move, and every square holds
/// what it held; only the counter of the piece on the origin is raised.
pub proof fn law_self_check_moves_nothing(
    b: Map<Position, Piece>,
    history: Seq<Move>,
    side: Color,
    from: Position,
    to: Position,
)
    requires
        judge(b, last_move(history), from, to, side) is Ok,
        in_check(judge(b, last_move(history), from, to, side)->Ok_0.0.applied_to(b), side),
    ensures
        outcome(b, history, side, from, to).0.dom() == b.dom(),
        outcome(b, history, side, from, to).0[from] == b[from].moved(),
        forall|p: Position|
            p != from && b.contains_key(p) ==> #[trigger] outcome(b, history, side, from, to).0[p]
                == b[p],
        outcome(b, history, side, from, to).1 == history,
        outcome(b, history, side, from, to).2 == side,
{
    assert(outcome(b, history, side, from, to).0.dom() =~= b.dom());
}

/// Making a move keeps one piece to a square and doubles none: the origin
/// is left empty, the mover stands on the destination with its counter
/// raised, every other square holds what it held, and one square fewer is
/// occupied where the destination held a piece, as many as before where it
/// held none.
pub proof fn law_move_keeps_one_piece_per_square(b: Map<Position, Piece>, m: Move)
    requires
        b.contains_pair(m.from, m.piece),
        m.from != m.to,
        !m.en_passant,
    ensures
        !m.applied_to(b).contains_key(m.from),
        m.applied_to(b).contains_pair(m.to, m.piece.moved()),
        forall|p: Position|
            p != m.from && p != m.to ==> (#[trigger] m.applied_to(b).contains_key(p))
                == b.contains_key(p),
        forall|p: Position|
            p != m.from && p != m.to && b.contains_key(p) ==> #[trigger] m.applied_to(b)[p]
                == b[p],
        b.contains_key(m.to) ==> m.applied_to(b).dom().len() == b.dom().len() - 1,
        !b.contains_key(m.to) ==> m.applied_to(b).dom().len() == b.dom().len(),
{
    lemma_squares_finite(b.dom());
    lemma_squares_finite(b.dom().remove(m.from));
    assert(m.applied_to(b).dom() =~= b.dom().remove(m.from).insert(m.to));
}

/// Taking a move back right after making it leaves the mover on its origin
/// with its counter raised, the piece taken, if any, on the square where it
/// was taken, that square empty where none was taken, and every other
/// square as it was before the move.
pub proof fn law_rollback_after_move(b: Map<Position, Piece>, m: Move)
    requires
        m.from != m.to,
        m.taken_at() != m.from,
    ensures
        m.recorded().undone_on(m.applied_to(b)).contains_pair(m.from, m.piece.moved()),
        m.capture matches Some(c) ==> m.recorded().undone_on(m.applied_to(b)).contains_pair(
            m.taken_at(),
            c,
        ),
        m.capture is None ==> !m.recorded().undone_on(m.applied_to(b)).contains_key(m.taken_at()),
        m.taken_at() != m.to ==> !m.recorded().undone_on(m.applied_to(b)).contains_key(m.to),
        forall|p: Position|
            p != m.from && p != m.to && p != m.taken_at() ==> (#[trigger] m.recorded().undone_on(
                m.applied_to(b),
            ).contains_key(p)) == b.contains_key(p),
        forall|p: Position|
            p != m.from && p != m.to && p != m.taken_at() && b.contains_key(p)
                ==> #[trigger] m.recorded().undone_on(m.applied_to(b))[p] == b[p],
{
}

} // verus!
