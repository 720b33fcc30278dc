use rustychess_core::Color;
use rustychess_core::Error;
use rustychess_core::File;
use rustychess_core::Kind;
use rustychess_core::Piece;
use rustychess_core::PieceMovements;
use rustychess_core::Position;
use rustychess_core::Rank;
use std::str::FromStr;

fn sq(rank: Rank, file: File) -> Position {
    Position::new_(rank, file)
}

fn moves_of(kind: Kind, color: Color, from: Position) -> Vec<Position> {
    let mut piece = *Piece::new(kind, color);
    piece.possible_moves(from)
}

fn is_knight_jump(from: Position, to: Position) -> bool {
    let dr = from.rank.sub(to.rank);
    let df = from.file.sub(to.file);
    (dr == 1 && df == 2) || (dr == 2 && df == 1)
}

#[test]
fn color_switch_alternates() {
    assert_eq!(Color::White.switch(), Color::Black);
    assert_eq!(Color::Black.switch(), Color::White);
    assert_eq!(Color::Unknown.switch(), Color::White);
}

#[test]
fn kind_letters() {
    assert_eq!(Kind::Pawn.pgn(), "P");
    assert_eq!(Kind::Bishop.pgn(), "B");
    assert_eq!(Kind::Knight.pgn(), "N");
    assert_eq!(Kind::Rook.pgn(), "R");
    assert_eq!(Kind::Queen.pgn(), "Q");
    assert_eq!(Kind::King.pgn(), "K");
}

#[test]
fn kind_symbols() {
    assert_eq!(Kind::Pawn.symbol(Color::White), "♙");
    assert_eq!(Kind::Pawn.symbol(Color::Black), "♟︎");
    assert_eq!(Kind::Bishop.symbol(Color::White), "♗");
    assert_eq!(Kind::Bishop.symbol(Color::Black), "♝");
    assert_eq!(Kind::Knight.symbol(Color::White), "♘");
    assert_eq!(Kind::Knight.symbol(Color::Black), "♞");
    assert_eq!(Kind::Rook.symbol(Color::White), "♖");
    assert_eq!(Kind::Rook.symbol(Color::Black), "♜");
    assert_eq!(Kind::Queen.symbol(Color::White), "♕");
    assert_eq!(Kind::Queen.symbol(Color::Black), "♛");
    assert_eq!(Kind::King.symbol(Color::White), "♔");
    assert_eq!(Kind::King.symbol(Color::Black), "♚");
    assert_eq!(Kind::King.symbol(Color::Unknown), "♚");
}

#[test]
fn new_piece_has_not_moved() {
    let p = Piece::new(Kind::Rook, Color::Black);
    assert_eq!(*p, Piece { kind: Kind::Rook, color: Color::Black, number_of_moves: 0 });
}

#[test]
fn piece_parse_reads_the_letter() {
    assert_eq!(Piece::parse("Q").map(|p| p.kind), Ok(Kind::Queen));
    assert_eq!(Piece::from_str("Nf3").map(|p| p.kind), Ok(Kind::Knight));
    assert_eq!(Piece::parse("K").map(|p| p.color), Ok(Color::Unknown));
    assert_eq!(Kind::from_char('R'), Some(Kind::Rook));
    assert_eq!(Kind::from_char('r'), None);
}

#[test]
fn piece_parse_rejects_other_texts() {
    assert_eq!(Piece::parse(""), Err(Error::InvalidPiece));
    assert_eq!(Piece::parse("X"), Err(Error::InvalidPiece));
    assert_eq!(Piece::from_str("p"), Err(Error::InvalidPiece));
}

#[test]
fn piece_position_and_capture_are_fixed() {
    let mut p = *Piece::new(Kind::Queen, Color::White);
    assert_eq!(p.position(), 0);
    assert!(!p.capture());
    assert_eq!(p, *Piece::new(Kind::Queen, Color::White));
}

#[test]
fn pawn_on_its_starting_file_has_two_steps() {
    assert_eq!(
        moves_of(Kind::Pawn, Color::White, sq(Rank::E, File::Second)),
        vec![sq(Rank::E, File::Fourth), sq(Rank::E, File::Third)]
    );
    assert_eq!(
        moves_of(Kind::Pawn, Color::Black, sq(Rank::C, File::Seventh)),
        vec![sq(Rank::C, File::Fifth), sq(Rank::C, File::Sixth)]
    );
}

#[test]
fn pawn_elsewhere_has_one_step() {
    assert_eq!(
        moves_of(Kind::Pawn, Color::White, sq(Rank::E, File::Third)),
        vec![sq(Rank::E, File::Fourth)]
    );
    assert_eq!(
        moves_of(Kind::Pawn, Color::White, sq(Rank::A, File::Seventh)),
        vec![sq(Rank::A, File::Eighth)]
    );
    assert_eq!(
        moves_of(Kind::Pawn, Color::Black, sq(Rank::H, File::Second)),
        vec![sq(Rank::H, File::First)]
    );
    for rank in rustychess_core::ALL_RANKS {
        for file in [File::Third, File::Fourth, File::Fifth, File::Sixth] {
            assert_eq!(moves_of(Kind::Pawn, Color::White, sq(rank, file)).len(), 1);
            assert_eq!(moves_of(Kind::Pawn, Color::Black, sq(rank, file)).len(), 1);
        }
    }
}

#[test]
fn pawn_at_the_far_edge_or_of_unknown_color_has_no_step() {
    assert_eq!(moves_of(Kind::Pawn, Color::White, sq(Rank::E, File::Eighth)), vec![]);
    assert_eq!(moves_of(Kind::Pawn, Color::Black, sq(Rank::E, File::First)), vec![]);
    assert_eq!(moves_of(Kind::Pawn, Color::Unknown, sq(Rank::E, File::Second)), vec![]);
}

#[test]
fn possible_moves_leaves_the_piece_as_it_was() {
    let mut piece = Piece { kind: Kind::Knight, color: Color::Black, number_of_moves: 7 };
    let _ = piece.possible_moves(sq(Rank::D, File::Fourth));
    assert_eq!(piece, Piece { kind: Kind::Knight, color: Color::Black, number_of_moves: 7 });
}

#[test]
fn knight_jumps_from_the_middle() {
    let d4 = sq(Rank::D, File::Fourth);
    let jumps = moves_of(Kind::Knight, Color::White, d4);
    assert_eq!(jumps.len(), 8);
    for target in [
        sq(Rank::B, File::Third),
        sq(Rank::B, File::Fifth),
        sq(Rank::C, File::Second),
        sq(Rank::C, File::Sixth),
        sq(Rank::E, File::Second),
        sq(Rank::E, File::Sixth),
        sq(Rank::F, File::Third),
        sq(Rank::F, File::Fifth),
    ] {
        assert!(jumps.contains(&target));
    }
}

#[test]
fn knight_jumps_from_corner_and_edge() {
    let a1 = sq(Rank::A, File::First);
    let jumps = moves_of(Kind::Knight, Color::Black, a1);
    assert_eq!(jumps.len(), 2);
    assert!(jumps.contains(&sq(Rank::B, File::Third)));
    assert!(jumps.contains(&sq(Rank::C, File::Second)));
    let h4 = sq(Rank::H, File::Fourth);
    let jumps = moves_of(Kind::Knight, Color::Black, h4);
    assert_eq!(jumps.len(), 4);
    let b1 = sq(Rank::B, File::First);
    assert_eq!(moves_of(Kind::Knight, Color::White, b1).len(), 3);
}

#[test]
fn knight_jumps_are_the_l_shaped_targets_from_every_square() {
    for rank in rustychess_core::ALL_RANKS {
        for file in rustychess_core::ALL_FILES {
            let from = sq(rank, file);
            let jumps = moves_of(Kind::Knight, Color::White, from);
            let mut expected = 0;
            for r in rustychess_core::ALL_RANKS {
                for f in rustychess_core::ALL_FILES {
                    let to = sq(r, f);
                    assert_eq!(jumps.contains(&to), is_knight_jump(from, to));
                    if is_knight_jump(from, to) {
                        expected += 1;
                    }
                }
            }
            assert_eq!(jumps.len(), expected);
            assert!(jumps.len() <= 8);
        }
    }
}

#[test]
fn bishop_moves_along_the_diagonals() {
    let a1 = sq(Rank::A, File::First);
    assert_eq!(
        moves_of(Kind::Bishop, Color::White, a1),
        vec![
            sq(Rank::B, File::Second),
            sq(Rank::C, File::Third),
            sq(Rank::D, File::Fourth),
            sq(Rank::E, File::Fifth),
            sq(Rank::F, File::Sixth),
            sq(Rank::G, File::Seventh),
            sq(Rank::H, File::Eighth),
        ]
    );
    assert_eq!(moves_of(Kind::Bishop, Color::White, sq(Rank::D, File::Fourth)).len(), 13);
}

#[test]
fn rook_moves_along_file_and_rank() {
    let a1 = sq(Rank::A, File::First);
    assert_eq!(
        moves_of(Kind::Rook, Color::White, a1),
        vec![
            sq(Rank::B, File::First),
            sq(Rank::C, File::First),
            sq(Rank::D, File::First),
            sq(Rank::E, File::First),
            sq(Rank::F, File::First),
            sq(Rank::G, File::First),
            sq(Rank::H, File::First),
            sq(Rank::A, File::Second),
            sq(Rank::A, File::Third),
            sq(Rank::A, File::Fourth),
            sq(Rank::A, File::Fifth),
            sq(Rank::A, File::Sixth),
            sq(Rank::A, File::Seventh),
            sq(Rank::A, File::Eighth),
        ]
    );
    let d4 = sq(Rank::D, File::Fourth);
    let lines = moves_of(Kind::Rook, Color::Black, d4);
    assert_eq!(lines.len(), 14);
    assert!(!lines.contains(&d4));
    assert_eq!(lines[3], sq(Rank::E, File::Fourth));
    assert_eq!(lines[10], sq(Rank::D, File::Fifth));
}

#[test]
fn queen_moves_like_bishop_then_rook() {
    let d4 = sq(Rank::D, File::Fourth);
    let mut expected = moves_of(Kind::Bishop, Color::White, d4);
    expected.extend(moves_of(Kind::Rook, Color::White, d4));
    assert_eq!(moves_of(Kind::Queen, Color::White, d4), expected);
    assert_eq!(expected.len(), 27);
}

#[test]
fn king_moves_one_step() {
    assert_eq!(
        moves_of(Kind::King, Color::White, sq(Rank::A, File::First)),
        vec![sq(Rank::B, File::Second), sq(Rank::A, File::Second), sq(Rank::B, File::First)]
    );
    assert_eq!(moves_of(Kind::King, Color::White, sq(Rank::E, File::Fourth)).len(), 8);
    assert_eq!(moves_of(Kind::King, Color::White, sq(Rank::E, File::First)).len(), 5);
}
