use rustychess_core::pgn::Move;
use rustychess_core::Error;
use rustychess_core::File;
use rustychess_core::Kind;
use rustychess_core::NotationCause;
use rustychess_core::Rank;
use rustychess_core::PGN;
use std::str::FromStr;

#[test]
fn it_works() {
    assert_eq!(2 + 2, 4);
}

#[test]
fn test_parse_pawn() {
    let _move: Vec<Move> = PGN::parse("e2e4").unwrap();

    assert_eq!(_move.len(), 2);

    let from_move = &_move[0];
    assert_eq!(from_move.piece.kind, Kind::Pawn);
    assert_eq!(from_move.position.rank, Rank::from_str("e").unwrap());
    assert_eq!(from_move.position.file, File::from_str("2").unwrap());

    let to_move = &_move[1];
    assert_eq!(to_move.piece.kind, Kind::Pawn);
    assert_eq!(to_move.position.rank, Rank::from_str("e").unwrap());
    assert_eq!(to_move.position.file, File::from_str("4").unwrap());
}

#[test]
fn test_parse_queen() {
    let _move: Vec<Move> = PGN::parse("Qe2e4").unwrap();

    assert_eq!(_move.len(), 2);

    let from_move = &_move[0];
    assert_eq!(from_move.piece.kind, Kind::Queen);
    assert_eq!(from_move.position.rank, Rank::from_str("e").unwrap());
    assert_eq!(from_move.position.file, File::from_str("2").unwrap());

    let to_move = &_move[1];
    assert_eq!(to_move.piece.kind, Kind::Queen);
    assert_eq!(to_move.position.rank, Rank::from_str("e").unwrap());
    assert_eq!(to_move.position.file, File::from_str("4").unwrap());
}

#[test]
fn test_parse_all_pieces() {
    let pgns = ["e2e4", "Pe2e4", "Be2e4", "Ne2e4", "Re2e4", "Qe2e4", "Ke2e4"];
    let pieces = [
        Kind::Pawn,
        Kind::Pawn,
        Kind::Bishop,
        Kind::Knight,
        Kind::Rook,
        Kind::Queen,
        Kind::King,
    ];

    for (i, p) in pgns.iter().enumerate() {
        let _move: Vec<Move> = PGN::parse(p).unwrap();

        assert_eq!(_move.len(), 2);

        let from_move = &_move[0];
        assert_eq!(from_move.piece.kind, pieces[i]);
        assert_eq!(from_move.position.rank, Rank::from_str("e").unwrap());
        assert_eq!(from_move.position.file, File::from_str("2").unwrap());

        let to_move = &_move[1];
        assert_eq!(to_move.piece.kind, pieces[i]);
        assert_eq!(to_move.position.rank, Rank::from_str("e").unwrap());
        assert_eq!(to_move.position.file, File::from_str("4").unwrap());
    }
}

#[test]
fn parse_reads_both_cases_of_the_rank_letter() {
    let ends = PGN::parse("QH4e1").unwrap();
    assert_eq!(ends[0].position.rank, Rank::H);
    assert_eq!(ends[0].position.file, File::Fourth);
    assert_eq!(ends[1].position.rank, Rank::E);
    assert_eq!(ends[1].position.file, File::First);
}

#[test]
fn parse_names_a_piece_of_unknown_color_that_has_not_moved() {
    let ends = PGN::parse("Nb1c3").unwrap();
    assert_eq!(ends[0].piece.color, rustychess_core::Color::Unknown);
    assert_eq!(ends[0].piece.number_of_moves, 0);
    assert_eq!(ends[1].piece.kind, Kind::Knight);
}

#[test]
fn parse_rejects_a_token_of_the_wrong_length() {
    assert_eq!(PGN::parse("").err(), Some(Error::InvalidNotation(NotationCause::Length)));
    assert_eq!(PGN::parse("e2").err(), Some(Error::InvalidNotation(NotationCause::Length)));
    assert_eq!(PGN::parse("e2e").err(), Some(Error::InvalidNotation(NotationCause::Length)));
    assert_eq!(PGN::parse("Qe2e4x").err(), Some(Error::InvalidNotation(NotationCause::Length)));
}

#[test]
fn parse_rejects_an_unknown_piece_letter() {
    assert_eq!(PGN::parse("Xe2e4").err(), Some(Error::InvalidNotation(NotationCause::Piece)));
    assert_eq!(PGN::parse("qe2e4").err(), Some(Error::InvalidNotation(NotationCause::Piece)));
}

#[test]
fn parse_rejects_a_rank_letter_out_of_range() {
    assert_eq!(PGN::parse("i2e4").err(), Some(Error::InvalidNotation(NotationCause::Rank)));
    assert_eq!(PGN::parse("e2z4").err(), Some(Error::InvalidNotation(NotationCause::Rank)));
}

#[test]
fn parse_rejects_a_file_digit_out_of_range() {
    assert_eq!(PGN::parse("e9e4").err(), Some(Error::InvalidNotation(NotationCause::File)));
    assert_eq!(PGN::parse("e2e0").err(), Some(Error::InvalidNotation(NotationCause::File)));
}

#[test]
fn parse_reports_the_file_before_the_rank_and_the_origin_before_the_destination() {
    assert_eq!(PGN::parse("z9e4").err(), Some(Error::InvalidNotation(NotationCause::File)));
    assert_eq!(PGN::parse("z2e9").err(), Some(Error::InvalidNotation(NotationCause::Rank)));
    assert_eq!(PGN::parse("Xz9e4").err(), Some(Error::InvalidNotation(NotationCause::Piece)));
}
