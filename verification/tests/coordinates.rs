use rustychess_core::Error;
use rustychess_core::File;
use rustychess_core::Position;
use rustychess_core::Rank;
use rustychess_core::ALL_FILES;
use rustychess_core::ALL_RANKS;
use rustychess_core::NUM_FILES;
use rustychess_core::NUM_RANKS;
use std::str::FromStr;

fn sq(rank: Rank, file: File) -> Position {
    Position::new_(rank, file)
}

#[test]
fn rank_index_round_trip() {
    assert_eq!(NUM_RANKS, 8);
    for (i, r) in ALL_RANKS.iter().enumerate() {
        assert_eq!(r.to_index(), i);
        assert_eq!(Rank::from_index(i), *r);
    }
}

#[test]
fn rank_from_index_wraps_after_the_eighth() {
    assert_eq!(Rank::from_index(8), Rank::A);
    assert_eq!(Rank::from_index(15), Rank::H);
    assert_eq!(Rank::from_index(usize::MAX), Rank::H);
}

#[test]
fn rank_left_and_right_wrap() {
    assert_eq!(Rank::A.left(), Rank::H);
    assert_eq!(Rank::H.right(), Rank::A);
    assert_eq!(Rank::D.left(), Rank::C);
    assert_eq!(Rank::D.right(), Rank::E);
}

#[test]
fn rank_to_str_is_the_lower_case_letter() {
    assert_eq!(Rank::A.to_str(), "a");
    assert_eq!(Rank::E.to_str(), "e");
    assert_eq!(Rank::H.to_str(), "h");
}

#[test]
fn rank_sub_counts_the_steps_between() {
    assert_eq!(Rank::A.sub(Rank::H), 7);
    assert_eq!(Rank::H.sub(Rank::A), 7);
    assert_eq!(Rank::C.sub(Rank::E), 2);
    assert_eq!(Rank::E.sub(Rank::C), 2);
    assert_eq!(Rank::D.sub(Rank::D), 0);
}

#[test]
fn rank_parse_reads_the_first_character() {
    assert_eq!(Rank::parse("e"), Ok(Rank::E));
    assert_eq!(Rank::parse("E"), Ok(Rank::E));
    assert_eq!(Rank::parse("h4"), Ok(Rank::H));
    assert_eq!(Rank::from_str("a"), Ok(Rank::A));
    assert_eq!(Rank::from_char('g'), Some(Rank::G));
    assert_eq!(Rank::from_char('1'), None);
}

#[test]
fn rank_parse_rejects_other_texts() {
    assert_eq!(Rank::parse(""), Err(Error::InvalidRank));
    assert_eq!(Rank::parse("i"), Err(Error::InvalidRank));
    assert_eq!(Rank::parse("2"), Err(Error::InvalidRank));
    assert_eq!(Rank::from_str("x"), Err(Error::InvalidRank));
}

#[test]
fn file_index_round_trip() {
    assert_eq!(NUM_FILES, 8);
    for (i, f) in ALL_FILES.iter().enumerate() {
        assert_eq!(f.to_index(), i);
        assert_eq!(File::from_index(i), *f);
        assert_eq!(f.to_i8() as usize, i + 1);
        assert_eq!(File::from_i8(f.to_i8()), Ok(*f));
    }
}

#[test]
fn file_from_index_wraps_after_the_eighth() {
    assert_eq!(File::from_index(8), File::First);
    assert_eq!(File::from_index(9), File::Second);
}

#[test]
fn file_up_and_down_wrap() {
    assert_eq!(File::First.down(), File::Eighth);
    assert_eq!(File::Eighth.up(), File::First);
    assert_eq!(File::Second.up(), File::Third);
    assert_eq!(File::Second.down(), File::First);
}

#[test]
fn file_from_i8_rejects_numbers_out_of_range() {
    assert_eq!(File::from_i8(0), Err(Error::InvalidFile));
    assert_eq!(File::from_i8(9), Err(Error::InvalidFile));
    assert_eq!(File::from_i8(-1), Err(Error::InvalidFile));
    assert_eq!(File::from_i8(i8::MAX), Err(Error::InvalidFile));
}

#[test]
fn file_sub_counts_the_steps_between() {
    assert_eq!(File::First.sub(File::Eighth), 7);
    assert_eq!(File::Eighth.sub(File::First), 7);
    assert_eq!(File::Fourth.sub(File::Fifth), 1);
    assert_eq!(File::Sixth.sub(File::Sixth), 0);
}

#[test]
fn file_parse_reads_the_first_character() {
    assert_eq!(File::parse("1"), Ok(File::First));
    assert_eq!(File::parse("8"), Ok(File::Eighth));
    assert_eq!(File::from_str("42"), Ok(File::Fourth));
    assert_eq!(File::from_char('7'), Some(File::Seventh));
    assert_eq!(File::from_char('a'), None);
}

#[test]
fn file_parse_rejects_other_texts() {
    assert_eq!(File::parse(""), Err(Error::InvalidFile));
    assert_eq!(File::parse("0"), Err(Error::InvalidFile));
    assert_eq!(File::parse("9"), Err(Error::InvalidFile));
    assert_eq!(File::from_str("a"), Err(Error::InvalidFile));
}

#[test]
fn position_new_reads_letter_and_number() {
    assert_eq!(Position::new("A", 1), sq(Rank::A, File::First));
    assert_eq!(Position::new("h", 8), sq(Rank::H, File::Eighth));
    assert_eq!(Position::new("e", 4), Position { rank: Rank::E, file: File::Fourth });
}

#[test]
fn diagonals_come_ring_by_ring() {
    let d4 = sq(Rank::D, File::Fourth);
    assert_eq!(
        d4.diagonals_squares(1),
        vec![
            sq(Rank::E, File::Fifth),
            sq(Rank::C, File::Fifth),
            sq(Rank::E, File::Third),
            sq(Rank::C, File::Third),
        ]
    );
    let a1 = sq(Rank::A, File::First);
    assert_eq!(a1.diagonals_squares(2), vec![sq(Rank::B, File::Second), sq(Rank::C, File::Third)]);
    assert_eq!(a1.diagonals_squares(0), vec![]);
    assert_eq!(a1.diagonals_squares(-3), vec![]);
}

#[test]
fn diagonals_stop_at_the_edge() {
    let h8 = sq(Rank::H, File::Eighth);
    let all = h8.diagonals_squares(i8::MAX);
    assert_eq!(all.len(), 7);
    assert_eq!(all[0], sq(Rank::G, File::Seventh));
    assert_eq!(all[6], sq(Rank::A, File::First));
    let b1 = sq(Rank::B, File::First);
    assert_eq!(
        b1.diagonals_squares(2),
        vec![sq(Rank::C, File::Second), sq(Rank::A, File::Second), sq(Rank::D, File::Third)]
    );
}

#[test]
fn sides_come_ring_by_ring() {
    let d4 = sq(Rank::D, File::Fourth);
    assert_eq!(
        d4.side_squares(1),
        vec![
            sq(Rank::C, File::Fourth),
            sq(Rank::D, File::Fifth),
            sq(Rank::E, File::Fourth),
            sq(Rank::D, File::Third),
        ]
    );
    let a1 = sq(Rank::A, File::First);
    assert_eq!(
        a1.side_squares(2),
        vec![
            sq(Rank::A, File::Second),
            sq(Rank::B, File::First),
            sq(Rank::A, File::Third),
            sq(Rank::C, File::First),
        ]
    );
    assert_eq!(a1.side_squares(8).len(), 14);
    assert_eq!(a1.side_squares(0), vec![]);
}

#[test]
fn squares_around_lists_diagonals_then_sides() {
    let a1 = sq(Rank::A, File::First);
    assert_eq!(
        a1.squares_around(1),
        vec![sq(Rank::B, File::Second), sq(Rank::A, File::Second), sq(Rank::B, File::First)]
    );
    let d4 = sq(Rank::D, File::Fourth);
    assert_eq!(d4.squares_around(1).len(), 8);
    assert_eq!(d4.squares_around(2).len(), 16);
}

#[test]
fn shortest_path_along_a_rank_or_a_file() {
    let a1 = sq(Rank::A, File::First);
    let a4 = sq(Rank::A, File::Fourth);
    assert_eq!(a1.shortest_path(a4), vec![sq(Rank::A, File::Second), sq(Rank::A, File::Third)]);
    assert_eq!(a4.shortest_path(a1), vec![sq(Rank::A, File::Third), sq(Rank::A, File::Second)]);
    let h8 = sq(Rank::H, File::Eighth);
    let e8 = sq(Rank::E, File::Eighth);
    assert_eq!(h8.shortest_path(e8), vec![sq(Rank::G, File::Eighth), sq(Rank::F, File::Eighth)]);
}

#[test]
fn shortest_path_along_each_diagonal() {
    let d4 = sq(Rank::D, File::Fourth);
    assert_eq!(
        d4.shortest_path(sq(Rank::G, File::Seventh)),
        vec![sq(Rank::E, File::Fifth), sq(Rank::F, File::Sixth)]
    );
    assert_eq!(
        d4.shortest_path(sq(Rank::A, File::Seventh)),
        vec![sq(Rank::C, File::Fifth), sq(Rank::B, File::Sixth)]
    );
    assert_eq!(
        d4.shortest_path(sq(Rank::G, File::First)),
        vec![sq(Rank::E, File::Third), sq(Rank::F, File::Second)]
    );
    assert_eq!(
        d4.shortest_path(sq(Rank::A, File::First)),
        vec![sq(Rank::C, File::Third), sq(Rank::B, File::Second)]
    );
}

#[test]
fn shortest_path_leaves_out_both_ends() {
    let a1 = sq(Rank::A, File::First);
    let h8 = sq(Rank::H, File::Eighth);
    let path = a1.shortest_path(h8);
    assert_eq!(path.len(), 6);
    assert!(!path.contains(&a1));
    assert!(!path.contains(&h8));
    assert_eq!(a1.shortest_path(sq(Rank::A, File::Second)), vec![]);
    assert_eq!(a1.shortest_path(a1), vec![]);
}

#[test]
fn shortest_path_is_empty_where_no_line_joins() {
    let a1 = sq(Rank::A, File::First);
    assert_eq!(a1.shortest_path(sq(Rank::B, File::Third)), vec![]);
    assert_eq!(a1.shortest_path(sq(Rank::C, File::Second)), vec![]);
    assert_eq!(a1.shortest_path(sq(Rank::H, File::Seventh)), vec![]);
}

#[test]
fn is_in_tells_membership() {
    let a1 = sq(Rank::A, File::First);
    let list = vec![sq(Rank::B, File::Second), a1];
    assert!(a1.is_in(&list));
    assert!(!sq(Rank::C, File::Third).is_in(&list));
    assert!(!a1.is_in(&vec![]));
}

#[test]
fn neighbour_stays_on_the_board() {
    let a1 = sq(Rank::A, File::First);
    assert_eq!(a1.neighbour(1, 1), Some(sq(Rank::B, File::Second)));
    assert_eq!(a1.neighbour(-1, 0), None);
    assert_eq!(a1.neighbour(0, -1), None);
    assert_eq!(a1.neighbour(0, 0), Some(a1));
    let h8 = sq(Rank::H, File::Eighth);
    assert_eq!(h8.neighbour(1, 0), None);
    assert_eq!(h8.neighbour(0, 1), None);
    assert_eq!(h8.neighbour(-5, -5), Some(sq(Rank::G, File::Seventh)));
}

#[test]
fn ranks_and_files_are_ordered_by_place() {
    assert!(Rank::A < Rank::B);
    assert!(Rank::H > Rank::G);
    assert!(Rank::D <= Rank::D);
    assert!(!(Rank::E < Rank::C));
    assert_eq!(Rank::C.partial_cmp(&Rank::F), Some(std::cmp::Ordering::Less));
    assert_eq!(Rank::F.partial_cmp(&Rank::F), Some(std::cmp::Ordering::Equal));
    assert!(File::First < File::Second);
    assert!(File::Eighth > File::First);
    assert!(!(File::Fifth < File::Fifth));
    assert_eq!(File::Sixth.partial_cmp(&File::Third), Some(std::cmp::Ordering::Greater));
    for i in 0..8 {
        for j in 0..8 {
            assert_eq!(ALL_RANKS[i] < ALL_RANKS[j], i < j);
            assert_eq!(ALL_FILES[i] < ALL_FILES[j], i < j);
        }
    }
}

#[test]
fn squares_are_ordered_by_rank_then_file() {
    assert!(sq(Rank::A, File::Eighth) < sq(Rank::B, File::First));
    assert!(sq(Rank::C, File::Second) < sq(Rank::C, File::Third));
    assert!(sq(Rank::C, File::Third) > sq(Rank::B, File::Eighth));
    assert!(sq(Rank::C, File::Third) <= sq(Rank::C, File::Third));
    assert_eq!(
        sq(Rank::H, File::First).partial_cmp(&sq(Rank::A, File::Eighth)),
        Some(std::cmp::Ordering::Greater)
    );
    assert_eq!(
        sq(Rank::D, File::Fourth).partial_cmp(&sq(Rank::D, File::Fourth)),
        Some(std::cmp::Ordering::Equal)
    );
}
