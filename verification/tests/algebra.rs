use chess_engine::board::squarespec::sgn;
use chess_engine::board::{Castling, Move, SquareDiff, SquareSpec};
use chess_engine::error::Error;
use chess_engine::piece::{Color, Piece, PieceType};

fn at(name: &str) -> SquareSpec {
    name.parse::<SquareSpec>().unwrap()
}

#[test]
fn checked_add_stays_on_the_board() {
    let a1 = at("a1");
    let h8 = at("h8");
    let e5 = at("e5");
    assert!(a1.checked_add(SquareDiff { d_rank: -1, d_file: -1 }).is_none());
    assert!(a1.checked_add(SquareDiff { d_rank: 0, d_file: -1 }).is_none());
    assert!(h8.checked_add(SquareDiff { d_rank: 1, d_file: 1 }).is_none());
    assert!(h8.checked_add(SquareDiff { d_rank: 1, d_file: 0 }).is_none());
    assert_eq!(
        e5.checked_add(SquareDiff { d_rank: 1, d_file: 1 }),
        Some(at("f6"))
    );
    assert_eq!(
        a1.checked_add(SquareDiff { d_rank: 7, d_file: 7 }),
        Some(h8)
    );
    assert_eq!(
        h8.checked_add(SquareDiff { d_rank: -7, d_file: -7 }),
        Some(a1)
    );
    assert!(a1.checked_add(SquareDiff { d_rank: 8, d_file: 0 }).is_none());
}

#[test]
fn checked_add_takes_any_offset() {
    let e5 = at("e5");
    assert!(e5
        .checked_add(SquareDiff { d_rank: i32::MAX, d_file: 0 })
        .is_none());
    assert!(e5
        .checked_add(SquareDiff { d_rank: 0, d_file: i32::MIN })
        .is_none());
}

#[test]
fn squares_subtract_to_offsets() {
    assert_eq!(at("h8") - at("a1"), SquareDiff { d_rank: 7, d_file: 7 });
    assert_eq!(at("a1") - at("h8"), SquareDiff { d_rank: -7, d_file: -7 });
    assert_eq!(at("c1") - at("e1"), SquareDiff::new(0, -2));
    assert_eq!(at("e4") - at("e4"), SquareDiff::default());
}

#[test]
fn squares_and_offsets_add() {
    assert_eq!(at("e2") + SquareDiff::new(2, 0), at("e4"));
    assert_eq!(
        SquareDiff::new(1, 0) + SquareDiff::new(0, -1),
        SquareDiff::new(1, -1)
    );
    let mut sq = at("g1");
    sq += SquareDiff::new(2, -1);
    assert_eq!(sq, at("f3"));
}

#[test]
fn abs_and_sign() {
    assert_eq!(
        SquareDiff { d_rank: -1, d_file: -1 }.abs(),
        SquareDiff { d_rank: 1, d_file: 1 }
    );
    assert_eq!(
        SquareDiff { d_rank: 3, d_file: -5 }.abs(),
        SquareDiff { d_rank: 3, d_file: 5 }
    );
    assert_eq!(sgn(-17), -1);
    assert_eq!(sgn(0), 0);
    assert_eq!(sgn(4), 1);
    assert_eq!(sgn(i32::MIN), -1);
    assert_eq!(sgn(i32::MAX), 1);
}

#[test]
fn diagonals_are_recognised() {
    assert!((at("a1") - at("h8")).is_diag());
    assert!((at("h1") - at("a8")).is_diag());
    assert!(!(at("a1") - at("h7")).is_diag());
    assert!(SquareDiff::new(0, 0).is_diag());
    assert!(SquareDiff::new(i32::MIN, i32::MIN).is_diag());
    assert!(!SquareDiff::new(i32::MIN, i32::MAX).is_diag());
}

#[test]
fn as_unit_reduces_straight_offsets_only() {
    assert_eq!(
        (at("h8") - at("a1")).as_unit(),
        Some(SquareDiff { d_rank: 1, d_file: 1 })
    );
    assert_eq!(
        (at("a8") - at("h1")).as_unit(),
        Some(SquareDiff { d_rank: 1, d_file: -1 })
    );
    assert_eq!(
        (at("a1") - at("a8")).as_unit(),
        Some(SquareDiff { d_rank: -1, d_file: 0 })
    );
    assert_eq!(
        (at("h4") - at("b4")).as_unit(),
        Some(SquareDiff { d_rank: 0, d_file: 1 })
    );
    assert_eq!(
        SquareDiff::new(0, 0).as_unit(),
        Some(SquareDiff { d_rank: 0, d_file: 0 })
    );
    assert!((at("h7") - at("a1")).as_unit().is_none());
    assert!(SquareDiff::new(2, 1).as_unit().is_none());
}

#[test]
fn square_names_are_two_characters() {
    assert_eq!(at("e4"), SquareSpec { rank: 3, file: 4 });
    assert_eq!(at("h8"), SquareSpec { rank: 7, file: 7 });
    assert_eq!(SquareSpec::new(3, 4).to_string(), "e4");
    assert_eq!(SquareSpec::new(7, 0).to_string(), "a8");
    assert_eq!(SquareSpec { rank: 8, file: 9 }.to_string(), "??");
    for bad in ["", "e", "e44", "4e", "i1", "a0", "a9", "E4", " e4", "é4"] {
        match bad.parse::<SquareSpec>() {
            Err(Error::InvalidSquare(text)) => assert_eq!(text, bad),
            other => panic!("{:?} gave {:?}", bad, other),
        }
    }
}

#[test]
fn every_square_name_reads_back() {
    for rank in 0..8 {
        for file in 0..8 {
            let sq = SquareSpec::new(rank, file);
            assert_eq!(sq.to_string().parse::<SquareSpec>().unwrap(), sq);
        }
    }
}

#[test]
fn colors_and_their_ranks() {
    assert_eq!(Color::White.opposite(), Color::Black);
    assert_eq!(Color::Black.opposite(), Color::White);
    assert_eq!(Color::White.home_rank(), 0);
    assert_eq!(Color::Black.home_rank(), 7);
    assert_eq!(Color::White.pawn_home_rank(), 1);
    assert_eq!(Color::Black.pawn_home_rank(), 6);
}

#[test]
fn piece_letters_follow_the_table() {
    let kinds = [
        (PieceType::Pawn, "P", "p"),
        (PieceType::Rook, "R", "r"),
        (PieceType::Bishop, "B", "b"),
        (PieceType::Queen, "Q", "q"),
        (PieceType::Knight, "N", "n"),
        (PieceType::King, "K", "k"),
    ];
    for (kind, capital, small) in kinds {
        assert_eq!(kind.to_string(), capital);
        assert_eq!(capital.parse::<PieceType>().unwrap(), kind);
        assert_eq!(Piece::new(kind, Color::White).to_string(), capital);
        assert_eq!(Piece::new(kind, Color::Black).to_string(), small);
    }
    assert_eq!(
        Piece::new(PieceType::Queen, Color::Black),
        Piece {
            piece: PieceType::Queen,
            color: Color::Black
        }
    );
}

#[test]
fn unknown_piece_letters_are_rejected() {
    for bad in ["", "p", "X", "PP", "k", " K"] {
        match bad.parse::<PieceType>() {
            Err(Error::InvalidPiece(text)) => assert_eq!(text, bad),
            other => panic!("{:?} gave {:?}", bad, other),
        }
    }
}

#[test]
fn moves_have_a_textual_form() {
    let normal = Move::Normal {
        from: at("e2"),
        to: at("e4"),
    };
    let promotion = Move::Promotion {
        from: at("e7"),
        to: at("e8"),
        target: PieceType::Queen,
    };
    let under = Move::Promotion {
        from: at("a2"),
        to: at("a1"),
        target: PieceType::Knight,
    };
    assert_eq!(normal.to_string(), "e2e4");
    assert_eq!(Move::Castling(Castling::Short).to_string(), "O-O");
    assert_eq!(Move::Castling(Castling::Long).to_string(), "O-O-O");
    assert_eq!(promotion.to_string(), "e7e8=Q");
    assert_eq!(under.to_string(), "a2a1=N");
}

#[test]
fn moves_know_their_squares() {
    let normal = Move::Normal {
        from: at("g1"),
        to: at("f3"),
    };
    let promotion = Move::Promotion {
        from: at("b7"),
        to: at("b8"),
        target: PieceType::Rook,
    };
    assert_eq!(normal.from(Color::White), at("g1"));
    assert_eq!(normal.to(Color::Black), at("f3"));
    assert_eq!(promotion.from(Color::White), at("b7"));
    assert_eq!(promotion.to(Color::White), at("b8"));
    let short = Move::Castling(Castling::Short);
    let long = Move::Castling(Castling::Long);
    assert_eq!(short.from(Color::White), at("e1"));
    assert_eq!(short.to(Color::White), at("g1"));
    assert_eq!(long.from(Color::White), at("e1"));
    assert_eq!(long.to(Color::White), at("c1"));
    assert_eq!(short.from(Color::Black), at("e8"));
    assert_eq!(short.to(Color::Black), at("g8"));
    assert_eq!(long.to(Color::Black), at("c8"));
}

#[test]
fn an_illegal_move_error_holds_board_and_move() {
    let m = Move::Normal {
        from: at("e2"),
        to: at("e5"),
    };
    let e = Error::IllegalMove("8/8/8/8/8/8/8/8 w - - 0 1".to_string(), m);
    match e {
        Error::IllegalMove(board, held) => {
            assert_eq!(board, "8/8/8/8/8/8/8/8 w - - 0 1");
            assert_eq!(held, m);
        }
        other => panic!("{:?}", other),
    }
}
