use chess_engine::board::legal_moves::{
    any_lands_on, enumerate_legal_moves, get_moves_directions, get_moves_king, get_moves_knight,
    get_moves_pawn, PawnMove,
};
use chess_engine::board::{Board, Castling, Move, SquareDiff, SquareSpec};
use chess_engine::piece::{Color, Piece, PieceType};
use std::collections::HashSet;

fn on(name: &str) -> SquareSpec {
    name.parse::<SquareSpec>().unwrap()
}

fn step(from: &str, target: &str) -> Move {
    Move::Normal {
        from: on(from),
        to: on(target),
    }
}

fn board(fen: &str) -> Board {
    Board::load_fen(fen).unwrap()
}

fn after(fen: &str, m: Move) -> String {
    board(fen).perform_move(m).unwrap().to_string()
}

fn targets(moves: &[Move]) -> HashSet<String> {
    moves.iter().map(|m| m.to_string()).collect()
}

fn names(list: &[&str]) -> HashSet<String> {
    list.iter().map(|s| s.to_string()).collect()
}

#[test]
fn empty_squares_have_no_moves() {
    let start = Board::default_board();
    for rank in 2..6 {
        for file in 0..8 {
            assert!(start.get_legal_moves(SquareSpec::new(rank, file)).is_empty());
        }
    }
    let bare = board("8/8/8/8/8/8/8/8 w - e3 0 1");
    for rank in 0..8 {
        for file in 0..8 {
            assert!(bare.get_legal_moves(SquareSpec::new(rank, file)).is_empty());
        }
    }
}

#[test]
fn pieces_of_the_waiting_side_have_no_moves() {
    let start = Board::default_board();
    for rank in 6..8 {
        for file in 0..8 {
            assert!(start.get_legal_moves(SquareSpec::new(rank, file)).is_empty());
        }
    }
    let black_to_move = board("rnbqkbnr/pppppppp/8/8/4P3/8/PPPP1PPP/RNBQKBNR b KQkq e3 0 1");
    for rank in 0..4 {
        for file in 0..8 {
            assert!(black_to_move
                .get_legal_moves(SquareSpec::new(rank, file))
                .is_empty());
        }
    }
    assert_eq!(
        targets(&black_to_move.get_legal_moves(on("g8"))),
        names(&["g8f6", "g8h6"])
    );
}

#[test]
fn start_position_has_twenty_moves() {
    let start = Board::default_board();
    let all = start.get_all_legal_moves();
    let mut expected = Vec::new();
    for file in ["a", "b", "c", "d", "e", "f", "g", "h"] {
        expected.push(format!("{}2{}3", file, file));
        expected.push(format!("{}2{}4", file, file));
    }
    for text in ["b1a3", "b1c3", "g1f3", "g1h3"] {
        expected.push(text.to_string());
    }
    assert_eq!(all.len(), 20);
    assert_eq!(targets(&all), expected.into_iter().collect::<HashSet<_>>());
    assert_eq!(
        targets(&start.get_legal_moves(on("e2"))),
        names(&["e2e3", "e2e4"])
    );
}

#[test]
fn sliding_stops_at_the_first_piece() {
    let b = board("8/8/8/3p4/2pRp3/3p4/8/8 w - - 0 1");
    assert_eq!(
        targets(&b.get_legal_moves(on("d4"))),
        names(&["d4d5", "d4e4", "d4d3", "d4c4"])
    );
    let own = board("8/8/8/3P4/2PRP3/3P4/8/8 w - - 0 1");
    assert!(own.get_legal_moves(on("d4")).is_empty());
    let far = board("8/3p4/8/8/P2R2p1/8/8/3P4 w - - 0 1");
    assert_eq!(
        targets(&far.get_legal_moves(on("d4"))),
        names(&[
            "d4d5", "d4d6", "d4d7", "d4d3", "d4d2", "d4c4", "d4b4", "d4e4", "d4f4", "d4g4"
        ])
    );
}

#[test]
fn rays_follow_the_given_steps() {
    let b = board("8/8/8/8/8/2n5/8/B3P3 w - - 0 1");
    let along = [SquareDiff::new(1, 1), SquareDiff::new(0, 1)];
    let reached: HashSet<SquareSpec> =
        get_moves_directions(Color::White, &b, on("a1"), &along)
            .into_iter()
            .collect();
    let expected: HashSet<SquareSpec> = ["b2", "c3", "b1", "c1", "d1"]
        .iter()
        .map(|s| on(s))
        .collect();
    assert_eq!(reached, expected);
    assert!(get_moves_directions(Color::White, &b, on("a1"), &[]).is_empty());
}

#[test]
fn knights_jump_over_pieces() {
    let start = Board::default_board();
    let reached: HashSet<SquareSpec> = get_moves_knight(Color::White, &start, on("b1"))
        .into_iter()
        .collect();
    let expected: HashSet<SquareSpec> = ["a3", "c3"].iter().map(|s| on(s)).collect();
    assert_eq!(reached, expected);
    let corner = board("8/8/8/8/8/8/8/N7 w - - 0 1");
    assert_eq!(
        targets(&corner.get_legal_moves(on("a1"))),
        names(&["a1b3", "a1c2"])
    );
}

#[test]
fn pawn_moves_by_kind() {
    let b = board("8/8/4p3/5Pp1/8/8/8/8 w - g6 0 1");
    let found: HashSet<String> = get_moves_pawn(Color::White, &b, on("f5"))
        .into_iter()
        .map(|pm| format!("{:?}", pm))
        .collect();
    let expected: HashSet<String> = [
        PawnMove::Normal(on("f6")),
        PawnMove::Normal(on("e6")),
        PawnMove::EnPassant(on("g6")),
    ]
    .iter()
    .map(|pm| format!("{:?}", pm))
    .collect();
    assert_eq!(found, expected);
    let last = board("8/4P3/8/8/8/8/8/8 w - - 0 1");
    assert_eq!(
        get_moves_pawn(Color::White, &last, on("e7")),
        vec![PawnMove::Promotion(on("e8"))]
    );
}

#[test]
fn black_pawns_move_down() {
    let b = board("8/3p4/8/8/8/8/8/8 b - - 0 1");
    assert_eq!(
        targets(&b.get_legal_moves(on("d7"))),
        names(&["d7d6", "d7d5"])
    );
    let low = board("8/8/8/8/8/8/3p4/2R5 b - - 0 1");
    assert_eq!(
        targets(&low.get_legal_moves(on("d2"))),
        names(&["d2d1=Q", "d2d1=N", "d2d1=B", "d2d1=R", "d2c1"])
    );
    let blocked = board("8/3p4/3P4/8/8/8/8/8 b - - 0 1");
    assert!(blocked.get_legal_moves(on("d7")).is_empty());
}

#[test]
fn pawn_interactions() {
    let b = board("8/8/4p3/5Pp1/8/8/8/8 w - g6 0 1");
    assert_eq!(
        targets(&b.get_legal_moves(on("f5"))),
        names(&["f5g6", "f5f6", "f5e6"])
    );
}

#[test]
fn castling_needs_a_safe_way() {
    let checked = board("8/8/8/4r3/8/8/8/4K2R w K - 0 1");
    assert_eq!(
        targets(&checked.get_legal_moves(on("e1"))),
        names(&["e1d1", "e1d2", "e1f1", "e1f2"])
    );
    assert!(checked.in_check());
    let free = board("8/8/8/8/8/8/8/R3K2R w KQ - 0 1");
    let moves = free.get_legal_moves(on("e1"));
    assert!(moves.contains(&Move::Castling(Castling::Short)));
    assert!(moves.contains(&Move::Castling(Castling::Long)));
    let no_rights = board("8/8/8/8/8/8/8/R3K2R w - - 0 1");
    let moves = no_rights.get_legal_moves(on("e1"));
    assert!(!moves.contains(&Move::Castling(Castling::Short)));
    assert!(!moves.contains(&Move::Castling(Castling::Long)));
    let blocked = board("8/8/8/8/8/8/8/RN2K1NR w KQ - 0 1");
    let moves = blocked.get_legal_moves(on("e1"));
    assert!(!moves.contains(&Move::Castling(Castling::Short)));
    assert!(!moves.contains(&Move::Castling(Castling::Long)));
}

#[test]
fn king_moves_without_the_check_filter() {
    let b = board("8/8/8/4r3/8/8/8/4K2R w K - 0 1");
    let plain = get_moves_king(Color::White, &b, on("e1"), false);
    assert_eq!(
        targets(&plain),
        names(&["e1d1", "e1d2", "e1e2", "e1f1", "e1f2"])
    );
    let king = Piece::new(PieceType::King, Color::White);
    assert_eq!(
        targets(&enumerate_legal_moves(king, on("e1"), &b, false)),
        targets(&plain)
    );
    let quiet = board("8/8/8/8/8/8/8/4K2R w K - 0 1");
    assert!(get_moves_king(Color::White, &quiet, on("e1"), true)
        .contains(&Move::Castling(Castling::Short)));
    assert!(!get_moves_king(Color::White, &quiet, on("e1"), false)
        .contains(&Move::Castling(Castling::Short)));
}

#[test]
fn threats_come_from_the_other_color() {
    let b = board("8/8/8/4r3/8/8/8/4K2R w K - 0 1");
    assert!(b.is_threatened(Color::White, on("e1")));
    assert!(b.is_threatened(Color::White, on("a5")));
    assert!(!b.is_threatened(Color::White, on("f1")));
    assert!(!b.is_threatened(Color::Black, on("e5")));
    assert!(b.is_threatened(Color::Black, on("h8")));
    assert!(b.is_threatened(Color::Black, on("d2")));
    assert!(!b.is_threatened(Color::White, SquareSpec { rank: 9, file: 4 }));
    let moves = vec![step("a1", "a2"), Move::Castling(Castling::Long)];
    assert!(any_lands_on(&moves, on("a2")));
    assert!(!any_lands_on(&moves, on("a1")));
}

#[test]
fn kings_are_found_or_missing() {
    let start = Board::default_board();
    assert_eq!(start.king(Color::White), Some(on("e1")));
    assert_eq!(start.king(Color::Black), Some(on("e8")));
    assert!(!start.in_check());
    let bare = board("8/8/8/8/8/8/8/8 w - - 0 1");
    assert_eq!(bare.king(Color::White), None);
    assert_eq!(bare.king(Color::Black), None);
    assert!(!bare.in_check());
    let two = board("8/8/8/8/6K1/8/1K6/8 w - - 0 1");
    assert_eq!(two.king(Color::White), Some(on("b2")));
}

#[test]
fn legality_of_single_moves() {
    let start = Board::default_board();
    assert!(start.is_legal(step("e2", "e4"), Color::White));
    assert!(start.is_legal(step("g1", "f3"), Color::White));
    assert!(!start.is_legal(step("e2", "e5"), Color::White));
    assert!(!start.is_legal(step("e3", "e4"), Color::White));
    assert!(!start.is_legal(step("a1", "a3"), Color::White));
    assert!(!start.is_legal(
        Move::Normal {
            from: on("e2"),
            to: SquareSpec { rank: 3, file: 9 }
        },
        Color::White
    ));
    assert!(start.is_legal(Move::Castling(Castling::Short), Color::White));
    assert!(start.is_legal(Move::Castling(Castling::Long), Color::Black));
    let spent = board("r3k2r/8/8/8/8/8/8/R3K2R w Kq - 0 1");
    assert!(spent.is_legal(Move::Castling(Castling::Short), Color::White));
    assert!(!spent.is_legal(Move::Castling(Castling::Long), Color::White));
    assert!(!spent.is_legal(Move::Castling(Castling::Short), Color::Black));
    assert!(spent.is_legal(Move::Castling(Castling::Long), Color::Black));
    assert!(start.perform_move(step("e2", "e5")).is_none());
    assert!(start.perform_move(step("e4", "e5")).is_none());
}

#[test]
fn double_step_leaves_a_target() {
    let start = "rnbqkbnr/pppppppp/8/8/8/8/PPPPPPPP/RNBQKBNR w KQkq - 0 1";
    assert_eq!(
        after(start, step("e2", "e4")),
        "rnbqkbnr/pppppppp/8/8/4P3/8/PPPP1PPP/RNBQKBNR b KQkq e3 0 1"
    );
    assert_eq!(
        after(
            "rnbqkbnr/pppppppp/8/8/4P3/8/PPPP1PPP/RNBQKBNR b KQkq e3 0 1",
            step("c7", "c5")
        ),
        "rnbqkbnr/pp1ppppp/8/2p5/4P3/8/PPPP1PPP/RNBQKBNR w KQkq c6 0 2"
    );
    assert_eq!(
        after(start, step("e2", "e3")),
        "rnbqkbnr/pppppppp/8/8/8/4P3/PPPP1PPP/RNBQKBNR b KQkq - 0 1"
    );
}

#[test]
fn quiet_moves_run_the_clock() {
    let start = "rnbqkbnr/pppppppp/8/8/8/8/PPPPPPPP/RNBQKBNR w KQkq - 0 1";
    assert_eq!(
        after(start, step("g1", "f3")),
        "rnbqkbnr/pppppppp/8/8/8/5N2/PPPPPPPP/RNBQKB1R b KQkq - 1 1"
    );
    assert_eq!(
        after(
            "rnbqkbnr/pppppppp/8/8/8/5N2/PPPPPPPP/RNBQKB1R b KQkq - 1 1",
            step("g8", "f6")
        ),
        "rnbqkb1r/pppppppp/5n2/8/8/5N2/PPPPPPPP/RNBQKB1R w KQkq - 2 2"
    );
    assert_eq!(
        after("8/8/8/8/8/8/8/R6k w - - 48 70", step("a1", "a2")),
        "8/8/8/8/8/8/R7/7k b  - 49 70"
    );
}

#[test]
fn captures_and_pawn_moves_reset_the_clock() {
    assert_eq!(
        after("8/8/8/3p4/8/8/8/3R4 w - - 12 30", step("d1", "d5")),
        "8/8/8/3R4/8/8/8/8 b  - 0 30"
    );
    assert_eq!(
        after("8/8/8/8/8/3p4/8/8 b - - 12 30", step("d3", "d2")),
        "8/8/8/8/8/8/3p4/8 w  - 0 31"
    );
    assert_eq!(
        after("8/8/8/8/3P4/8/8/8 w - - 33 30", step("d4", "d5")),
        "8/8/8/3P4/8/8/8/8 b  - 0 30"
    );
}

#[test]
fn en_passant_takes_the_passed_pawn() {
    assert_eq!(
        after("8/8/8/5Pp1/8/8/8/8 w - g6 3 9", step("f5", "g6")),
        "8/8/6P1/8/8/8/8/8 b  - 0 9"
    );
    assert_eq!(
        after("8/8/8/8/3pP3/8/8/8 b - e3 0 9", step("d4", "e3")),
        "8/8/8/8/8/4p3/8/8 w  - 0 10"
    );
    assert_eq!(
        after("8/8/8/5Pp1/8/8/8/8 w - g6 3 9", step("f5", "f6")),
        "8/8/5P2/6p1/8/8/8/8 b  - 0 9"
    );
}

#[test]
fn promotion_changes_the_kind() {
    let m = Move::Promotion {
        from: on("e7"),
        to: on("e8"),
        target: PieceType::Queen,
    };
    assert_eq!(
        after("8/4P3/8/8/8/8/8/8 w - - 5 1", m),
        "4Q3/8/8/8/8/8/8/8 b  - 0 1"
    );
    let under = Move::Promotion {
        from: on("a2"),
        to: on("a1"),
        target: PieceType::Knight,
    };
    assert_eq!(
        after("8/8/8/8/8/8/p7/8 b - - 5 1", under),
        "8/8/8/8/8/8/8/n7 w  - 0 2"
    );
    let king = Move::Promotion {
        from: on("e7"),
        to: on("e8"),
        target: PieceType::King,
    };
    assert!(board("8/4P3/8/8/8/8/8/8 w - - 5 1")
        .perform_move(king)
        .is_none());
}

#[test]
fn castling_moves_king_and_rook() {
    assert_eq!(
        after(
            "8/8/8/8/8/8/3PPP2/R3K2R w KQ - 0 1",
            Move::Castling(Castling::Short)
        ),
        "8/8/8/8/8/8/3PPP2/R4RK1 b  - 1 1"
    );
    assert_eq!(
        after(
            "8/8/8/8/8/8/3PPP2/R3K2R w KQ - 0 1",
            Move::Castling(Castling::Long)
        ),
        "8/8/8/8/8/8/3PPP2/2KR3R b  - 1 1"
    );
    assert_eq!(
        after(
            "r3k2r/8/8/8/8/8/8/R3K2R b KQkq - 7 4",
            Move::Castling(Castling::Long)
        ),
        "2kr3r/8/8/8/8/8/8/R3K2R w KQ - 8 5"
    );
}

#[test]
fn moving_king_or_rook_gives_up_rights() {
    let both = "r3k2r/8/8/8/8/8/8/R3K2R w KQkq - 0 1";
    assert_eq!(
        after(both, step("e1", "e2")),
        "r3k2r/8/8/8/8/8/4K3/R6R b kq - 1 1"
    );
    assert_eq!(
        after(both, step("a1", "a2")),
        "r3k2r/8/8/8/8/8/R7/4K2R b Kkq - 1 1"
    );
    assert_eq!(
        after(both, step("h1", "g1")),
        "r3k2r/8/8/8/8/8/8/R3K1R1 b Qkq - 1 1"
    );
    assert_eq!(
        after(both, step("a1", "a8")),
        "R3k2r/8/8/8/8/8/8/4K2R b Kk - 0 1"
    );
    assert_eq!(
        after("r3k2r/8/8/8/8/8/8/R3K2R b KQkq - 0 1", step("h8", "h1")),
        "r3k3/8/8/8/8/8/8/R3K2r w Qq - 0 2"
    );
}

#[test]
fn pinned_pieces_stay() {
    let b = board("8/8/8/8/8/r7/R7/K7 w - - 0 1");
    assert!(b.is_legal(step("a2", "a3"), Color::White));
    assert!(!b.is_legal(step("a2", "b2"), Color::White));
    assert!(b.perform_move(step("a2", "h2")).is_none());
}

#[test]
fn unchecked_moves_ignore_the_rules() {
    let start = Board::default_board();
    let jumped = start.unchecked_perform_move(step("a1", "a5"));
    assert_eq!(
        jumped.to_string(),
        "rnbqkbnr/pppppppp/8/R7/8/8/PPPPPPPP/1NBQKBNR b KQkq - 0 1"
    );
    let phantom = start.unchecked_perform_move(step("e4", "e8"));
    assert_eq!(
        phantom.to_string(),
        "rnbq1bnr/pppppppp/8/8/8/8/PPPPPPPP/RNBQKBNR b KQkq - 0 1"
    );
    let castled = start.unchecked_perform_move(Move::Castling(Castling::Short));
    assert_eq!(
        castled.to_string(),
        "rnbqkbnr/pppppppp/8/8/8/8/PPPPPPPP/RNBQ1RK1 b kq - 0 1"
    );
    let crowned = start.unchecked_perform_move(Move::Promotion {
        from: on("a2"),
        to: on("a8"),
        target: PieceType::Queen,
    });
    assert_eq!(
        crowned.to_string(),
        "Qnbqkbnr/pppppppp/8/8/8/8/1PPPPPPP/RNBQKBNR b KQkq - 0 1"
    );
    let nothing = start.unchecked_perform_move(Move::Promotion {
        from: on("a3"),
        to: on("a8"),
        target: PieceType::Queen,
    });
    assert_eq!(
        nothing.to_string(),
        "1nbqkbnr/pppppppp/8/8/8/8/PPPPPPPP/RNBQKBNR b KQkq - 0 1"
    );
}

#[test]
fn a_castle_is_played_on_the_right_alone() {
    let start = Board::default_board();
    assert!(start.is_legal(Move::Castling(Castling::Long), Color::White));
    assert!(!start
        .get_all_legal_moves()
        .contains(&Move::Castling(Castling::Long)));
    let played = start.perform_move(Move::Castling(Castling::Long)).unwrap();
    assert_eq!(
        played.to_string(),
        "rnbqkbnr/pppppppp/8/8/8/8/PPPPPPPP/1NKR1BNR b kq - 1 1"
    );
    let spent = board("rnbqkbnr/pppppppp/8/8/8/8/PPPPPPPP/RNBQKBNR w kq - 0 1");
    assert!(spent.perform_move(Move::Castling(Castling::Long)).is_none());
}

#[test]
fn a_piece_of_the_waiting_side_can_be_moved_by_name() {
    let start = Board::default_board();
    assert!(start.is_legal(step("e7", "e5"), Color::White));
    let played = start.perform_move(step("e7", "e5")).unwrap();
    assert_eq!(
        played.to_string(),
        "rnbqkbnr/pppp1ppp/8/4p3/8/8/PPPPPPPP/RNBQKBNR b KQkq e6 0 1"
    );
}

#[test]
fn only_corner_rooks_carry_rights() {
    assert_eq!(
        after("r3k2r/8/8/8/8/R7/8/R3K2R w KQkq - 0 1", step("a3", "b3")),
        "r3k2r/8/8/8/8/1R6/8/R3K2R b KQkq - 1 1"
    );
    assert_eq!(
        after("r3k2r/8/8/8/8/8/7R/R3K2R w KQkq - 0 1", step("h2", "h8")),
        "r3k2R/8/8/8/8/8/8/R3K2R b KQq - 0 1"
    );
    assert_eq!(
        after("r3k2r/8/8/8/8/8/8/rR2K2R w Kkq - 0 1", step("b1", "a1")),
        "r3k2r/8/8/8/8/8/8/R3K2R b Kkq - 0 1"
    );
    assert_eq!(
        after("R3k2r/8/8/8/8/8/8/4K2R b Kk - 0 1", step("e8", "d7")),
        "R6r/3k4/8/8/8/8/8/4K2R w K - 1 2"
    );
}

#[test]
fn squares_off_the_board_hold_nothing() {
    let start = Board::default_board();
    let off = SquareSpec { rank: 8, file: 0 };
    let far = SquareSpec {
        rank: u32::MAX,
        file: u32::MAX,
    };
    assert!(start.get_legal_moves(off).is_empty());
    assert!(start.get_legal_moves(far).is_empty());
    let from_off = Move::Normal {
        from: off,
        to: on("a3"),
    };
    let from_far = Move::Promotion {
        from: far,
        to: on("a8"),
        target: PieceType::Queen,
    };
    assert!(!start.is_legal(from_off, Color::White));
    assert!(!start.is_legal(from_far, Color::White));
    assert!(start.perform_move(from_off).is_none());
    assert!(start.perform_move(from_far).is_none());
}
