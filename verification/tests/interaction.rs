use chess_engine::board::{Board, Castling, Move, SquareSpec};
use chess_engine::game::{BoardState, Game};
use chess_engine::interaction::{
    any_ends_on, other_color, possible_moves_hover, put_down_piece, ChessSquare, Placement,
};
use chess_engine::packet::{is_move_key, split_packet, split_packets, NetworkError};
use chess_engine::piece::{Color, PieceType};

fn spot(name: &str) -> SquareSpec {
    name.parse::<SquareSpec>().unwrap()
}

fn marked(marks: &[ChessSquare], kind: ChessSquare) -> Vec<String> {
    let mut names = Vec::new();
    for rank in 0..8u32 {
        for file in 0..8u32 {
            if marks[(8 * rank + file) as usize] == kind {
                names.push(SquareSpec::new(rank, file).to_string());
            }
        }
    }
    names
}

#[test]
fn other_color_of_an_option() {
    assert_eq!(other_color(Some(Color::White)), Some(Color::Black));
    assert_eq!(other_color(Some(Color::Black)), Some(Color::White));
    assert_eq!(other_color(None), None);
}

#[test]
fn hover_marks_moves_and_captures() {
    let board = Board::load_fen("8/8/8/3p4/2pR4/8/8/8 w - - 0 1").unwrap();
    let marks = possible_moves_hover(&board, spot("d4"));
    assert_eq!(marks.len(), 64);
    assert_eq!(marked(&marks, ChessSquare::Capturable), ["c4", "d5"]);
    assert_eq!(
        marked(&marks, ChessSquare::Movable),
        ["d1", "d2", "d3", "e4", "f4", "g4", "h4"]
    );
    assert!(marked(&marks, ChessSquare::Castlable).is_empty());
    assert!(marked(&marks, ChessSquare::Promotable).is_empty());
    assert_eq!(marked(&marks, ChessSquare::Normal).len(), 55);
}

#[test]
fn hover_marks_castles_and_promotions() {
    let board = Board::load_fen("8/8/8/8/8/8/8/R3K2R w KQ - 0 1").unwrap();
    let marks = possible_moves_hover(&board, spot("e1"));
    assert_eq!(marked(&marks, ChessSquare::Castlable), ["c1", "g1"]);
    assert_eq!(
        marked(&marks, ChessSquare::Movable),
        ["d1", "f1", "d2", "e2", "f2"]
    );
    let board = Board::load_fen("3r4/4P3/8/8/8/8/8/8 w - - 0 1").unwrap();
    let marks = possible_moves_hover(&board, spot("e7"));
    assert_eq!(marked(&marks, ChessSquare::Promotable), ["d8", "e8"]);
    assert!(marked(&marks, ChessSquare::Capturable).is_empty());
}

#[test]
fn hover_over_nothing_marks_nothing() {
    let board = Board::default_board();
    for name in ["e4", "e7", "a1"] {
        let marks = possible_moves_hover(&board, spot(name));
        assert_eq!(marked(&marks, ChessSquare::Normal).len(), 64);
    }
}

#[test]
fn ends_of_moves() {
    let moves = vec![
        Move::Normal {
            from: spot("a1"),
            to: spot("a2"),
        },
        Move::Castling(Castling::Short),
        Move::Promotion {
            from: spot("b7"),
            to: spot("b8"),
            target: PieceType::Queen,
        },
    ];
    assert!(any_ends_on(&moves, spot("a2")));
    assert!(any_ends_on(&moves, spot("b8")));
    assert!(!any_ends_on(&moves, spot("a1")));
    assert!(!any_ends_on(&moves, spot("g1")));
    assert!(!any_ends_on(&Vec::new(), spot("a2")));
}

#[test]
fn drops_play_moves() {
    let mut game = Game::new();
    assert_eq!(
        put_down_piece(&mut game, spot("e2"), spot("e2")),
        Placement::Settled
    );
    assert!(game.get_moves().is_empty());
    assert_eq!(
        put_down_piece(&mut game, spot("e2"), spot("e5")),
        Placement::Held
    );
    assert!(game.get_moves().is_empty());
    assert_eq!(
        put_down_piece(&mut game, spot("e2"), spot("e4")),
        Placement::Settled
    );
    assert_eq!(
        game.get_moves(),
        &[Move::Normal {
            from: spot("e2"),
            to: spot("e4")
        }]
    );
    assert_eq!(
        put_down_piece(&mut game, spot("d5"), spot("d4")),
        Placement::Held
    );
    assert_eq!(
        put_down_piece(&mut game, spot("a7"), spot("a1")),
        Placement::PromotionAsked
    );
    assert_eq!(
        put_down_piece(&mut game, spot("a2"), spot("a8")),
        Placement::PromotionAsked
    );
    assert_eq!(game.get_moves().len(), 1);
    assert_eq!(game.board_state(), BoardState::Normal);
}

#[test]
fn a_dragged_king_castles() {
    let mut game = Game::new();
    for (from, to) in [
        ("e2", "e4"),
        ("e7", "e5"),
        ("g1", "f3"),
        ("g8", "f6"),
        ("f1", "c4"),
        ("f8", "c5"),
    ] {
        assert_eq!(
            put_down_piece(&mut game, spot(from), spot(to)),
            Placement::Settled
        );
    }
    assert_eq!(
        put_down_piece(&mut game, spot("e1"), spot("g1")),
        Placement::Settled
    );
    assert_eq!(
        game.get_moves().last(),
        Some(&Move::Castling(Castling::Short))
    );
    assert_eq!(
        game.current_board().to_string(),
        "rnbqk2r/pppp1ppp/5n2/2b1p3/2B1P3/5N2/PPPP1PPP/RNBQ1RK1 b kq - 5 4"
    );
    assert_eq!(
        put_down_piece(&mut game, spot("e8"), spot("g8")),
        Placement::Settled
    );
    assert_eq!(
        game.current_board().to_string(),
        "rnbq1rk1/pppp1ppp/5n2/2b1p3/2B1P3/5N2/PPPP1PPP/RNBQ1RK1 w  - 6 5"
    );
}

#[test]
fn packets_split_at_the_first_colon() {
    let (key, value) = split_packet(b"move:e2e4;").unwrap();
    assert_eq!(key, b"move");
    assert_eq!(value, b":e2e4;");
    let (key, value) = split_packet(b":a:b").unwrap();
    assert_eq!(key, b"");
    assert_eq!(value, b":a:b");
    let (key, value) = split_packet(b"k:").unwrap();
    assert_eq!(key, b"k");
    assert_eq!(value, b":");
    assert_eq!(split_packet(b"move e2e4;"), Err(NetworkError));
    assert_eq!(split_packet(b""), Err(NetworkError));
}

#[test]
fn streams_split_into_packets() {
    let (packets, rest) = split_packets(b"move:e2e4;move:e7e5;mo");
    assert_eq!(packets, vec![b"move:e2e4;".to_vec(), b"move:e7e5;".to_vec()]);
    assert_eq!(rest, b"mo");
    let (packets, rest) = split_packets(b";;a;");
    assert_eq!(packets, vec![b";".to_vec(), b";".to_vec(), b"a;".to_vec()]);
    assert!(rest.is_empty());
    let (packets, rest) = split_packets(b"no end");
    assert!(packets.is_empty());
    assert_eq!(rest, b"no end");
    let (packets, rest) = split_packets(b"");
    assert!(packets.is_empty());
    assert!(rest.is_empty());
}

#[test]
fn the_move_key() {
    assert!(is_move_key(b"move"));
    assert!(!is_move_key(b"Move"));
    assert!(!is_move_key(b"mov"));
    assert!(!is_move_key(b"moves"));
    assert!(!is_move_key(b""));
}
