use chess_engine::board::{Board, Move, SquareSpec};
use chess_engine::game::{BoardState, Game};
use chess_engine::piece::Color;

fn cell(name: &str) -> SquareSpec {
    name.parse::<SquareSpec>().unwrap()
}

fn mv(text: &str) -> Move {
    Move::Normal {
        from: cell(&text[0..2]),
        to: cell(&text[2..4]),
    }
}

fn play(game: &mut Game, line: &[&str]) {
    for text in line {
        assert!(game.make_move(mv(text)).is_some(), "{} was rejected", text);
    }
}

#[test]
fn a_new_game_starts_at_the_start() {
    let game = Game::new();
    assert_eq!(game.get_boards(), &[Board::default_board()]);
    assert!(game.get_moves().is_empty());
    assert_eq!(game.board_state(), BoardState::Normal);
    assert_eq!(game.next_player(), Color::White);
    assert_eq!(game.current_board(), &Board::default_board());
    assert_eq!(game.get_all_legal_moves().len(), 20);
    let other = Game::default();
    assert_eq!(other.get_boards(), game.get_boards());
    assert_eq!(other.board_state(), BoardState::Normal);
}

#[test]
fn accepted_moves_grow_the_history() {
    let mut game = Game::new();
    let next = *game.make_move(mv("e2e4")).unwrap();
    assert_eq!(
        next.to_string(),
        "rnbqkbnr/pppppppp/8/8/4P3/8/PPPP1PPP/RNBQKBNR b KQkq e3 0 1"
    );
    assert_eq!(game.get_boards().len(), 2);
    assert_eq!(game.get_moves(), &[mv("e2e4")]);
    assert_eq!(game.current_board(), &next);
    assert_eq!(game.next_player(), Color::Black);
    assert_eq!(game.board_state(), BoardState::Normal);
}

#[test]
fn rejected_moves_leave_the_game_alone() {
    let mut game = Game::new();
    assert!(game.make_move(mv("e2e5")).is_none());
    assert!(game.make_move(mv("d4d5")).is_none());
    assert!(game.make_move(mv("a1a3")).is_none());
    assert_eq!(game.get_boards(), &[Board::default_board()]);
    assert!(game.get_moves().is_empty());
    assert_eq!(game.board_state(), BoardState::Normal);
}

#[test]
fn check_is_reported() {
    let mut game = Game::new();
    play(&mut game, &["e2e4", "f7f6", "d1h5"]);
    assert_eq!(game.board_state(), BoardState::Check);
    assert!(game.current_board().in_check());
    assert!(game.make_move(mv("a7a6")).is_none());
    play(&mut game, &["g7g6"]);
    assert_eq!(game.board_state(), BoardState::Normal);
}

#[test]
fn checkmate_ends_the_game() {
    let mut game = Game::new();
    play(&mut game, &["f2f3", "e7e5", "g2g4", "d8h4"]);
    assert_eq!(game.board_state(), BoardState::Checkmate);
    assert!(game.get_all_legal_moves().is_empty());
    assert!(game.current_board().in_check());
    assert!(game.make_move(mv("a2a3")).is_none());
    assert!(game.make_move(mv("e1f2")).is_none());
    assert_eq!(game.get_moves().len(), 4);
    assert_eq!(game.get_boards().len(), 5);
}

#[test]
fn stalemate_ends_the_game() {
    let mut game = Game::new();
    play(
        &mut game,
        &[
            "e2e3", "a7a5", "d1h5", "a8a6", "h5a5", "h7h5", "h2h4", "a6h6", "a5c7", "f7f6",
            "c7d7", "e8f7", "d7b7", "d8d3", "b7b8", "d3h7", "b8c8", "f7g6", "c8e6",
        ],
    );
    assert_eq!(game.board_state(), BoardState::Stalemate);
    assert!(game.get_all_legal_moves().is_empty());
    assert!(!game.current_board().in_check());
    assert!(game.make_move(mv("g6g5")).is_none());
    assert_eq!(game.get_moves().len(), 19);
}

#[test]
fn fifty_quiet_moves_are_a_draw() {
    let mut game = Game::new();
    let cycle = ["g1f3", "g8f6", "f3g1", "f6g8"];
    for ply in 0..49 {
        play(&mut game, &[cycle[ply % 4]]);
        assert_eq!(game.board_state(), BoardState::Normal);
        assert_eq!(game.current_board().halfmove(), ply as u32 + 1);
    }
    play(&mut game, &[cycle[49 % 4]]);
    assert_eq!(game.current_board().halfmove(), 50);
    assert_eq!(game.board_state(), BoardState::Draw);
    assert!(game.make_move(mv("f3g1")).is_none());
    assert!(game.make_move(mv("e2e4")).is_none());
    assert_eq!(game.get_moves().len(), 50);
}

#[test]
fn undo_gives_back_the_latest_pair() {
    let mut game = Game::new();
    assert!(game.undo_move().is_none());
    assert_eq!(game.get_boards().len(), 1);
    play(&mut game, &["e2e4", "e7e5"]);
    let before = *game.current_board();
    let (board, m) = game.undo_move().unwrap();
    assert_eq!(board, before);
    assert_eq!(m, mv("e7e5"));
    assert_eq!(game.get_moves(), &[mv("e2e4")]);
    assert_eq!(game.get_boards().len(), 2);
    assert_eq!(game.next_player(), Color::Black);
}

#[test]
fn undo_then_replay_is_a_round_trip() {
    let mut game = Game::new();
    play(&mut game, &["e2e4", "c7c5", "g1f3", "d7d6", "f1b5"]);
    let boards = game.get_boards().to_vec();
    let moves = game.get_moves().to_vec();
    let (board, m) = game.undo_move().unwrap();
    assert_eq!(game.make_move(m), Some(&board));
    assert_eq!(game.get_boards(), &boards[..]);
    assert_eq!(game.get_moves(), &moves[..]);
    assert_eq!(game.board_state(), BoardState::Check);
}

#[test]
fn undo_leaves_the_status_as_it_was() {
    let mut game = Game::new();
    play(&mut game, &["f2f3", "e7e5", "g2g4", "d8h4"]);
    assert_eq!(game.board_state(), BoardState::Checkmate);
    let (_, m) = game.undo_move().unwrap();
    assert_eq!(m, mv("d8h4"));
    assert_eq!(game.board_state(), BoardState::Checkmate);
    assert!(game.make_move(m).is_none());
    assert_eq!(game.get_moves().len(), 3);
}

#[test]
fn moves_from_off_the_board_are_rejected() {
    let mut game = Game::new();
    let off = Move::Normal {
        from: SquareSpec { rank: 9, file: 9 },
        to: cell("e4"),
    };
    assert!(game.make_move(off).is_none());
    assert!(game.get_moves().is_empty());
    assert_eq!(game.board_state(), BoardState::Normal);
}

#[test]
fn check_is_reported_before_the_draw() {
    let mut game = Game::new();
    let cycle = ["g1f3", "g8f6", "f3g1", "f6g8"];
    for ply in 0..44 {
        play(&mut game, &[cycle[ply % 4]]);
    }
    play(&mut game, &["b1a3", "b8c6", "a3b1", "c6e5", "b1a3"]);
    assert_eq!(game.current_board().halfmove(), 49);
    assert_eq!(game.board_state(), BoardState::Normal);
    play(&mut game, &["e5d3"]);
    assert_eq!(game.current_board().halfmove(), 50);
    assert!(game.current_board().in_check());
    assert_eq!(game.board_state(), BoardState::Check);
    play(&mut game, &["e2d3"]);
    assert_eq!(game.current_board().halfmove(), 0);
    assert_eq!(game.board_state(), BoardState::Normal);
}
