use chess_engine::board::legal_moves::enumerate_legal_moves;
use chess_engine::board::{Board, Castling, Move, SquareSpec};
use chess_engine::piece::PieceType;
use std::collections::HashSet;

fn square(name: &str) -> SquareSpec {
    name.parse::<SquareSpec>().unwrap()
}

fn to(from: &str, target: &str) -> Move {
    Move::Normal {
        from: square(from),
        to: square(target),
    }
}

fn promotion(from: &str, target: &str, kind: &str) -> Move {
    Move::Promotion {
        from: square(from),
        to: square(target),
        target: kind.parse::<PieceType>().unwrap(),
    }
}

fn all_to(from: &str, targets: &[&str]) -> Vec<Move> {
    targets.iter().map(|target| to(from, target)).collect()
}

fn compare_moves(generated_moves: Vec<Move>, possible_moves: Vec<Move>) {
    let possible = possible_moves.into_iter().collect::<HashSet<_>>();
    let generated = generated_moves.into_iter().collect::<HashSet<_>>();

    let mut found_diff = false;

    for m in possible.symmetric_difference(&generated) {
        found_diff = true;
        if possible.contains(m) {
            println!(
                "move {} should be possible, but wasn't generated",
                m.to_string()
            );
        } else {
            println!(
                "move {} was generated, when it shouldn't be possible",
                m.to_string()
            )
        }
    }
    if found_diff {
        panic!("Found a difference between generated and possible moves");
    }
}

fn basic_test(fen: &str, spot: &str, legal_moves: Vec<Move>) {
    let board = Board::load_fen(fen).unwrap();
    let location = square(spot);
    let piece = board[location].unwrap();
    let moves = enumerate_legal_moves(piece, location, &board, true);

    compare_moves(moves, legal_moves);
}

#[test]
fn get_move_directions_stops_for_same_color() {
    basic_test(
        "rnbqkbnr/pppppppp/8/8/8/8/PPPPPPPP/RNBQKBNR w KQkq - 0 1",
        "a1",
        vec![],
    );
}

#[test]
fn get_move_directions_can_capture() {
    basic_test(
        "8/8/8/3p4/2pRp3/3p4/8/8 w - - 0 1",
        "d4",
        all_to("d4", &["d5", "e4", "d3", "c4"]),
    );
}

#[test]
fn get_move_directions_capture_and_empty() {
    basic_test(
        "8/8/3p4/8/8/B7/8/8 w - - 0 1",
        "a3",
        all_to("a3", &["b2", "c1", "b4", "c5", "d6"]),
    );
}

#[test]
fn pawn_normal() {
    basic_test("8/8/8/8/3P4/8/8/8 w - - 0 1", "d4", all_to("d4", &["d5"]));
}

#[test]
fn pawn_two_steps() {
    basic_test(
        "8/8/8/8/8/8/3P4/8 w - - 0 1",
        "d2",
        all_to("d2", &["d3", "d4"]),
    );
}

#[test]
fn pawn_two_blocked() {
    basic_test(
        "8/8/8/8/3p4/8/3P4/8 w - - 0 1",
        "d2",
        all_to("d2", &["d3"]),
    );
}

#[test]
fn pawn_en_passant() {
    basic_test(
        "8/8/8/5Pp1/8/8/8/8 w - g6 0 1",
        "f5",
        all_to("f5", &["f6", "g6"]),
    );
}

#[test]
fn pawn_promotion() {
    basic_test(
        "8/4P3/8/8/8/8/8/8 w - - 0 1",
        "e7",
        vec![
            promotion("e7", "e8", "B"),
            promotion("e7", "e8", "R"),
            promotion("e7", "e8", "N"),
            promotion("e7", "e8", "Q"),
        ],
    );
}

#[test]
fn pawn_take() {
    basic_test(
        "8/8/4ppp1/5P2/8/8/8/8 w - - 0 1",
        "f5",
        all_to("f5", &["g6", "e6"]),
    );
}

#[test]
fn pawn_all_at_once() {
    basic_test(
        "8/8/4p3/5Pp1/8/8/8/8 w - g6 0 1",
        "f5",
        all_to("f5", &["g6", "f6", "e6"]),
    );
}

#[test]
fn queen() {
    basic_test(
        "8/8/8/8/8/8/1Q6/8 w - - 0 1",
        "b2",
        all_to(
            "b2",
            &[
                "a1", "a2", "a3", "b1", "c1", "c2", "d2", "e2", "f2", "g2", "h2", "c3", "d4",
                "e5", "f6", "g7", "h8", "b3", "b4", "b5", "b6", "b7", "b8",
            ],
        ),
    );
}

#[test]
fn knight() {
    basic_test(
        "8/8/8/8/8/2N5/8/8 w - - 0 1",
        "c3",
        all_to("c3", &["b1", "a2", "a4", "b5", "d5", "e4", "e2", "d1"]),
    );
}

#[test]
fn castling() {
    let mut legal_moves = all_to("e1", &["f1", "d1"]);
    legal_moves.push(Move::Castling(Castling::Short));
    legal_moves.push(Move::Castling(Castling::Long));
    basic_test("8/8/8/8/8/8/3PPP2/R3K2R w KQ - 0 1", "e1", legal_moves);
}

#[test]
fn kings_next_to_each_other() {
    basic_test("8/8/8/8/8/k7/8/K7 w - - 0 1", "a1", all_to("a1", &["b1"]));
}

#[test]
fn king_in_check() {
    basic_test(
        "8/8/8/8/r7/8/8/K7 w - - 0 1",
        "a1",
        all_to("a1", &["b1", "b2"]),
    );
}

#[test]
fn castling_blocked_intermediate() {
    basic_test(
        "8/8/8/5r2/8/8/8/4K2R w K - 0 1",
        "e1",
        all_to("e1", &["d1", "d2", "e2"]),
    );
}

#[test]
fn castling_blocked_final() {
    basic_test(
        "8/8/8/6r1/8/8/8/4K2R w K - 0 1",
        "e1",
        all_to("e1", &["d1", "d2", "e2", "f1", "f2"]),
    );
}

#[test]
fn castling_while_in_check() {
    basic_test(
        "8/8/8/4r3/8/8/8/4K2R w K - 0 1",
        "e1",
        all_to("e1", &["d1", "d2", "f1", "f2"]),
    );
}

#[test]
fn castling_blocked_by_king() {
    basic_test("8/8/8/8/8/8/2kPPP2/R3KB1R w Q - 0 1", "e1", vec![]);
}

#[test]
fn cant_move_pinned_piece() {
    basic_test("8/8/8/8/8/r7/R7/K7 w - - 0 1", "a2", all_to("a2", &["a3"]));
}
