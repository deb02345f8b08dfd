use chess_engine::board::{Board, SquareSpec};
use chess_engine::piece::{Color, Piece, PieceType};

#[test]
fn parsing_works() {
    let constructed = SquareSpec { rank: 0, file: 0 };
    let parsed = "a1".parse::<SquareSpec>().unwrap();

    assert_eq!(constructed, parsed);
}

#[test]
fn printing_works() {
    let constructed = "a1";
    let printed = SquareSpec { rank: 0, file: 0 }.to_string();

    assert_eq!(&printed, constructed);
}

#[test]
fn squarespec_refers_to_right_square() {
    let d8 = SquareSpec { rank: 7, file: 3 };

    assert_eq!(d8, "d8".parse::<SquareSpec>().unwrap());

    let default_board = Board::default_board();

    assert_eq!(
        default_board[d8],
        Some(Piece {
            piece: PieceType::Queen,
            color: Color::Black
        })
    );
}

#[test]
fn parse_printed_is_noop() {
    let constructed = SquareSpec { rank: 0, file: 0 };
    let parsed = constructed.to_string().parse::<SquareSpec>().unwrap();

    assert_eq!(constructed, parsed);
}
