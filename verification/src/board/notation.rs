//! The textual notation of a position: six fields, a space between each two.
//!
//! The first field holds the ranks from the eighth down to the first, a `/`
//! between each two, each rank as the letters of its pieces and digits for
//! runs of empty squares. Then come the side to move, the castling rights,
//! the en-passant target, the halfmove clock and the number of the move.
use vstd::prelude::*;
use super::position::{CastlingFlags, Position};
use super::squarespec::SquareSpec;
use crate::piece::{Color, Piece, PieceType};
use super::squarespec::lemma_square_text_reads_back;
use crate::text::{decimal, digit_char, is_digit, lemma_decimal_reads_back, u32_numeral};

verus! {

/// What one character of a rank's text stands for.
#[derive(Copy, Clone, Debug, PartialEq, Eq, Structural)]
pub enum PieceResult {
    /// The piece of that letter
    Piece(Piece),
    /// That many empty squares
    Empty(u32),
}

/// The parts of a text that a separator divides, in order. A text without
/// the separator is one part; an empty part stands between two separators
/// that follow each other, and at an end where the text starts or ends with
/// one.
pub open spec fn split(s: Seq<char>, sep: char) -> Seq<Seq<char>>
    decreases s.len(),
{
    if s.len() == 0 {
        seq![Seq::<char>::empty()]
    } else {
        let before = split(s.drop_last(), sep);
        if s.last() == sep {
            before.push(Seq::<char>::empty())
        } else {
            before.update(before.len() - 1, before.last().push(s.last()))
        }
    }
}

/// The piece that a letter names: a capital for White, a small letter for
/// Black.
pub open spec fn piece_of_symbol(c: char) -> Option<Piece> {
    if c == 'P' {
        Some(Piece { piece: PieceType::Pawn, color: Color::White })
    } else if c == 'N' {
        Some(Piece { piece: PieceType::Knight, color: Color::White })
    } else if c == 'B' {
        Some(Piece { piece: PieceType::Bishop, color: Color::White })
    } else if c == 'R' {
        Some(Piece { piece: PieceType::Rook, color: Color::White })
    } else if c == 'Q' {
        Some(Piece { piece: PieceType::Queen, color: Color::White })
    } else if c == 'K' {
        Some(Piece { piece: PieceType::King, color: Color::White })
    } else if c == 'p' {
        Some(Piece { piece: PieceType::Pawn, color: Color::Black })
    } else if c == 'n' {
        Some(Piece { piece: PieceType::Knight, color: Color::Black })
    } else if c == 'b' {
        Some(Piece { piece: PieceType::Bishop, color: Color::Black })
    } else if c == 'r' {
        Some(Piece { piece: PieceType::Rook, color: Color::Black })
    } else if c == 'q' {
        Some(Piece { piece: PieceType::Queen, color: Color::Black })
    } else if c == 'k' {
        Some(Piece { piece: PieceType::King, color: Color::Black })
    } else {
        None
    }
}

/// What a character of a rank's text stands for: a digit from 1 to 8 for
/// that many empty squares, a piece letter for its piece, anything else for
/// nothing.
pub open spec fn placement_symbol(c: char) -> Option<PieceResult> {
    if '1' <= c <= '8' {
        Some(PieceResult::Empty((c as int - '0' as int) as u32))
    } else {
        match piece_of_symbol(c) {
            Some(p) => Some(PieceResult::Piece(p)),
            None => None,
        }
    }
}

/// A run of empty squares.
pub open spec fn blanks(n: nat) -> Seq<Option<Piece>> {
    Seq::new(n, |i: int| None)
}

/// The squares that the text of a rank spells out, if every character of it
/// stands for something.
pub open spec fn row_cells(text: Seq<char>) -> Option<Seq<Option<Piece>>>
    decreases text.len(),
{
    if text.len() == 0 {
        Some(Seq::empty())
    } else {
        match (row_cells(text.drop_last()), placement_symbol(text.last())) {
            (Some(cells), Some(PieceResult::Piece(p))) => Some(cells.push(Some(p))),
            (Some(cells), Some(PieceResult::Empty(n))) => Some(cells + blanks(n as nat)),
            _ => None,
        }
    }
}

/// The rank that a text spells out: its squares, if they are exactly eight.
pub open spec fn rank_of(text: Seq<char>) -> Option<Seq<Option<Piece>>> {
    match row_cells(text) {
        Some(cells) => if cells.len() == 8 {
            Some(cells)
        } else {
            None
        },
        None => None,
    }
}

/// The grid that a placement field spells out: eight ranks divided by `/`,
/// the eighth rank first.
pub open spec fn placement(text: Seq<char>) -> Option<Seq<Seq<Option<Piece>>>> {
    let rows = split(text, '/');
    if rows.len() == 8 && (forall|r: int| 0 <= r < 8 ==> rank_of(#[trigger] rows[r]) is Some) {
        Some(Seq::new(8, |r: int| rank_of(rows[7 - r])->0))
    } else {
        None
    }
}

/// The side that a turn field names: exactly `w` or `b`.
pub open spec fn turn_of(text: Seq<char>) -> Option<Color> {
    if text == seq!['w'] {
        Some(Color::White)
    } else if text == seq!['b'] {
        Some(Color::Black)
    } else {
        None
    }
}

/// The rights that a castling field names: each of the letters `K`, `Q`,
/// `k` and `q` that occurs in it stands for its right.
pub open spec fn rights_of(text: Seq<char>) -> CastlingFlags {
    CastlingFlags {
        white_short: text.contains('K'),
        white_long: text.contains('Q'),
        black_short: text.contains('k'),
        black_long: text.contains('q'),
    }
}

/// The target that an en-passant field names: none for `-`, else the square
/// of that name, if it is one.
pub open spec fn target_of(text: Seq<char>) -> Option<Option<SquareSpec>> {
    if text == seq!['-'] {
        Some(None)
    } else {
        match SquareSpec::of_text(text) {
            Some(sq) => Some(Some(sq)),
            None => None,
        }
    }
}

/// The position that a line of notation names, where it names one: the line
/// has at least six fields, and each of the first six but the castling
/// field reads as what it stands for.
pub open spec fn position_of(line: Seq<char>) -> Option<Position> {
    let fields = split(line, ' ');
    if fields.len() >= 6 && placement(fields[0]) is Some && turn_of(fields[1]) is Some
        && target_of(fields[3]) is Some && u32_numeral(fields[4]) is Some && u32_numeral(
        fields[5],
    ) is Some {
        Some(
            Position {
                cells: placement(fields[0])->0,
                turn: turn_of(fields[1])->0,
                castling: rights_of(fields[2]),
                en_passant: target_of(fields[3])->0,
                halfmove: u32_numeral(fields[4])->0 as nat,
                fullmove: u32_numeral(fields[5])->0 as nat,
            },
        )
    } else {
        None
    }
}

/// The digit of a run of empty squares; nothing for no run.
pub open spec fn run_text(run: int) -> Seq<char> {
    if run > 0 {
        seq![digit_char(run as nat)]
    } else {
        Seq::empty()
    }
}

/// The text of a rank from its square `i` on, with `run` empty squares
/// before it still to be written.
pub open spec fn row_text_from(row: Seq<Option<Piece>>, i: int, run: int) -> Seq<char>
    decreases row.len() - i,
{
    if i >= row.len() {
        run_text(run)
    } else {
        match row[i] {
            Some(p) => run_text(run) + seq![p.symbol()] + row_text_from(row, i + 1, 0),
            None => row_text_from(row, i + 1, run + 1),
        }
    }
}

/// The text of a rank: the letters of its pieces, each run of empty squares
/// as its length.
pub open spec fn row_text(row: Seq<Option<Piece>>) -> Seq<char> {
    row_text_from(row, 0, 0)
}

/// The text of the `n` highest ranks, the eighth first, with a `/` between
/// each two.
pub open spec fn placement_text(cells: Seq<Seq<Option<Piece>>>, n: nat) -> Seq<char>
    decreases n,
{
    if n == 0 {
        Seq::empty()
    } else if n == 1 {
        row_text(cells[7])
    } else {
        placement_text(cells, (n - 1) as nat).push('/') + row_text(cells[8 - n])
    }
}

/// The text of the castling rights: of `K`, `Q`, `k` and `q`, in this
/// order, the letters of the rights that are held.
pub open spec fn rights_text(rights: CastlingFlags) -> Seq<char> {
    (if rights.white_short {
        seq!['K']
    } else {
        Seq::empty()
    }) + (if rights.white_long {
        seq!['Q']
    } else {
        Seq::empty()
    }) + (if rights.black_short {
        seq!['k']
    } else {
        Seq::empty()
    }) + (if rights.black_long {
        seq!['q']
    } else {
        Seq::empty()
    })
}

/// The text of the en-passant target: the name of the square, or `-`.
pub open spec fn target_text(target: Option<SquareSpec>) -> Seq<char> {
    match target {
        Some(sq) => sq.text(),
        None => seq!['-'],
    }
}

/// The letter of the side to move.
pub open spec fn turn_text(turn: Color) -> Seq<char> {
    match turn {
        Color::White => seq!['w'],
        Color::Black => seq!['b'],
    }
}

/// The line of notation of a position.
pub open spec fn position_text(pos: Position) -> Seq<char> {
    ((((placement_text(pos.cells, 8).push(' ') + turn_text(pos.turn)).push(' ') + rights_text(
        pos.castling,
    )).push(' ') + target_text(pos.en_passant)).push(' ') + decimal(pos.halfmove)).push(' ')
        + decimal(pos.fullmove)
}


/// A text without the separator is one part.
pub proof fn lemma_split_plain(s: Seq<char>, sep: char)
    requires
        !s.contains(sep),
    ensures
        split(s, sep) == seq![s],
    decreases s.len(),
{
    if s.len() > 0 {
        let front = s.drop_last();
        assert forall|i: int| 0 <= i < front.len() implies front[i] != sep by {
            assert(s[i] == front[i]);
            assert(s.contains(s[i]));
        }
        assert(!front.contains(sep));
        lemma_split_plain(front, sep);
        assert(s.contains(s.last()));
        assert(front.push(s.last()) =~= s);
        assert(split(s, sep) =~= seq![s]);
    } else {
        assert(s =~= Seq::<char>::empty());
    }
}

/// Every text has at least one part.
pub proof fn lemma_split_nonempty(s: Seq<char>, sep: char)
    ensures
        split(s, sep).len() >= 1,
    decreases s.len(),
{
    if s.len() > 0 {
        lemma_split_nonempty(s.drop_last(), sep);
    }
}

/// The parts of two texts joined by the separator are the parts of the one,
/// then the parts of the other.
pub proof fn lemma_split_joined(a: Seq<char>, b: Seq<char>, sep: char)
    ensures
        split(a.push(sep) + b, sep) == split(a, sep) + split(b, sep),
    decreases b.len(),
{
    let whole = a.push(sep) + b;
    lemma_split_nonempty(a, sep);
    if b.len() == 0 {
        assert(whole =~= a.push(sep));
        assert(whole.drop_last() =~= a);
        assert(split(whole, sep) =~= split(a, sep) + split(b, sep));
    } else {
        let front = b.drop_last();
        lemma_split_joined(a, front, sep);
        lemma_split_nonempty(front, sep);
        assert(whole.drop_last() =~= a.push(sep) + front);
        assert(whole.last() == b.last());
        assert(split(whole, sep) =~= split(a, sep) + split(b, sep));
    }
}

/// A text without the separator, joined to another by the separator, is the
/// last part of the whole.
pub proof fn lemma_split_field(a: Seq<char>, b: Seq<char>, sep: char)
    requires
        !b.contains(sep),
    ensures
        split(a.push(sep) + b, sep) == split(a, sep).push(b),
{
    lemma_split_joined(a, b, sep);
    lemma_split_plain(b, sep);
    assert(split(a, sep) + seq![b] =~= split(a, sep).push(b));
}

/// The letter of a piece reads back as the piece, and is neither a space
/// nor a `/`.
pub proof fn lemma_symbol_reads_back(p: Piece)
    ensures
        placement_symbol(p.symbol()) == Some(PieceResult::Piece(p)),
        p.symbol() != ' ',
        p.symbol() != '/',
{
}

/// The squares that a text with one more character spells out.
pub proof fn lemma_row_cells_push(text: Seq<char>, c: char)
    ensures
        row_cells(text.push(c)) == match (row_cells(text), placement_symbol(c)) {
            (Some(cells), Some(PieceResult::Piece(p))) => Some(cells.push(Some(p))),
            (Some(cells), Some(PieceResult::Empty(n))) => Some(cells + blanks(n as nat)),
            _ => None,
        },
{
    assert(text.push(c).drop_last() =~= text);
}

/// The text of the rest of a rank, after a text that spells out the squares
/// before it, makes a text that spells out the rank.
pub proof fn lemma_row_reads_back(row: Seq<Option<Piece>>, pre: Seq<char>, i: int, run: int)
    requires
        0 <= run <= i <= row.len() <= 8,
        row_cells(pre) == Some(row.take(i - run)),
        forall|j: int| i - run <= j < i ==> row[j] is None,
    ensures
        row_cells(pre + row_text_from(row, i, run)) == Some(row),
    decreases row.len() - i,
{
    let flushed = pre + run_text(run);
    assert(row_cells(flushed) == Some(row.take(i))) by {
        if run > 0 {
            let digit = digit_char(run as nat);
            assert(flushed =~= pre.push(digit));
            lemma_row_cells_push(pre, digit);
            assert(placement_symbol(digit) == Some(PieceResult::Empty(run as u32)));
            assert(row.take(i - run) + blanks(run as nat) =~= row.take(i));
        } else {
            assert(flushed =~= pre);
        }
    }
    if i >= row.len() {
        assert(row.take(i) =~= row);
    } else {
        match row[i] {
            Some(p) => {
                let next = flushed.push(p.symbol());
                lemma_row_cells_push(flushed, p.symbol());
                lemma_symbol_reads_back(p);
                assert(row.take(i).push(Some(p)) =~= row.take(i + 1));
                lemma_row_reads_back(row, next, i + 1, 0);
                assert(pre + row_text_from(row, i, run) =~= next + row_text_from(row, i + 1, 0));
            },
            None => {
                lemma_row_reads_back(row, pre, i + 1, run + 1);
            },
        }
    }
}

/// The text of a rank holds neither a space nor a `/`.
pub proof fn lemma_row_text_plain(row: Seq<Option<Piece>>, i: int, run: int)
    requires
        0 <= run <= i <= row.len() <= 8,
    ensures
        !row_text_from(row, i, run).contains(' '),
        !row_text_from(row, i, run).contains('/'),
    decreases row.len() - i,
{
    let text = row_text_from(row, i, run);
    if i < row.len() {
        match row[i] {
            Some(p) => {
                lemma_row_text_plain(row, i + 1, 0);
                lemma_symbol_reads_back(p);
                let rest = row_text_from(row, i + 1, 0);
                assert forall|k: int| 0 <= k < text.len() implies text[k] != ' ' && text[k]
                    != '/' by {
                    let head = run_text(run) + seq![p.symbol()];
                    if k >= head.len() {
                        assert(text[k] == rest[k - head.len()]);
                        assert(rest.contains(rest[k - head.len()]));
                    }
                }
            },
            None => {
                lemma_row_text_plain(row, i + 1, run + 1);
            },
        }
    }
}

/// The text of the `n` highest ranks holds no space, and its parts between
/// the `/` are the texts of those ranks.
pub proof fn lemma_placement_parts(cells: Seq<Seq<Option<Piece>>>, n: nat)
    requires
        cells.len() == 8,
        forall|r: int| 0 <= r < 8 ==> (#[trigger] cells[r]).len() == 8,
        1 <= n <= 8,
    ensures
        !placement_text(cells, n).contains(' '),
        split(placement_text(cells, n), '/') == Seq::new(n, |k: int| row_text(cells[7 - k])),
    decreases n,
{
    let text = placement_text(cells, n);
    let row = row_text(cells[8 - n]);
    lemma_row_text_plain(cells[8 - n], 0, 0);
    if n == 1 {
        lemma_split_plain(row, '/');
        assert(split(text, '/') =~= Seq::new(n, |k: int| row_text(cells[7 - k])));
    } else {
        let before = placement_text(cells, (n - 1) as nat);
        lemma_placement_parts(cells, (n - 1) as nat);
        lemma_split_field(before, row, '/');
        assert(split(text, '/') =~= Seq::new(n, |k: int| row_text(cells[7 - k])));
        assert forall|k: int| 0 <= k < text.len() implies text[k] != ' ' by {
            if k < before.len() {
                assert(before.contains(before[k]));
            } else if k > before.len() {
                assert(row.contains(row[k - before.len() - 1]));
            }
        }
    }
}

/// The placement field of a grid reads back as the grid.
pub proof fn lemma_placement_reads_back(cells: Seq<Seq<Option<Piece>>>)
    requires
        cells.len() == 8,
        forall|r: int| 0 <= r < 8 ==> (#[trigger] cells[r]).len() == 8,
    ensures
        placement(placement_text(cells, 8)) == Some(cells),
        !placement_text(cells, 8).contains(' '),
{
    lemma_placement_parts(cells, 8);
    let rows = split(placement_text(cells, 8), '/');
    assert forall|r: int| 0 <= r < 8 implies rank_of(#[trigger] rows[r]) == Some(cells[7 - r]) by {
        let row = cells[7 - r];
        assert(row.take(0) =~= Seq::<Option<Piece>>::empty());
        lemma_row_reads_back(row, Seq::<char>::empty(), 0, 0);
        assert(Seq::<char>::empty() + row_text_from(row, 0, 0) =~= row_text(row));
    }
    assert(placement(placement_text(cells, 8))->0 =~= cells);
}

/// The castling field of the rights reads back as the rights, and holds no
/// space.
pub proof fn lemma_rights_read_back(rights: CastlingFlags)
    ensures
        rights_of(rights_text(rights)) == rights,
        !rights_text(rights).contains(' '),
{
    let text = rights_text(rights);
    let a: Seq<char> = if rights.white_short { seq!['K'] } else { Seq::empty() };
    let b: Seq<char> = if rights.white_long { seq!['Q'] } else { Seq::empty() };
    let c: Seq<char> = if rights.black_short { seq!['k'] } else { Seq::empty() };
    let d: Seq<char> = if rights.black_long { seq!['q'] } else { Seq::empty() };
    assert(text == a + b + c + d);
    if rights.white_short {
        assert(text[0] == 'K');
    }
    if rights.white_long {
        assert(text[a.len() as int] == 'Q');
    }
    if rights.black_short {
        assert(text[(a.len() + b.len()) as int] == 'k');
    }
    if rights.black_long {
        assert(text[(a.len() + b.len() + c.len()) as int] == 'q');
    }
    assert forall|k: int| 0 <= k < text.len() implies {
        &&& (text[k] == 'K' ==> rights.white_short)
        &&& (text[k] == 'Q' ==> rights.white_long)
        &&& (text[k] == 'k' ==> rights.black_short)
        &&& (text[k] == 'q' ==> rights.black_long)
        &&& text[k] != ' '
    } by {
        if k < a.len() {
            assert(text[k] == a[k]);
        } else if k < a.len() + b.len() {
            assert(text[k] == b[k - a.len()]);
        } else if k < a.len() + b.len() + c.len() {
            assert(text[k] == c[k - a.len() - b.len()]);
        } else {
            assert(text[k] == d[k - a.len() - b.len() - c.len()]);
        }
    }
}

/// Reading the notation of a position gives the position back: for every
/// position whose grid is eight by eight, whose counters fit 32 bits and
/// whose en-passant target, if it has one, is a square of the board.
pub proof fn lemma_notation_round_trip(pos: Position)
    requires
        pos.wf(),
        pos.fits(),
        pos.en_passant matches Some(sq) ==> sq.wf(),
    ensures
        position_of(position_text(pos)) == Some(pos),
{
    let f0 = placement_text(pos.cells, 8);
    let f1 = turn_text(pos.turn);
    let f2 = rights_text(pos.castling);
    let f3 = target_text(pos.en_passant);
    let f4 = decimal(pos.halfmove);
    let f5 = decimal(pos.fullmove);
    lemma_placement_reads_back(pos.cells);
    lemma_rights_read_back(pos.castling);
    lemma_decimal_reads_back(pos.halfmove);
    lemma_decimal_reads_back(pos.fullmove);
    if let Some(sq) = pos.en_passant {
        lemma_square_text_reads_back(sq);
    }
    assert(!f1.contains(' ')) by {
        assert forall|k: int| 0 <= k < f1.len() implies f1[k] != ' ' by {}
    }
    assert(!f3.contains(' ')) by {
        assert forall|k: int| 0 <= k < f3.len() implies f3[k] != ' ' by {}
    }
    assert(!f4.contains(' ')) by {
        assert forall|k: int| 0 <= k < f4.len() implies f4[k] != ' ' by {
            assert(is_digit(f4[k]));
        }
    }
    assert(!f5.contains(' ')) by {
        assert forall|k: int| 0 <= k < f5.len() implies f5[k] != ' ' by {
            assert(is_digit(f5[k]));
        }
    }
    let t1 = f0.push(' ') + f1;
    let t2 = t1.push(' ') + f2;
    let t3 = t2.push(' ') + f3;
    let t4 = t3.push(' ') + f4;
    let t5 = t4.push(' ') + f5;
    lemma_split_plain(f0, ' ');
    lemma_split_field(f0, f1, ' ');
    lemma_split_field(t1, f2, ' ');
    lemma_split_field(t2, f3, ' ');
    lemma_split_field(t3, f4, ' ');
    lemma_split_field(t4, f5, ' ');
    let fields = split(position_text(pos), ' ');
    assert(position_text(pos) == t5);
    assert(fields =~= seq![f0, f1, f2, f3, f4, f5]);
    assert(turn_of(f1) == Some(pos.turn));
    assert(target_of(f3) == Some(pos.en_passant)) by {
        if let Some(sq) = pos.en_passant {
            assert(f3.len() == 2);
            assert(seq!['-'].len() == 1);
        }
    }
    assert(u32_numeral(f4) == Some(pos.halfmove as u32));
    assert(u32_numeral(f5) == Some(pos.fullmove as u32));
}


/// The position that a line names is sound, and its counters fit 32 bits.
pub proof fn lemma_read_position_sound(line: Seq<char>)
    requires
        position_of(line) is Some,
    ensures
        position_of(line)->0.sound(),
        position_of(line)->0.fits(),
{
    let fields = split(line, ' ');
    let pos = position_of(line)->0;
    let rows = split(fields[0], '/');
    assert forall|r: int| 0 <= r < 8 implies (#[trigger] pos.cells[r]).len() == 8 by {
        assert(rank_of(rows[7 - r]) is Some);
    }
}

} // verus!
