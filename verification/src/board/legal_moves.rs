//! The legal-move generator: the geometry of each kind of piece, castling,
//! and the filter that drops what would leave the king attacked.
use vstd::prelude::*;
use super::move_types::{Castling, Move};
use super::position::Position;
use super::rules::{
    far_rank, king_of, king_step, knight_jump, pawn_advance, pawn_ahead, pawn_diagonal,
    pawn_double, promotable, strictly_between,
};
use super::squarespec::{magnitude, signum, SquareDiff, SquareSpec};
use super::Board;
use crate::piece::{Color, Piece, PieceType};

verus! {

/// A single step in one of the eight directions.
pub open spec fn is_step(d: SquareDiff) -> bool {
    &&& -1 <= d.d_rank <= 1
    &&& -1 <= d.d_file <= 1
    &&& !(d.d_rank == 0 && d.d_file == 0)
}

/// `to` lies on the ray that leaves `from` in the direction of the step `d`.
pub open spec fn on_ray(from: SquareSpec, d: SquareDiff, to: SquareSpec) -> bool {
    &&& signum(to.rank - from.rank) == d.d_rank
    &&& signum(to.file - from.file) == d.d_file
    &&& (d.d_rank != 0 && d.d_file != 0 ==> magnitude(to.rank - from.rank) == magnitude(
        to.file - from.file,
    ))
}

/// The number of king steps between two squares.
pub open spec fn distance(from: SquareSpec, to: SquareSpec) -> int {
    let dr = magnitude(to.rank - from.rank);
    let df = magnitude(to.file - from.file);
    if dr >= df {
        dr
    } else {
        df
    }
}

/// `k` times a component of a step.
pub open spec fn scale(k: int, unit: int) -> int {
    if unit > 0 {
        k
    } else if unit < 0 {
        -k
    } else {
        0
    }
}

impl Position {
    /// A sliding piece of `color` on `from` reaches `to` along the step `d`:
    /// `to` lies on that ray, nothing stands between, and no piece of
    /// `color` stands on `to`.
    pub open spec fn slides(self, color: Color, from: SquareSpec, d: SquareDiff, to: SquareSpec) -> bool {
        &&& to.wf()
        &&& on_ray(from, d, to)
        &&& self.clear_between(from, to)
        &&& !self.friendly(color, to)
    }

    /// A sliding piece of `color` on `from` reaches `to` along one of the
    /// first `n` of the steps `dirs`.
    pub open spec fn slides_any(
        self,
        color: Color,
        from: SquareSpec,
        dirs: Seq<SquareDiff>,
        n: int,
        to: SquareSpec,
    ) -> bool {
        exists|i: int| 0 <= i < n && #[trigger] self.slides(color, from, dirs[i], to)
    }
}

/// Where a square of a ray lies, by its distance.
pub proof fn lemma_ray_point(from: SquareSpec, d: SquareDiff, to: SquareSpec)
    requires
        is_step(d),
        on_ray(from, d, to),
    ensures
        distance(from, to) >= 1,
        to.rank == from.rank + scale(distance(from, to), d.d_rank as int),
        to.file == from.file + scale(distance(from, to), d.d_file as int),
{
}

/// The square at a distance along a ray lies on the ray.
pub proof fn lemma_point_on_ray(from: SquareSpec, d: SquareDiff, to: SquareSpec, k: int)
    requires
        is_step(d),
        k >= 1,
        to.rank == from.rank + scale(k, d.d_rank as int),
        to.file == from.file + scale(k, d.d_file as int),
    ensures
        on_ray(from, d, to),
        distance(from, to) == k,
{
}

/// What lies strictly between the start of a ray and one of its squares lies
/// on the ray, nearer to the start.
pub proof fn lemma_between_on_ray(from: SquareSpec, d: SquareDiff, mid: SquareSpec, to: SquareSpec)
    requires
        is_step(d),
        on_ray(from, d, to),
        strictly_between(from, mid, to),
    ensures
        on_ray(from, d, mid),
        distance(from, mid) < distance(from, to),
{
}

/// Of two squares of a ray, the nearer lies strictly between the start and
/// the farther.
pub proof fn lemma_nearer_is_between(from: SquareSpec, d: SquareDiff, mid: SquareSpec, to: SquareSpec)
    requires
        is_step(d),
        on_ray(from, d, mid),
        on_ray(from, d, to),
        distance(from, mid) < distance(from, to),
    ensures
        strictly_between(from, mid, to),
{
}

/// Appends an item; the vector then holds what it held and the item.
pub fn record<T>(v: &mut Vec<T>, item: T)
    ensures
        final(v)@ == old(v)@.push(item),
        forall|x: T| final(v)@.contains(x) <==> old(v)@.contains(x) || x == item,
{
    v.push(item);
    proof {
        let before = old(v)@;
        let after = v@;
        assert forall|x: T| after.contains(x) <==> before.contains(x) || x == item by {
            if before.contains(x) {
                let i = choose|i: int| 0 <= i < before.len() && before[i] == x;
                assert(after[i] == x);
            }
            if x == item {
                assert(after[before.len() as int] == x);
            }
            if after.contains(x) {
                let i = choose|i: int| 0 <= i < after.len() && after[i] == x;
                if i < before.len() {
                    assert(before[i] == x);
                }
            }
        }
    }
}

/// The squares that a sliding piece of `piece_col` on `orig_sq` reaches
/// along the given single steps: along each, the empty squares up to the
/// edge or the first piece, and the square of that piece where it is of the
/// other color.
pub fn get_moves_directions(
    piece_col: Color,
    board: &Board,
    orig_sq: SquareSpec,
    directions: &[SquareDiff],
) -> (moves: Vec<SquareSpec>)
    requires
        orig_sq.wf(),
        forall|i: int| 0 <= i < directions@.len() ==> is_step(#[trigger] directions@[i]),
    ensures
        forall|to: SquareSpec|
            #![trigger moves@.contains(to)]
            moves@.contains(to) <==> board@.slides_any(
                piece_col,
                orig_sq,
                directions@,
                directions@.len() as int,
                to,
            ),
{
    let mut moves: Vec<SquareSpec> = Vec::new();
    let ghost pos = board@;
    proof {
        board.lemma_view();
    }
    let mut di: usize = 0;
    while di < directions.len()
        invariant
            di <= directions.len(),
            orig_sq.wf(),
            pos == board@,
            pos.wf(),
            forall|i: int| 0 <= i < directions@.len() ==> is_step(#[trigger] directions@[i]),
            forall|to: SquareSpec|
                #![trigger moves@.contains(to)]
                moves@.contains(to) <==> pos.slides_any(piece_col, orig_sq, directions@, di as int, to),
        decreases directions.len() - di,
    {
        let d = directions[di];
        let ghost before = moves@;
        let mut sq_i = orig_sq;
        let ghost mut k: int = 0;
        loop
            invariant_except_break
                0 <= k <= 7,
                sq_i.rank == orig_sq.rank + scale(k, d.d_rank as int),
                sq_i.file == orig_sq.file + scale(k, d.d_file as int),
                forall|mid: SquareSpec|
                    mid.wf() && #[trigger] on_ray(orig_sq, d, mid) && distance(orig_sq, mid) <= k
                        ==> pos.at(mid) is None,
                forall|to: SquareSpec|
                    #![trigger moves@.contains(to)]
                    moves@.contains(to) <==> before.contains(to) || (to.wf() && on_ray(
                        orig_sq,
                        d,
                        to,
                    ) && distance(orig_sq, to) <= k),
            invariant
                orig_sq.wf(),
                sq_i.wf(),
                is_step(d),
                pos == board@,
                pos.wf(),
            ensures
                forall|to: SquareSpec|
                    #![trigger moves@.contains(to)]
                    moves@.contains(to) <==> before.contains(to) || pos.slides(
                        piece_col,
                        orig_sq,
                        d,
                        to,
                    ),
            decreases 8 - k,
        {
            match sq_i.checked_add(d) {
                None => {
                    proof {
                        assert forall|to: SquareSpec|
                            #![trigger moves@.contains(to)]
                            moves@.contains(to) <==> before.contains(to) || pos.slides(
                                piece_col,
                                orig_sq,
                                d,
                                to,
                            ) by {
                            lemma_edge(pos, piece_col, orig_sq, d, k, to);
                        }
                    }
                    break ;
                },
                Some(sq) => {
                    sq_i = sq;
                    proof {
                        lemma_point_on_ray(orig_sq, d, sq, k + 1);
                    }
                    match board[sq_i] {
                        Some(p) => {
                            if p.color == piece_col {
                                proof {
                                    assert forall|to: SquareSpec|
                                        #![trigger moves@.contains(to)]
                                        moves@.contains(to) <==> before.contains(to) || pos.slides(
                                            piece_col,
                                            orig_sq,
                                            d,
                                            to,
                                        ) by {
                                        lemma_blocker(pos, piece_col, orig_sq, d, k, sq, to);
                                    }
                                }
                                break ;
                            } else {
                                record(&mut moves, sq_i);
                                proof {
                                    assert forall|to: SquareSpec|
                                        #![trigger moves@.contains(to)]
                                        moves@.contains(to) <==> before.contains(to) || pos.slides(
                                            piece_col,
                                            orig_sq,
                                            d,
                                            to,
                                        ) by {
                                        lemma_blocker(pos, piece_col, orig_sq, d, k, sq, to);
                                    }
                                }
                                break ;
                            }
                        },
                        None => {
                            record(&mut moves, sq_i);
                            proof {
                                assert forall|mid: SquareSpec|
                                    mid.wf() && #[trigger] on_ray(orig_sq, d, mid) && distance(
                                        orig_sq,
                                        mid,
                                    ) <= k + 1 implies pos.at(mid) is None by {
                                    if distance(orig_sq, mid) == k + 1 {
                                        lemma_ray_point(orig_sq, d, mid);
                                        assert(mid == sq);
                                    }
                                }
                                assert forall|to: SquareSpec|
                                    #![trigger moves@.contains(to)]
                                    moves@.contains(to) <==> before.contains(to) || (to.wf()
                                        && on_ray(orig_sq, d, to) && distance(orig_sq, to) <= k
                                        + 1) by {
                                    if to.wf() && on_ray(orig_sq, d, to) && distance(orig_sq, to)
                                        == k + 1 {
                                        lemma_ray_point(orig_sq, d, to);
                                        assert(to == sq);
                                    }
                                }
                                k = k + 1;
                            }
                        },
                    }
                },
            }
        }
        proof {
            assert forall|to: SquareSpec|
                #![trigger moves@.contains(to)]
                moves@.contains(to) <==> pos.slides_any(
                    piece_col,
                    orig_sq,
                    directions@,
                    di + 1,
                    to,
                ) by {
                if pos.slides(piece_col, orig_sq, d, to) {
                    assert(pos.slides(piece_col, orig_sq, directions@[di as int], to));
                }
                if pos.slides_any(piece_col, orig_sq, directions@, di + 1, to) {
                    let i = choose|i: int|
                        0 <= i < di + 1 && #[trigger] pos.slides(
                            piece_col,
                            orig_sq,
                            directions@[i],
                            to,
                        );
                    if i < di {
                        assert(pos.slides_any(piece_col, orig_sq, directions@, di as int, to));
                    }
                }
            }
        }
        di += 1;
    }
    moves
}

/// Where the ray leaves the board after `k` squares, all of them empty, a
/// sliding piece reaches just those `k`.
proof fn lemma_edge(pos: Position, color: Color, from: SquareSpec, d: SquareDiff, k: int, to: SquareSpec)
    requires
        pos.wf(),
        from.wf(),
        is_step(d),
        0 <= k,
        !(0 <= from.rank + scale(k + 1, d.d_rank as int) <= 7 && 0 <= from.file + scale(
            k + 1,
            d.d_file as int,
        ) <= 7),
        forall|mid: SquareSpec|
            mid.wf() && #[trigger] on_ray(from, d, mid) && distance(from, mid) <= k ==> pos.at(mid) is None,
    ensures
        pos.slides(color, from, d, to) <==> (to.wf() && on_ray(from, d, to) && distance(from, to)
            <= k),
{
    if to.wf() && on_ray(from, d, to) {
        lemma_ray_point(from, d, to);
        if distance(from, to) <= k {
            assert forall|mid: SquareSpec|
                mid.wf() && #[trigger] strictly_between(from, mid, to) implies pos.at(mid) is None by {
                lemma_between_on_ray(from, d, mid, to);
            }
        }
    }
}

/// Where the square `blocker`, `k + 1` along the ray, is the first that
/// holds a piece, a sliding piece reaches the `k` squares before it, and the
/// square itself unless the piece is of its own color.
proof fn lemma_blocker(
    pos: Position,
    color: Color,
    from: SquareSpec,
    d: SquareDiff,
    k: int,
    blocker: SquareSpec,
    to: SquareSpec,
)
    requires
        pos.wf(),
        from.wf(),
        is_step(d),
        0 <= k,
        blocker.wf(),
        on_ray(from, d, blocker),
        distance(from, blocker) == k + 1,
        pos.at(blocker) is Some,
        forall|mid: SquareSpec|
            mid.wf() && #[trigger] on_ray(from, d, mid) && distance(from, mid) <= k ==> pos.at(mid) is None,
    ensures
        pos.slides(color, from, d, to) <==> ((to.wf() && on_ray(from, d, to) && distance(from, to)
            <= k) || (to == blocker && !pos.friendly(color, blocker))),
{
    if to.wf() && on_ray(from, d, to) {
        lemma_ray_point(from, d, to);
        lemma_ray_point(from, d, blocker);
        if distance(from, to) <= k + 1 {
            assert forall|mid: SquareSpec|
                mid.wf() && #[trigger] strictly_between(from, mid, to) implies pos.at(mid) is None by {
                lemma_between_on_ray(from, d, mid, to);
            }
            if distance(from, to) == k + 1 {
                assert(to == blocker);
            }
        } else {
            lemma_nearer_is_between(from, d, blocker, to);
            assert(strictly_between(from, blocker, to));
        }
    }
}


/// The four steps along ranks and files.
pub open spec fn axis_steps() -> Seq<SquareDiff> {
    seq![
        SquareDiff { d_rank: 0, d_file: 1 },
        SquareDiff { d_rank: 1, d_file: 0 },
        SquareDiff { d_rank: 0, d_file: -1i32 },
        SquareDiff { d_rank: -1i32, d_file: 0 },
    ]
}

/// The four steps along diagonals.
pub open spec fn diagonal_steps() -> Seq<SquareDiff> {
    seq![
        SquareDiff { d_rank: 1, d_file: 1 },
        SquareDiff { d_rank: 1, d_file: -1i32 },
        SquareDiff { d_rank: -1i32, d_file: 1 },
        SquareDiff { d_rank: -1i32, d_file: -1i32 },
    ]
}

/// The eight jumps of a knight.
pub open spec fn knight_hops() -> Seq<SquareDiff> {
    seq![
        SquareDiff { d_rank: 2, d_file: 1 },
        SquareDiff { d_rank: 2, d_file: -1i32 },
        SquareDiff { d_rank: -2i32, d_file: 1 },
        SquareDiff { d_rank: -2i32, d_file: -1i32 },
        SquareDiff { d_rank: 1, d_file: 2 },
        SquareDiff { d_rank: 1, d_file: -2i32 },
        SquareDiff { d_rank: -1i32, d_file: 2 },
        SquareDiff { d_rank: -1i32, d_file: -2i32 },
    ]
}

/// The four steps along ranks and files.
pub fn axes() -> (d: [SquareDiff; 4])
    ensures
        d@ == axis_steps(),
{
    let d = [
        SquareDiff { d_rank: 0, d_file: 1 },
        SquareDiff { d_rank: 1, d_file: 0 },
        SquareDiff { d_rank: 0, d_file: -1 },
        SquareDiff { d_rank: -1, d_file: 0 },
    ];
    assert(d@ =~= axis_steps());
    d
}

/// The four steps along diagonals.
pub fn diagonals() -> (d: [SquareDiff; 4])
    ensures
        d@ == diagonal_steps(),
{
    let d = [
        SquareDiff { d_rank: 1, d_file: 1 },
        SquareDiff { d_rank: 1, d_file: -1 },
        SquareDiff { d_rank: -1, d_file: 1 },
        SquareDiff { d_rank: -1, d_file: -1 },
    ];
    assert(d@ =~= diagonal_steps());
    d
}

/// All eight steps: those along ranks and files, then those along diagonals.
pub fn compass() -> (d: [SquareDiff; 8])
    ensures
        d@ == axis_steps() + diagonal_steps(),
{
    let d = [
        SquareDiff { d_rank: 0, d_file: 1 },
        SquareDiff { d_rank: 1, d_file: 0 },
        SquareDiff { d_rank: 0, d_file: -1 },
        SquareDiff { d_rank: -1, d_file: 0 },
        SquareDiff { d_rank: 1, d_file: 1 },
        SquareDiff { d_rank: 1, d_file: -1 },
        SquareDiff { d_rank: -1, d_file: 1 },
        SquareDiff { d_rank: -1, d_file: -1 },
    ];
    assert(d@ =~= axis_steps() + diagonal_steps());
    d
}

impl Position {
    /// A piece of `color` on `from` lands on `to` by the offset `d`: `to` is
    /// on the board and holds no piece of `color`.
    pub open spec fn hops(self, color: Color, from: SquareSpec, d: SquareDiff, to: SquareSpec) -> bool {
        from.shifted(d) == Some(to) && !self.friendly(color, to)
    }

    /// A piece of `color` on `from` lands on `to` by one of the first `n` of
    /// the offsets `deltas`.
    pub open spec fn hops_any(
        self,
        color: Color,
        from: SquareSpec,
        deltas: Seq<SquareDiff>,
        n: int,
        to: SquareSpec,
    ) -> bool {
        exists|i: int| 0 <= i < n && #[trigger] self.hops(color, from, deltas[i], to)
    }
}

/// The squares on which a piece of `color` on `orig_sq` lands by one of the
/// given offsets: those on the board that hold no piece of `color`.
pub fn step_targets(color: Color, board: &Board, orig_sq: SquareSpec, deltas: &[SquareDiff]) -> (moves:
    Vec<SquareSpec>)
    requires
        orig_sq.wf(),
    ensures
        forall|to: SquareSpec|
            #![trigger moves@.contains(to)]
            moves@.contains(to) <==> board@.hops_any(
                color,
                orig_sq,
                deltas@,
                deltas@.len() as int,
                to,
            ),
{
    let mut moves: Vec<SquareSpec> = Vec::new();
    let ghost pos = board@;
    let mut i: usize = 0;
    while i < deltas.len()
        invariant
            i <= deltas.len(),
            orig_sq.wf(),
            pos == board@,
            forall|to: SquareSpec|
                #![trigger moves@.contains(to)]
                moves@.contains(to) <==> pos.hops_any(color, orig_sq, deltas@, i as int, to),
        decreases deltas.len() - i,
    {
        let d = deltas[i];
        let ghost before = moves@;
        let mut landed: Option<SquareSpec> = None;
        if let Some(sq) = orig_sq.checked_add(d) {
            let blocked = match board[sq] {
                Some(p) => p.color == color,
                None => false,
            };
            if !blocked {
                record(&mut moves, sq);
                landed = Some(sq);
            }
        }
        proof {
            assert forall|to: SquareSpec|
                #![trigger moves@.contains(to)]
                moves@.contains(to) <==> pos.hops_any(color, orig_sq, deltas@, i + 1, to) by {
                if pos.hops(color, orig_sq, d, to) {
                    assert(pos.hops(color, orig_sq, deltas@[i as int], to));
                    assert(landed == Some(to));
                }
                if pos.hops_any(color, orig_sq, deltas@, i + 1, to) {
                    let j = choose|j: int|
                        0 <= j < i + 1 && #[trigger] pos.hops(color, orig_sq, deltas@[j], to);
                    if j < i {
                        assert(pos.hops_any(color, orig_sq, deltas@, i as int, to));
                    }
                }
            }
        }
        i += 1;
    }
    moves
}

/// The jumps of a knight cover what `knight_jump` describes, and no more.
pub proof fn lemma_knight_hops(pos: Position, color: Color, from: SquareSpec, to: SquareSpec)
    requires
        from.wf(),
    ensures
        pos.hops_any(color, from, knight_hops(), 8, to) <==> (to.wf() && knight_jump(from, to)
            && !pos.friendly(color, to)),
{
    let hops = knight_hops();
    if to.wf() && knight_jump(from, to) && !pos.friendly(color, to) {
        let dr = to.rank - from.rank;
        let df = to.file - from.file;
        let i: int = if dr == 2 && df == 1 {
            0
        } else if dr == 2 && df == -1 {
            1
        } else if dr == -2 && df == 1 {
            2
        } else if dr == -2 && df == -1 {
            3
        } else if dr == 1 && df == 2 {
            4
        } else if dr == 1 && df == -2 {
            5
        } else if dr == -1 && df == 2 {
            6
        } else {
            7
        };
        assert(pos.hops(color, from, hops[i], to));
    }
    if pos.hops_any(color, from, hops, 8, to) {
        let i = choose|i: int| 0 <= i < 8 && #[trigger] pos.hops(color, from, hops[i], to);
        assert(from.shifted(hops[i]) == Some(to));
    }
}

/// The eight single steps cover what `king_step` describes, and no more.
pub proof fn lemma_king_hops(pos: Position, color: Color, from: SquareSpec, to: SquareSpec)
    requires
        from.wf(),
    ensures
        pos.hops_any(color, from, axis_steps() + diagonal_steps(), 8, to) <==> (to.wf()
            && king_step(from, to) && !pos.friendly(color, to)),
{
    let steps = axis_steps() + diagonal_steps();
    if to.wf() && king_step(from, to) && !pos.friendly(color, to) {
        let dr = to.rank - from.rank;
        let df = to.file - from.file;
        let i: int = if dr == 0 && df == 1 {
            0
        } else if dr == 1 && df == 0 {
            1
        } else if dr == 0 && df == -1 {
            2
        } else if dr == -1 && df == 0 {
            3
        } else if dr == 1 && df == 1 {
            4
        } else if dr == 1 && df == -1 {
            5
        } else if dr == -1 && df == 1 {
            6
        } else {
            7
        };
        assert(pos.hops(color, from, steps[i], to));
    }
    if pos.hops_any(color, from, steps, 8, to) {
        let i = choose|i: int| 0 <= i < 8 && #[trigger] pos.hops(color, from, steps[i], to);
        assert(from.shifted(steps[i]) == Some(to));
    }
}

/// Sliding along the given steps covers the lines of the kind that moves by
/// them, and no more: the rook along ranks and files, the bishop along
/// diagonals, the queen along both.
pub proof fn lemma_slide_lines(pos: Position, kind: PieceType, color: Color, from: SquareSpec, to: SquareSpec)
    requires
        from.wf(),
        kind == PieceType::Rook || kind == PieceType::Bishop || kind == PieceType::Queen,
    ensures
        pos.slides_any(color, from, steps_of(kind), steps_of(kind).len() as int, to) <==> (to.wf()
            && !pos.friendly(color, to) && pos.reaches(kind, from, to)),
{
    let steps = steps_of(kind);
    let n = steps.len() as int;
    if to.wf() && !pos.friendly(color, to) && pos.reaches(kind, from, to) {
        let d = SquareDiff {
            d_rank: signum(to.rank - from.rank) as i32,
            d_file: signum(to.file - from.file) as i32,
        };
        assert(on_ray(from, d, to));
        let i: int = if kind == PieceType::Bishop {
            diagonal_index(d)
        } else if d.d_rank == 0 || d.d_file == 0 {
            axis_index(d)
        } else {
            4 + diagonal_index(d)
        };
        assert(steps[i] == d);
        assert(pos.slides(color, from, steps[i], to));
    }
    if pos.slides_any(color, from, steps, n, to) {
        let i = choose|i: int| 0 <= i < n && #[trigger] pos.slides(color, from, steps[i], to);
        assert(on_ray(from, steps[i], to));
    }
}

/// A sliding piece stops at the first piece in its way: where `blocker` is
/// the first occupied square along one of the steps of its kind, the piece
/// reaches, of the squares of that ray, those before `blocker`, and
/// `blocker` itself if and only if a piece of the other color stands on it.
pub proof fn lemma_slide_stops_at_first_piece(
    pos: Position,
    piece: Piece,
    from: SquareSpec,
    d: SquareDiff,
    blocker: SquareSpec,
    to: SquareSpec,
)
    requires
        pos.wf(),
        from.wf(),
        blocker.wf(),
        to.wf(),
        piece.piece == PieceType::Rook || piece.piece == PieceType::Bishop || piece.piece
            == PieceType::Queen,
        steps_of(piece.piece).contains(d),
        on_ray(from, d, blocker),
        on_ray(from, d, to),
        pos.at(blocker) is Some,
        pos.clear_between(from, blocker),
    ensures
        pos.pseudo_legal(piece, from, Move::Normal { from, to }) <==> (distance(from, to) < distance(
            from,
            blocker,
        ) || (to == blocker && pos.hostile(piece.color, blocker))),
{
    let steps = steps_of(piece.piece);
    let i = choose|i: int| 0 <= i < steps.len() && steps[i] == d;
    assert(is_step(d));
    lemma_ray_point(from, d, blocker);
    let k = distance(from, blocker) - 1;
    assert forall|mid: SquareSpec|
        mid.wf() && #[trigger] on_ray(from, d, mid) && distance(from, mid) <= k implies pos.at(mid) is None by {
        lemma_nearer_is_between(from, d, mid, blocker);
    }
    lemma_blocker(pos, piece.color, from, d, k, blocker, to);
    lemma_slide_lines(pos, piece.piece, piece.color, from, to);
    if pos.slides(piece.color, from, d, to) {
        assert(pos.slides(piece.color, from, steps[i], to));
    }
    if pos.slides_any(piece.color, from, steps, steps.len() as int, to) {
        let j = choose|j: int|
            0 <= j < steps.len() && #[trigger] pos.slides(piece.color, from, steps[j], to);
        assert(steps[j] == d);
    }
}

/// A sliding piece runs to the edge of an empty ray: where no piece stands
/// on the ray along one of the steps of its kind, the piece reaches every
/// square of that ray.
pub proof fn lemma_slide_runs_to_edge(
    pos: Position,
    piece: Piece,
    from: SquareSpec,
    d: SquareDiff,
    to: SquareSpec,
)
    requires
        pos.wf(),
        from.wf(),
        to.wf(),
        piece.piece == PieceType::Rook || piece.piece == PieceType::Bishop || piece.piece
            == PieceType::Queen,
        steps_of(piece.piece).contains(d),
        on_ray(from, d, to),
        forall|mid: SquareSpec| mid.wf() && #[trigger] on_ray(from, d, mid) ==> pos.at(mid) is None,
    ensures
        pos.pseudo_legal(piece, from, Move::Normal { from, to }),
{
    let steps = steps_of(piece.piece);
    let i = choose|i: int| 0 <= i < steps.len() && steps[i] == d;
    assert(is_step(d));
    assert forall|mid: SquareSpec|
        mid.wf() && #[trigger] strictly_between(from, mid, to) implies pos.at(mid) is None by {
        lemma_between_on_ray(from, d, mid, to);
    }
    assert(pos.slides(piece.color, from, steps[i], to));
    lemma_slide_lines(pos, piece.piece, piece.color, from, to);
}

/// The steps by which a sliding kind moves.
pub open spec fn steps_of(kind: PieceType) -> Seq<SquareDiff> {
    match kind {
        PieceType::Rook => axis_steps(),
        PieceType::Bishop => diagonal_steps(),
        _ => axis_steps() + diagonal_steps(),
    }
}

/// Where a step along a rank or file stands among the axis steps.
pub open spec fn axis_index(d: SquareDiff) -> int {
    if d.d_file == 1 {
        0
    } else if d.d_rank == 1 {
        1
    } else if d.d_file == -1 {
        2
    } else {
        3
    }
}

/// Where a step along a diagonal stands among the diagonal steps.
pub open spec fn diagonal_index(d: SquareDiff) -> int {
    if d.d_rank == 1 && d.d_file == 1 {
        0
    } else if d.d_rank == 1 {
        1
    } else if d.d_file == 1 {
        2
    } else {
        3
    }
}

/// The squares a knight of `k_col` on `orig_sq` may jump to: the ends of its
/// eight jumps that are on the board and hold no piece of `k_col`.
pub fn get_moves_knight(k_col: Color, board: &Board, orig_sq: SquareSpec) -> (moves: Vec<SquareSpec>)
    requires
        orig_sq.wf(),
    ensures
        forall|to: SquareSpec|
            #![trigger moves@.contains(to)]
            moves@.contains(to) <==> (to.wf() && knight_jump(orig_sq, to) && !board@.friendly(
                k_col,
                to,
            )),
{
    let hops = [
        SquareDiff { d_rank: 2, d_file: 1 },
        SquareDiff { d_rank: 2, d_file: -1 },
        SquareDiff { d_rank: -2, d_file: 1 },
        SquareDiff { d_rank: -2, d_file: -1 },
        SquareDiff { d_rank: 1, d_file: 2 },
        SquareDiff { d_rank: 1, d_file: -2 },
        SquareDiff { d_rank: -1, d_file: 2 },
        SquareDiff { d_rank: -1, d_file: -2 },
    ];
    assert(hops@ =~= knight_hops());
    let moves = step_targets(k_col, board, orig_sq, &hops);
    proof {
        assert forall|to: SquareSpec|
            #![trigger moves@.contains(to)]
            moves@.contains(to) <==> (to.wf() && knight_jump(orig_sq, to) && !board@.friendly(
                k_col,
                to,
            )) by {
            lemma_knight_hops(board@, k_col, orig_sq, to);
        }
    }
    moves
}


/// What a pawn may do, by the square it lands on.
#[derive(Copy, Clone, Debug, PartialEq, Eq, Structural)]
pub enum PawnMove {
    /// A step, a double step or a capture
    Normal(SquareSpec),
    /// A capture onto the en-passant target
    EnPassant(SquareSpec),
    /// A step onto the far rank
    Promotion(SquareSpec),
}

impl PawnMove {
    /// The move, made from `from`, is `m`: a promotion stands for one move
    /// to each of the four kinds, the others for one normal move.
    pub open spec fn yields(self, from: SquareSpec, m: Move) -> bool {
        match self {
            PawnMove::Normal(to) => m == (Move::Normal { from, to }),
            PawnMove::EnPassant(to) => m == (Move::Normal { from, to }),
            PawnMove::Promotion(to) => {
                &&& m matches Move::Promotion { from: origin, to: landing, target }
                &&& origin == from
                &&& landing == to
                &&& promotable(target)
            },
        }
    }
}

impl Position {
    /// What a pawn of `color` on `from` may do: step ahead onto an empty
    /// square, as a promotion on the far rank; from its home rank, step
    /// twice over empty squares; capture a piece of the other color on a
    /// diagonal; capture onto the en-passant target on a diagonal.
    pub open spec fn pawn_step(self, color: Color, from: SquareSpec, pm: PawnMove) -> bool {
        match pm {
            PawnMove::Normal(to) => {
                &&& to.wf()
                &&& {
                    ||| pawn_advance(color, from, to) && self.at(to) is None && to.rank
                        != far_rank(color)
                    ||| pawn_double(color, from, to) && self.at(to) is None && self.at(
                        pawn_ahead(color, from),
                    ) is None
                    ||| pawn_diagonal(color, from, to) && self.hostile(color, to)
                }
            },
            PawnMove::EnPassant(to) => {
                &&& to.wf()
                &&& pawn_diagonal(color, from, to)
                &&& self.en_passant == Some(to)
            },
            PawnMove::Promotion(to) => {
                &&& to.wf()
                &&& pawn_advance(color, from, to)
                &&& self.at(to) is None
                &&& to.rank == far_rank(color)
            },
        }
    }
}

/// What a pawn of `p_col` on `orig_sq` may do.
pub fn get_moves_pawn(p_col: Color, board: &Board, orig_sq: SquareSpec) -> (moves: Vec<PawnMove>)
    requires
        orig_sq.wf(),
    ensures
        forall|pm: PawnMove|
            #![trigger moves@.contains(pm)]
            moves@.contains(pm) <==> board@.pawn_step(p_col, orig_sq, pm),
{
    let mut moves: Vec<PawnMove> = Vec::new();
    let ghost pos = board@;
    let forward: i32 = match p_col {
        Color::White => 1,
        Color::Black => -1,
    };
    let pawn_direction = SquareDiff { d_rank: forward, d_file: 0 };
    let ahead = orig_sq.checked_add(pawn_direction);
    // whether we can move forward once
    if let Some(sq) = ahead {
        if board[sq].is_none() {
            if sq.rank == p_col.opposite().home_rank() {
                record(&mut moves, PawnMove::Promotion(sq));
            } else {
                record(&mut moves, PawnMove::Normal(sq));
                // whether we can move twice
                if orig_sq.rank == p_col.pawn_home_rank() {
                    if let Some(sq2) = sq.checked_add(pawn_direction) {
                        if board[sq2].is_none() {
                            record(&mut moves, PawnMove::Normal(sq2));
                        }
                    }
                }
            }
        }
    }
    let ghost straight = moves@;
    assert forall|pm: PawnMove| #![trigger straight.contains(pm)] straight.contains(pm) <==> {
        match pm {
            PawnMove::Normal(to) => to.wf() && ((pawn_advance(p_col, orig_sq, to) && pos.at(to) is None
                && to.rank != far_rank(p_col)) || (pawn_double(p_col, orig_sq, to) && pos.at(
                to,
            ) is None && pos.at(pawn_ahead(p_col, orig_sq)) is None)),
            PawnMove::EnPassant(to) => false,
            PawnMove::Promotion(to) => pos.pawn_step(p_col, orig_sq, pm),
        }
    } by {
        if let Some(sq) = ahead {
            assert(sq == pawn_ahead(p_col, orig_sq));
        }
    }
    // from white's perspective, remember that 0 is the "a" file
    let left_diag = orig_sq.checked_add(SquareDiff { d_rank: forward, d_file: -1 });
    let right_diag = orig_sq.checked_add(SquareDiff { d_rank: forward, d_file: 1 });
    // check en passants
    if let Some(en_passant) = board.en_passant() {
        if let Some(sq) = left_diag {
            if sq == en_passant {
                record(&mut moves, PawnMove::EnPassant(sq));
            }
        }
        if let Some(sq) = right_diag {
            if sq == en_passant {
                record(&mut moves, PawnMove::EnPassant(sq));
            }
        }
    }
    let ghost passing = moves@;
    assert forall|pm: PawnMove| #![trigger passing.contains(pm)] passing.contains(pm) <==> {
        straight.contains(pm) || (pm is EnPassant && pos.pawn_step(p_col, orig_sq, pm))
    } by {}
    // check left diagonal
    if let Some(sq) = left_diag {
        if let Some(Piece { color, .. }) = board[sq] {
            if p_col != color {
                record(&mut moves, PawnMove::Normal(sq));
            }
        }
    }
    // check right diagonal
    if let Some(sq) = right_diag {
        if let Some(Piece { color, .. }) = board[sq] {
            if p_col != color {
                record(&mut moves, PawnMove::Normal(sq));
            }
        }
    }
    assert forall|pm: PawnMove| #![trigger moves@.contains(pm)] moves@.contains(pm) <==> pos.pawn_step(
        p_col,
        orig_sq,
        pm,
    ) by {
        assert(passing.contains(pm) <==> straight.contains(pm) || (pm is EnPassant
            && pos.pawn_step(p_col, orig_sq, pm)));
    }
    moves
}

/// The normal moves from `from` onto each of the given squares.
pub fn normal_moves(from: SquareSpec, targets: &Vec<SquareSpec>) -> (moves: Vec<Move>)
    ensures
        forall|m: Move|
            #![trigger moves@.contains(m)]
            moves@.contains(m) <==> (m matches Move::Normal { from: origin, to } && origin == from
                && targets@.contains(to)),
{
    let mut moves: Vec<Move> = Vec::new();
    let mut i: usize = 0;
    while i < targets.len()
        invariant
            i <= targets.len(),
            forall|m: Move|
                #![trigger moves@.contains(m)]
                moves@.contains(m) <==> (m matches Move::Normal { from: origin, to } && origin
                    == from && targets@.take(i as int).contains(to)),
        decreases targets.len() - i,
    {
        let to = targets[i];
        let ghost seen = targets@.take(i as int);
        record(&mut moves, Move::Normal { from, to });
        proof {
            let next = targets@.take(i + 1);
            assert(next == seen.push(to));
            assert forall|x: SquareSpec| next.contains(x) <==> seen.contains(x) || x == to by {
                if seen.contains(x) {
                    let j = choose|j: int| 0 <= j < seen.len() && seen[j] == x;
                    assert(next[j] == x);
                }
                if x == to {
                    assert(next[i as int] == x);
                }
                if next.contains(x) {
                    let j = choose|j: int| 0 <= j < next.len() && next[j] == x;
                    if j < i {
                        assert(seen[j] == x);
                    }
                }
            }
        }
        i += 1;
    }
    assert(targets@.take(i as int) == targets@);
    moves
}

/// The moves of a pawn of `color` on `location`, as moves.
pub fn pawn_moves(color: Color, board: &Board, location: SquareSpec) -> (moves: Vec<Move>)
    requires
        location.wf(),
    ensures
        forall|m: Move|
            #![trigger moves@.contains(m)]
            moves@.contains(m) <==> board@.pawn_move(color, location, m),
{
    let steps = get_moves_pawn(color, board, location);
    let ghost pos = board@;
    let mut moves: Vec<Move> = Vec::new();
    let mut i: usize = 0;
    while i < steps.len()
        invariant
            i <= steps.len(),
            forall|m: Move|
                #![trigger moves@.contains(m)]
                moves@.contains(m) <==> exists|j: int|
                    0 <= j < i && (#[trigger] steps@[j]).yields(location, m),
        decreases steps.len() - i,
    {
        let ghost before = moves@;
        match steps[i] {
            PawnMove::EnPassant(to) => {
                record(&mut moves, Move::Normal { from: location, to });
            },
            PawnMove::Normal(to) => {
                record(&mut moves, Move::Normal { from: location, to });
            },
            PawnMove::Promotion(to) => {
                record(&mut moves, Move::Promotion { from: location, to, target: PieceType::Queen });
                record(
                    &mut moves,
                    Move::Promotion { from: location, to, target: PieceType::Knight },
                );
                record(
                    &mut moves,
                    Move::Promotion { from: location, to, target: PieceType::Bishop },
                );
                record(&mut moves, Move::Promotion { from: location, to, target: PieceType::Rook });
            },
        }
        proof {
            assert forall|m: Move| #![trigger moves@.contains(m)] moves@.contains(m) <==> exists|j: int|
                0 <= j < i + 1 && (#[trigger] steps@[j]).yields(location, m) by {
                assert(moves@.contains(m) <==> before.contains(m) || steps@[i as int].yields(
                    location,
                    m,
                ));
                if before.contains(m) {
                    let j = choose|j: int| 0 <= j < i && (#[trigger] steps@[j]).yields(location, m);
                    assert(steps@[j].yields(location, m));
                }
                if exists|j: int| 0 <= j < i + 1 && (#[trigger] steps@[j]).yields(location, m) {
                    let j = choose|j: int|
                        0 <= j < i + 1 && (#[trigger] steps@[j]).yields(location, m);
                    if j < i {
                        assert(steps@[j].yields(location, m));
                    }
                }
            }
        }
        i += 1;
    }
    proof {
        assert forall|m: Move| #![trigger moves@.contains(m)] moves@.contains(m) <==> pos.pawn_move(
            color,
            location,
            m,
        ) by {
            if moves@.contains(m) {
                let j = choose|j: int|
                    0 <= j < steps@.len() && (#[trigger] steps@[j]).yields(location, m);
                assert(steps@.contains(steps@[j]));
            }
            if pos.pawn_move(color, location, m) {
                let pm = match m {
                    Move::Normal { from, to } => if pawn_diagonal(color, location, to)
                        && !pos.hostile(color, to) {
                        PawnMove::EnPassant(to)
                    } else {
                        PawnMove::Normal(to)
                    },
                    Move::Castling(_) => PawnMove::Normal(location),
                    Move::Promotion { from, to, target } => PawnMove::Promotion(to),
                };
                assert(pos.pawn_step(color, location, pm));
                assert(steps@.contains(pm));
                let j = choose|j: int| 0 <= j < steps@.len() && steps@[j] == pm;
                assert(steps@[j].yields(location, m));
            }
        }
    }
    moves
}


/// Whether the move is one of the moves.
pub fn holds(moves: &Vec<Move>, m: Move) -> (b: bool)
    ensures
        b == moves@.contains(m),
{
    let mut i: usize = 0;
    while i < moves.len()
        invariant
            i <= moves.len(),
            forall|j: int| 0 <= j < i ==> moves@[j] != m,
        decreases moves.len() - i,
    {
        if moves[i] == m {
            return true;
        }
        i += 1;
    }
    false
}

/// The move is a normal move that lands on `sq`.
pub open spec fn lands_on(m: Move, sq: SquareSpec) -> bool {
    m matches Move::Normal { from, to } && to == sq
}

/// Whether one of the moves is a normal move that lands on `sq`.
pub fn any_lands_on(moves: &Vec<Move>, sq: SquareSpec) -> (b: bool)
    ensures
        b <==> exists|from: SquareSpec| #[trigger] moves@.contains(Move::Normal { from, to: sq }),
{
    let mut i: usize = 0;
    while i < moves.len()
        invariant
            i <= moves.len(),
            forall|j: int| 0 <= j < i ==> !lands_on(#[trigger] moves@[j], sq),
        decreases moves.len() - i,
    {
        if let Move::Normal { from, to } = moves[i] {
            if to == sq {
                assert(moves@.contains(Move::Normal { from, to: sq }));
                return true;
            }
        }
        i += 1;
    }
    proof {
        assert forall|from: SquareSpec| !#[trigger] moves@.contains(Move::Normal { from, to: sq }) by {
            if moves@.contains(Move::Normal { from, to: sq }) {
                let j = choose|j: int|
                    0 <= j < moves@.len() && moves@[j] == (Move::Normal { from, to: sq });
                assert(lands_on(moves@[j], sq));
            }
        }
    }
    false
}

/// A position has at most one first king of a color.
pub proof fn lemma_first_king_unique(pos: Position, color: Color, a: SquareSpec, b: SquareSpec)
    requires
        pos.first_king(color, a),
        pos.first_king(color, b),
    ensures
        a == b,
{
    if a.ordinal() < b.ordinal() {
        assert(pos.at(a) != Some(king_of(color)));
    } else if b.ordinal() < a.ordinal() {
        assert(pos.at(b) != Some(king_of(color)));
    }
}

/// The moves of a king of `k_col` on `orig_sq`: one step in each of the
/// eight directions onto a square that holds no piece of `k_col`, and, where
/// `check_castling` is set, each castle that is on offer.
pub fn get_moves_king(k_col: Color, board: &Board, orig_sq: SquareSpec, check_castling: bool) -> (moves:
    Vec<Move>)
    requires
        orig_sq.wf(),
    ensures
        forall|m: Move|
            #![trigger moves@.contains(m)]
            moves@.contains(m) <==> board@.candidate(king_of(k_col), orig_sq, m, check_castling),
    decreases
            (if check_castling {
                4int
            } else {
                1int
            }),
{
    let steps = compass();
    let targets = step_targets(k_col, board, orig_sq, &steps);
    let mut moves = normal_moves(orig_sq, &targets);
    let ghost pos = board@;
    let ghost stepped = moves@;
    proof {
        assert forall|m: Move| #![trigger stepped.contains(m)] stepped.contains(m) <==> pos.pseudo_legal(
            king_of(k_col),
            orig_sq,
            m,
        ) by {
            if let Move::Normal { from, to } = m {
                lemma_king_hops(pos, k_col, orig_sq, to);
            }
        }
    }
    if check_castling {
        if !board.is_threatened(k_col, orig_sq) {
            let rank = k_col.home_rank();
            if board.can_castle(Castling::Long, k_col) {
                if board[SquareSpec { rank, file: 1 }].is_none() && board[SquareSpec {
                    rank,
                    file: 2,
                }].is_none() && board[SquareSpec { rank, file: 3 }].is_none() {
                    // the square the king lands on is looked after by the
                    // check filter, so only the one it crosses is tested
                    let crossed = match orig_sq.checked_add(SquareDiff { d_rank: 0, d_file: -1 }) {
                        Some(sq) => board.is_threatened(k_col, sq),
                        None => false,
                    };
                    if !crossed {
                        record(&mut moves, Move::Castling(Castling::Long));
                    }
                }
            }
            let ghost with_long = moves@;
            assert forall|m: Move| #![trigger with_long.contains(m)] with_long.contains(m) <==> (
            stepped.contains(m) || (m == Move::Castling(Castling::Long) && pos.castle_offered(
                Castling::Long,
                k_col,
                orig_sq,
            ))) by {}
            if board.can_castle(Castling::Short, k_col) {
                if board[SquareSpec { rank, file: 5 }].is_none() && board[SquareSpec {
                    rank,
                    file: 6,
                }].is_none() {
                    let crossed = match orig_sq.checked_add(SquareDiff { d_rank: 0, d_file: 1 }) {
                        Some(sq) => board.is_threatened(k_col, sq),
                        None => false,
                    };
                    if !crossed {
                        record(&mut moves, Move::Castling(Castling::Short));
                    }
                }
            }
            assert forall|m: Move| #![trigger moves@.contains(m)] moves@.contains(m) <==> (
            with_long.contains(m) || (m == Move::Castling(Castling::Short) && pos.castle_offered(
                Castling::Short,
                k_col,
                orig_sq,
            ))) by {}
        }
    }
    proof {
        assert forall|m: Move| #![trigger moves@.contains(m)] moves@.contains(m) <==> pos.candidate(
            king_of(k_col),
            orig_sq,
            m,
            check_castling,
        ) by {
            assert(stepped.contains(m) <==> pos.pseudo_legal(king_of(k_col), orig_sq, m));
        }
    }
    moves
}

/// Whether the first king of the side to move is not attacked, by a piece of
/// the other color than `piece`, once the pieces of `m` have been moved.
pub fn keeps_king_safe(board: &Board, piece: Piece, m: Move) -> (safe: bool)
    requires
        m.wf(),
    ensures
        safe == !board@.leaves_king_attacked(piece, m),
    decreases 4int,
{
    let new_board = board.unchecked_perform_move(m);
    let ghost next = board@.moved_unchecked(m);
    match new_board.king(board.turn()) {
        Some(king) => {
            let hit = new_board.is_threatened(piece.color, king);
            proof {
                if board@.leaves_king_attacked(piece, m) {
                    let other = choose|other: SquareSpec|
                        #[trigger] next.first_king(board@.turn, other) && next.attacked_by(
                            piece.color.other(),
                            other,
                        );
                    lemma_first_king_unique(next, board@.turn, king, other);
                }
            }
            !hit
        },
        None => {
            proof {
                if board@.leaves_king_attacked(piece, m) {
                    let other = choose|other: SquareSpec|
                        #[trigger] next.first_king(board@.turn, other) && next.attacked_by(
                            piece.color.other(),
                            other,
                        );
                    assert(next.at(other) != Some(king_of(board@.turn)));
                }
            }
            true
        },
    }
}

/// Enumerates the moves of `piece` standing on `location`: what the geometry
/// of its kind allows on this board and, where `account_for_check` is set,
/// the castles on offer to a king, less every move that would leave the
/// king of the side to move attacked.
pub fn enumerate_legal_moves(piece: Piece, location: SquareSpec, board: &Board, account_for_check: bool) -> (moves:
    Vec<Move>)
    requires
        location.wf(),
    ensures
        forall|m: Move|
            #![trigger moves@.contains(m)]
            moves@.contains(m) <==> board@.generates(piece, location, m, account_for_check),
    decreases
            (if account_for_check {
                5int
            } else {
                2int
            }),
{
    let ghost pos = board@;
    let candidates = match piece.piece {
        PieceType::Pawn => pawn_moves(piece.color, board, location),
        PieceType::King => get_moves_king(piece.color, board, location, account_for_check),
        PieceType::Knight => {
            let targets = get_moves_knight(piece.color, board, location);
            normal_moves(location, &targets)
        },
        PieceType::Rook => {
            let steps = axes();
            let targets = get_moves_directions(piece.color, board, location, &steps);
            normal_moves(location, &targets)
        },
        PieceType::Bishop => {
            let steps = diagonals();
            let targets = get_moves_directions(piece.color, board, location, &steps);
            normal_moves(location, &targets)
        },
        PieceType::Queen => {
            let steps = compass();
            let targets = get_moves_directions(piece.color, board, location, &steps);
            normal_moves(location, &targets)
        },
    };
    proof {
        assert forall|m: Move| #![trigger candidates@.contains(m)] candidates@.contains(m) <==> pos.candidate(
            piece,
            location,
            m,
            account_for_check,
        ) by {
            if piece.piece == PieceType::King {
                assert(piece == king_of(piece.color));
            } else if piece.piece == PieceType::Rook || piece.piece == PieceType::Bishop
                || piece.piece == PieceType::Queen {
                if let Move::Normal { from, to } = m {
                    lemma_slide_lines(pos, piece.piece, piece.color, location, to);
                }
            }
        }
    }
    if !account_for_check {
        return candidates;
    }
    let mut moves: Vec<Move> = Vec::new();
    let mut i: usize = 0;
    while i < candidates.len()
        invariant
            i <= candidates.len(),
            account_for_check,
            location.wf(),
            pos == board@,
            forall|m: Move|
                #![trigger candidates@.contains(m)]
                candidates@.contains(m) <==> pos.candidate(piece, location, m, true),
            forall|m: Move|
                #![trigger moves@.contains(m)]
                moves@.contains(m) <==> (candidates@.take(i as int).contains(m)
                    && !pos.leaves_king_attacked(piece, m)),
        decreases candidates.len() - i,
    {
        let m = candidates[i];
        let ghost seen = candidates@.take(i as int);
        proof {
            assert(candidates@.contains(m));
            let next = candidates@.take(i + 1);
            assert(next == seen.push(m));
            assert forall|x: Move| next.contains(x) <==> seen.contains(x) || x == m by {
                if seen.contains(x) {
                    let j = choose|j: int| 0 <= j < seen.len() && seen[j] == x;
                    assert(next[j] == x);
                }
                if x == m {
                    assert(next[i as int] == x);
                }
                if next.contains(x) {
                    let j = choose|j: int| 0 <= j < next.len() && next[j] == x;
                    if j < i {
                        assert(seen[j] == x);
                    }
                }
            }
        }
        if keeps_king_safe(board, piece, m) {
            record(&mut moves, m);
        }
        i += 1;
    }
    proof {
        assert(candidates@.take(i as int) == candidates@);
    }
    moves
}

} // verus!
