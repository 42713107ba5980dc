//! Move generation, check detection and the minimax search.

use vstd::prelude::*;
use std::sync::atomic::AtomicBool;
use std::sync::atomic::Ordering;
use rayon::iter::IntoParallelRefIterator;
use rayon::iter::ParallelIterator;
use crate::board::Board;
use crate::board::Color;
use crate::board::Field;
use crate::board::KindOfPiece;
use crate::board::Piece;
use crate::board::Position;
use crate::book::Move;
use crate::pick::as_ints;
use crate::pick::first_best;
use crate::pick::last_best;
use crate::pick::lemma_first_best;
use crate::pick::lemma_last_best;
use crate::pick::pick_first_best;
use crate::pick::pick_last_best;

verus! {

/// Row steps of the eight squares around a king.
pub const KING_ROW_STEPS: [i32; 8] = [-1, -1, -1, 0, 0, 1, 1, 1];

/// File steps of the eight squares around a king.
pub const KING_FILE_STEPS: [i32; 8] = [-1, 0, 1, -1, 1, -1, 0, 1];

/// Row steps of the eight jumps of a knight.
pub const KNIGHT_ROW_STEPS: [i32; 8] = [-1, -2, -2, -1, 1, 2, 2, 1];

/// File steps of the eight jumps of a knight.
pub const KNIGHT_FILE_STEPS: [i32; 8] = [-2, -1, 1, 2, 2, 1, -1, -2];

/// The color of the piece on `from`; white where the square is empty.
pub open spec fn mover_color(p: Position, from: Field) -> Color {
    match p.piece_at(from) {
        Some(piece) => piece.color,
        None => Color::White,
    }
}

/// The square lies on the board and holds no piece of `color`.
pub open spec fn open_to(p: Position, color: Color, row: int, file: int) -> bool {
    Field::on_board(row, file) && match p.piece(row, file) {
        Some(piece) => piece.color != color,
        None => true,
    }
}

/// The square lies on the board and holds a piece of the other color.
pub open spec fn enemy_on(p: Position, color: Color, row: int, file: int) -> bool {
    Field::on_board(row, file) && match p.piece(row, file) {
        Some(piece) => piece.color != color,
        None => false,
    }
}

/// The square lies on the board and is empty.
pub open spec fn empty_on(p: Position, row: int, file: int) -> bool {
    Field::on_board(row, file) && p.piece(row, file) is None
}

/// The square, where `wanted` holds; else nothing.
pub open spec fn target_if(wanted: bool, row: int, file: int) -> Seq<Field> {
    if wanted {
        seq![Field::at(row, file)]
    } else {
        Seq::empty()
    }
}

/// Of the first `n` single steps from (`row`, `file`), in order, the
/// squares that lie on the board and hold no piece of `color`.
pub open spec fn step_targets(
    p: Position,
    color: Color,
    row: int,
    file: int,
    row_steps: [i32; 8],
    file_steps: [i32; 8],
    n: int,
) -> Seq<Field>
    decreases n,
{
    if n <= 0 {
        Seq::empty()
    } else {
        let r = row + row_steps[n - 1];
        let f = file + file_steps[n - 1];
        step_targets(p, color, row, file, row_steps, file_steps, n - 1) + target_if(
            open_to(p, color, r, f),
            r,
            f,
        )
    }
}

/// The squares that a sliding piece of `color` reaches from (`row`,
/// `file`) in direction (`ns`, `we`) within `steps` steps: every empty
/// square up to the first occupied one or the edge, and that occupied
/// square too where an enemy stands on it.
pub open spec fn ray(p: Position, color: Color, row: int, file: int, ns: int, we: int, steps: nat)
    -> Seq<Field>
    decreases steps,
{
    let r = row + ns;
    let f = file + we;
    if steps == 0 || !Field::on_board(r, f) {
        Seq::empty()
    } else {
        match p.piece(r, f) {
            None => seq![Field::at(r, f)] + ray(p, color, r, f, ns, we, (steps - 1) as nat),
            Some(piece) => target_if(piece.color != color, r, f),
        }
    }
}

/// The reach of a sliding piece along one direction across the whole board.
pub open spec fn line(p: Position, from: Field, ns: int, we: int) -> Seq<Field> {
    ray(p, mover_color(p, from), from.spec_row(), from.spec_file(), ns, we, 7)
}

/// Where a king on `from` can step.
pub open spec fn king_targets(p: Position, from: Field) -> Seq<Field> {
    step_targets(
        p,
        mover_color(p, from),
        from.spec_row(),
        from.spec_file(),
        KING_ROW_STEPS,
        KING_FILE_STEPS,
        8,
    )
}

/// Where a knight on `from` can jump.
pub open spec fn knight_targets(p: Position, from: Field) -> Seq<Field> {
    step_targets(
        p,
        mover_color(p, from),
        from.spec_row(),
        from.spec_file(),
        KNIGHT_ROW_STEPS,
        KNIGHT_FILE_STEPS,
        8,
    )
}

/// Where a rook on `from` can slide.
pub open spec fn rook_targets(p: Position, from: Field) -> Seq<Field> {
    line(p, from, 1, 0) + line(p, from, -1, 0) + line(p, from, 0, 1) + line(p, from, 0, -1)
}

/// Where a bishop on `from` can slide.
pub open spec fn bishop_targets(p: Position, from: Field) -> Seq<Field> {
    line(p, from, 1, 1) + line(p, from, -1, 1) + line(p, from, -1, -1) + line(p, from, 1, -1)
}

/// Where a queen on `from` can slide.
pub open spec fn queen_targets(p: Position, from: Field) -> Seq<Field> {
    line(p, from, 1, 0) + line(p, from, 1, 1) + line(p, from, 1, -1) + line(p, from, 0, 1) + line(
        p,
        from,
        0,
        -1,
    ) + line(p, from, -1, 0) + line(p, from, -1, 1) + line(p, from, -1, -1)
}

/// The direction in which the pawns of `color` advance.
pub open spec fn forward(color: Color) -> int {
    match color {
        Color::White => 1,
        Color::Black => -1,
    }
}

/// The row on which the pawns of `color` start.
pub open spec fn pawn_home_row(color: Color) -> int {
    match color {
        Color::White => 2,
        Color::Black => 7,
    }
}

/// A pawn of `color` on (`row`, `file`) may capture in passing toward
/// `side` (one file to the right or left): the neighbouring file is
/// flagged, the pawn stands on the row where the enemy's double advance
/// lands, and an enemy stands beside it on that file.
pub open spec fn passing_open(p: Position, color: Color, row: int, file: int, side: int) -> bool {
    &&& Field::on_board(row, file + side)
    &&& p.may_capture_in_passing(file + side)
    &&& row == Position::landing_row(color.spec_enemy())
    &&& enemy_on(p, color, row, file + side)
}

/// Where a pawn on `from` can go: one square ahead where that is empty
/// and a second from its home row where that is empty too; diagonally
/// ahead onto an enemy; and diagonally ahead past an enemy that can be
/// captured in passing.
pub open spec fn pawn_targets(p: Position, from: Field) -> Seq<Field> {
    let color = mover_color(p, from);
    let row = from.spec_row();
    let file = from.spec_file();
    let next = row + forward(color);
    let next2 = next + forward(color);
    let one = empty_on(p, next, file);
    let two = one && row == pawn_home_row(color) && empty_on(p, next2, file);
    target_if(one, next, file) + target_if(two, next2, file) + target_if(
        enemy_on(p, color, next, file - 1),
        next,
        file - 1,
    ) + target_if(enemy_on(p, color, next, file + 1), next, file + 1) + target_if(
        passing_open(p, color, row, file, 1),
        next,
        file + 1,
    ) + target_if(passing_open(p, color, row, file, -1), next, file - 1)
}

/// The squares that the piece on `from` can move to by the way its kind
/// moves and by what stands on the board, whether or not the move would
/// leave its own king in check. Nothing from an empty square.
#[verifier::opaque]
pub open spec fn pseudo_moves(p: Position, from: Field) -> Seq<Field> {
    match p.piece_at(from) {
        None => Seq::empty(),
        Some(piece) => match piece.kind_of_piece {
            KindOfPiece::King => king_targets(p, from),
            KindOfPiece::Queen => queen_targets(p, from),
            KindOfPiece::Bishop => bishop_targets(p, from),
            KindOfPiece::Knight => knight_targets(p, from),
            KindOfPiece::Rook => rook_targets(p, from),
            KindOfPiece::Pawn => pawn_targets(p, from),
        },
    }
}

/// The king of `color`.
pub open spec fn king_of(color: Color) -> Piece {
    Piece { kind_of_piece: KindOfPiece::King, color }
}

/// An enemy of `color` stands on (`row`, `file`) and one of the squares
/// it can move to holds the king of `color`.
pub open spec fn attacks_king(p: Position, color: Color, row: int, file: int) -> bool {
    let reach = pseudo_moves(p, Field::at(row, file));
    enemy_on(p, color, row, file) && exists|k: int|
        0 <= k < reach.len() && p.piece_at(#[trigger] reach[k]) == Some(king_of(color))
}

/// The king of `color` stands where some enemy piece can move to.
#[verifier::opaque]
pub open spec fn in_check(p: Position, color: Color) -> bool {
    exists|row: int, file: int|
        Field::on_board(row, file) && #[trigger] attacks_king(p, color, row, file)
}

/// The move, where playing it does not leave the king of `color` in
/// check; else nothing.
pub open spec fn safe_only(p: Position, color: Color, m: Move) -> Seq<Move> {
    if in_check(p.apply(m), color) {
        Seq::empty()
    } else {
        seq![m]
    }
}

/// A pawn stands on `from` and `to` lies on the first or the last row.
pub open spec fn promotes(p: Position, from: Field, to: Field) -> bool {
    &&& p.piece_at(from) matches Some(piece)
    &&& piece.kind_of_piece == KindOfPiece::Pawn
    &&& (to.spec_row() == 1 || to.spec_row() == 8)
}

/// The legal moves from `from` to one target square: a pawn that reaches
/// the far row is offered as a promotion to a queen and as one to a
/// knight, in that order; any other move is offered as it is. Each is
/// kept only where it leaves the mover's king out of check.
pub open spec fn legal_to(p: Position, from: Field, to: Field) -> Seq<Move> {
    let color = mover_color(p, from);
    if promotes(p, from, to) {
        safe_only(p, color, Move::spec_build(from, to, Some(KindOfPiece::Queen))) + safe_only(
            p,
            color,
            Move::spec_build(from, to, Some(KindOfPiece::Knight)),
        )
    } else {
        safe_only(p, color, Move::spec_build(from, to, None))
    }
}

/// The legal moves from `from` to the first `n` of `targets`, in order.
pub open spec fn legal_among(p: Position, from: Field, targets: Seq<Field>, n: int) -> Seq<Move>
    decreases n,
{
    if n <= 0 {
        Seq::empty()
    } else {
        legal_among(p, from, targets, n - 1) + legal_to(p, from, targets[n - 1])
    }
}

/// The legal moves of the piece on `from`: its pseudo-moves, in the
/// order in which they are generated, without those that would leave its
/// own king in check.
pub open spec fn legal_moves_from(p: Position, from: Field) -> Seq<Move> {
    match p.piece_at(from) {
        None => Seq::empty(),
        Some(piece) => legal_among(p, from, pseudo_moves(p, from), pseudo_moves(p, from).len() as int),
    }
}

/// The legal moves of the pieces of `color` on the first `n` squares.
pub open spec fn legal_moves_upto(p: Position, color: Color, n: int) -> Seq<Move>
    decreases n,
{
    if n <= 0 {
        Seq::empty()
    } else {
        let here = match p.grid[n - 1] {
            Some(piece) => if piece.color == color {
                legal_moves_from(p, Field::at((n - 1) / 8 + 1, (n - 1) % 8 + 1))
            } else {
                Seq::empty()
            },
            None => Seq::empty(),
        };
        legal_moves_upto(p, color, n - 1) + here
    }
}

/// All legal moves of `color`: those of each of its pieces, square by
/// square from a1 along each row to h8.
pub open spec fn legal_moves_for(p: Position, color: Color) -> Seq<Move> {
    legal_moves_upto(p, color, 64)
}

/// What makes a move of `color` legal: it is well formed, a piece of
/// `color` stands on its source, its destination is one of that piece's
/// pseudo-moves, and playing it leaves the king of `color` out of check.
pub open spec fn is_legal(p: Position, color: Color, m: Move) -> bool {
    &&& m.wf()
    &&& p.piece_at(m.spec_from_field()) matches Some(piece) && piece.color == color
    &&& pseudo_moves(p, m.spec_from_field()).contains(m.spec_to_field())
    &&& !in_check(p.apply(m), color)
}

/// Every square of the sequence lies on the board.
pub open spec fn all_on_board(squares: Seq<Field>) -> bool {
    forall|k: int| 0 <= k < squares.len() ==> (#[trigger] squares[k]).wf()
}

/// Two sequences of squares on the board make one when joined.
proof fn lemma_join_on_board(a: Seq<Field>, b: Seq<Field>)
    requires
        all_on_board(a),
        all_on_board(b),
    ensures
        all_on_board(a + b),
{
    assert forall|k: int| 0 <= k < (a + b).len() implies (#[trigger] (a + b)[k]).wf() by {
        if k < a.len() {
            assert((a + b)[k] == a[k]);
        } else {
            assert((a + b)[k] == b[k - a.len()]);
        }
    }
}

/// A target that is only offered on the board lies on the board.
proof fn lemma_target_on_board(wanted: bool, row: int, file: int)
    requires
        wanted ==> Field::on_board(row, file),
    ensures
        all_on_board(target_if(wanted, row, file)),
{
    broadcast use Field::lemma_at;

}

/// Every square of a ray lies on the board.
proof fn lemma_ray_on_board(
    p: Position,
    color: Color,
    row: int,
    file: int,
    ns: int,
    we: int,
    steps: nat,
)
    ensures
        all_on_board(ray(p, color, row, file, ns, we, steps)),
    decreases steps,
{
    let r = row + ns;
    let f = file + we;
    if steps > 0 && Field::on_board(r, f) {
        match p.piece(r, f) {
            None => {
                lemma_ray_on_board(p, color, r, f, ns, we, (steps - 1) as nat);
                lemma_target_on_board(true, r, f);
                lemma_join_on_board(
                    target_if(true, r, f),
                    ray(p, color, r, f, ns, we, (steps - 1) as nat),
                );
            },
            Some(piece) => {
                lemma_target_on_board(piece.color != color, r, f);
            },
        }
    }
}

/// Every square among the step targets lies on the board.
proof fn lemma_steps_on_board(
    p: Position,
    color: Color,
    row: int,
    file: int,
    row_steps: [i32; 8],
    file_steps: [i32; 8],
    n: int,
)
    ensures
        all_on_board(step_targets(p, color, row, file, row_steps, file_steps, n)),
    decreases n,
{
    if n > 0 {
        let r = row + row_steps[n - 1];
        let f = file + file_steps[n - 1];
        lemma_steps_on_board(p, color, row, file, row_steps, file_steps, n - 1);
        lemma_target_on_board(open_to(p, color, r, f), r, f);
        lemma_join_on_board(
            step_targets(p, color, row, file, row_steps, file_steps, n - 1),
            target_if(open_to(p, color, r, f), r, f),
        );
    }
}

/// Every square of a line lies on the board.
proof fn lemma_line_on_board(p: Position, from: Field, ns: int, we: int)
    ensures
        all_on_board(line(p, from, ns, we)),
{
    lemma_ray_on_board(p, mover_color(p, from), from.spec_row(), from.spec_file(), ns, we, 7);
}

/// Every square a rook can slide to lies on the board.
proof fn lemma_rook_on_board(p: Position, from: Field)
    ensures
        all_on_board(rook_targets(p, from)),
{
    lemma_line_on_board(p, from, 1, 0);
    lemma_line_on_board(p, from, -1, 0);
    lemma_line_on_board(p, from, 0, 1);
    lemma_line_on_board(p, from, 0, -1);
    let a = line(p, from, 1, 0) + line(p, from, -1, 0);
    lemma_join_on_board(line(p, from, 1, 0), line(p, from, -1, 0));
    lemma_join_on_board(a, line(p, from, 0, 1));
    lemma_join_on_board(a + line(p, from, 0, 1), line(p, from, 0, -1));
}

/// Every square a bishop can slide to lies on the board.
proof fn lemma_bishop_on_board(p: Position, from: Field)
    ensures
        all_on_board(bishop_targets(p, from)),
{
    lemma_line_on_board(p, from, 1, 1);
    lemma_line_on_board(p, from, -1, 1);
    lemma_line_on_board(p, from, -1, -1);
    lemma_line_on_board(p, from, 1, -1);
    let a = line(p, from, 1, 1) + line(p, from, -1, 1);
    lemma_join_on_board(line(p, from, 1, 1), line(p, from, -1, 1));
    lemma_join_on_board(a, line(p, from, -1, -1));
    lemma_join_on_board(a + line(p, from, -1, -1), line(p, from, 1, -1));
}

/// Every square a queen can slide to lies on the board.
proof fn lemma_queen_on_board(p: Position, from: Field)
    ensures
        all_on_board(queen_targets(p, from)),
{
    lemma_line_on_board(p, from, 1, 0);
    lemma_line_on_board(p, from, 1, 1);
    lemma_line_on_board(p, from, 1, -1);
    lemma_line_on_board(p, from, 0, 1);
    lemma_line_on_board(p, from, 0, -1);
    lemma_line_on_board(p, from, -1, 0);
    lemma_line_on_board(p, from, -1, 1);
    lemma_line_on_board(p, from, -1, -1);
    let a = line(p, from, 1, 0) + line(p, from, 1, 1);
    lemma_join_on_board(line(p, from, 1, 0), line(p, from, 1, 1));
    let b = a + line(p, from, 1, -1);
    lemma_join_on_board(a, line(p, from, 1, -1));
    let c = b + line(p, from, 0, 1);
    lemma_join_on_board(b, line(p, from, 0, 1));
    let d = c + line(p, from, 0, -1);
    lemma_join_on_board(c, line(p, from, 0, -1));
    let e = d + line(p, from, -1, 0);
    lemma_join_on_board(d, line(p, from, -1, 0));
    let f = e + line(p, from, -1, 1);
    lemma_join_on_board(e, line(p, from, -1, 1));
    lemma_join_on_board(f, line(p, from, -1, -1));
}

/// Every square a pawn can go to lies on the board.
proof fn lemma_pawn_on_board(p: Position, from: Field)
    ensures
        all_on_board(pawn_targets(p, from)),
{
    let color = mover_color(p, from);
    let row = from.spec_row();
    let file = from.spec_file();
    let next = row + forward(color);
    let next2 = next + forward(color);
    let one = empty_on(p, next, file);
    let two = one && row == pawn_home_row(color) && empty_on(p, next2, file);
    let t1 = target_if(one, next, file);
    let t2 = target_if(two, next2, file);
    let t3 = target_if(enemy_on(p, color, next, file - 1), next, file - 1);
    let t4 = target_if(enemy_on(p, color, next, file + 1), next, file + 1);
    let t5 = target_if(passing_open(p, color, row, file, 1), next, file + 1);
    let t6 = target_if(passing_open(p, color, row, file, -1), next, file - 1);
    lemma_target_on_board(one, next, file);
    lemma_target_on_board(two, next2, file);
    lemma_target_on_board(enemy_on(p, color, next, file - 1), next, file - 1);
    lemma_target_on_board(enemy_on(p, color, next, file + 1), next, file + 1);
    lemma_target_on_board(passing_open(p, color, row, file, 1), next, file + 1);
    lemma_target_on_board(passing_open(p, color, row, file, -1), next, file - 1);
    lemma_join_on_board(t1, t2);
    lemma_join_on_board(t1 + t2, t3);
    lemma_join_on_board(t1 + t2 + t3, t4);
    lemma_join_on_board(t1 + t2 + t3 + t4, t5);
    lemma_join_on_board(t1 + t2 + t3 + t4 + t5, t6);
}

/// Every pseudo-move ends on a square of the board.
pub proof fn lemma_pseudo_moves_on_board(p: Position, from: Field)
    ensures
        all_on_board(pseudo_moves(p, from)),
{
    reveal(pseudo_moves);
    let color = mover_color(p, from);
    let row = from.spec_row();
    let file = from.spec_file();
    match p.piece_at(from) {
        None => {},
        Some(piece) => match piece.kind_of_piece {
            KindOfPiece::King => {
                lemma_steps_on_board(p, color, row, file, KING_ROW_STEPS, KING_FILE_STEPS, 8);
            },
            KindOfPiece::Queen => {
                lemma_queen_on_board(p, from);
            },
            KindOfPiece::Bishop => {
                lemma_bishop_on_board(p, from);
            },
            KindOfPiece::Knight => {
                lemma_steps_on_board(p, color, row, file, KNIGHT_ROW_STEPS, KNIGHT_FILE_STEPS, 8);
            },
            KindOfPiece::Rook => {
                lemma_rook_on_board(p, from);
            },
            KindOfPiece::Pawn => {
                lemma_pawn_on_board(p, from);
            },
        },
    }
}

/// Every move among `legal_among` starts on `from`, ends on one of the
/// targets and leaves the mover's king out of check.
proof fn lemma_legal_among(p: Position, from: Field, targets: Seq<Field>, n: int)
    requires
        from.wf(),
        0 <= n <= targets.len(),
        forall|k: int| 0 <= k < targets.len() ==> (#[trigger] targets[k]).wf(),
    ensures
        forall|i: int|
            0 <= i < legal_among(p, from, targets, n).len() ==> {
                let m = #[trigger] legal_among(p, from, targets, n)[i];
                &&& m.wf()
                &&& m.spec_from_field() == from
                &&& targets.contains(m.spec_to_field())
                &&& !in_check(p.apply(m), mover_color(p, from))
            },
    decreases n,
{
    if n > 0 {
        lemma_legal_among(p, from, targets, n - 1);
        let to = targets[n - 1];
        assert(to.wf());
        Move::lemma_decode_encode(from, to, None);
        Move::lemma_decode_encode(from, to, Some(KindOfPiece::Queen));
        Move::lemma_decode_encode(from, to, Some(KindOfPiece::Knight));
    }
}

/// Every move among the legal moves from a square is legal.
pub proof fn lemma_legal_moves_from(p: Position, from: Field)
    requires
        from.wf(),
    ensures
        forall|i: int|
            0 <= i < legal_moves_from(p, from).len() ==> is_legal(
                p,
                mover_color(p, from),
                #[trigger] legal_moves_from(p, from)[i],
            ),
{
    lemma_pseudo_moves_on_board(p, from);
    lemma_legal_among(p, from, pseudo_moves(p, from), pseudo_moves(p, from).len() as int);
}

/// The legality law for the first `n` squares.
proof fn lemma_legal_moves_upto(p: Position, color: Color, n: int)
    requires
        p.wf(),
        0 <= n <= 64,
    ensures
        forall|i: int|
            0 <= i < legal_moves_upto(p, color, n).len() ==> is_legal(
                p,
                color,
                #[trigger] legal_moves_upto(p, color, n)[i],
            ),
    decreases n,
{
    broadcast use Field::lemma_at;

    if n > 0 {
        let here = Field::at((n - 1) / 8 + 1, (n - 1) % 8 + 1);
        lemma_legal_moves_upto(p, color, n - 1);
        lemma_legal_moves_from(p, here);
        assert(p.piece_at(here) == p.grid[n - 1]);
        let whole = legal_moves_upto(p, color, n);
        let earlier = legal_moves_upto(p, color, n - 1);
        assert forall|i: int| 0 <= i < whole.len() implies is_legal(p, color, #[trigger] whole[i]) by {
            if i < earlier.len() {
                assert(whole[i] == earlier[i]);
            } else {
                assert(whole[i] == legal_moves_from(p, here)[i - earlier.len()]);
            }
        }
    }
}

/// No generated move is illegal: every move among the legal moves of
/// `color` starts from a piece of `color`, follows the way that piece
/// moves, and does not leave the king of `color` in check in the position
/// that results.
pub proof fn lemma_legal_moves_for(p: Position, color: Color)
    requires
        p.wf(),
    ensures
        forall|i: int|
            0 <= i < legal_moves_for(p, color).len() ==> is_legal(
                p,
                color,
                #[trigger] legal_moves_for(p, color)[i],
            ),
{
    lemma_legal_moves_upto(p, color, 64);
}

/// The color of the piece on `field`; white where the square is empty.
fn color_on(field: &Field, board: &Board) -> (color: Color)
    ensures
        color == mover_color(board@, *field),
{
    match board.field_content(field) {
        Some(piece) => piece.color,
        None => Color::White,
    }
}

/// Whether the square holds no piece of `color`.
fn is_open_to(board: &Board, color: Color, field: &Field) -> (open: bool)
    requires
        field.wf(),
    ensures
        open == open_to(board@, color, field.spec_row(), field.spec_file()),
{
    broadcast use Field::lemma_wf;

    match board.field_content(field) {
        Some(piece) => piece.color != color,
        None => true,
    }
}

/// Whether the square holds a piece of the other color.
fn is_enemy_on(board: &Board, color: Color, field: &Field) -> (enemy: bool)
    requires
        field.wf(),
    ensures
        enemy == enemy_on(board@, color, field.spec_row(), field.spec_file()),
{
    broadcast use Field::lemma_wf;

    match board.field_content(field) {
        Some(piece) => piece.color != color,
        None => false,
    }
}

/// The single steps among `row_steps` and `file_steps` that a piece on
/// `field` can take.
fn step_moves(field: &Field, board: &Board, row_steps: &[i32; 8], file_steps: &[i32; 8]) -> (moves:
    Vec<Field>)
    requires
        forall|i: int| 0 <= i < 8 ==> -2 <= #[trigger] row_steps[i] <= 2,
        forall|i: int| 0 <= i < 8 ==> -2 <= #[trigger] file_steps[i] <= 2,
    ensures
        moves@ == step_targets(
            board@,
            mover_color(board@, *field),
            field.spec_row(),
            field.spec_file(),
            *row_steps,
            *file_steps,
            8,
        ),
{
    broadcast use Field::lemma_at;

    let color = color_on(field, board);
    let row: i32 = field.get_row() as i32;
    let file: i32 = field.get_file() as i32;
    let mut moves: Vec<Field> = Vec::new();
    let mut i: usize = 0;
    while i < 8
        invariant
            i <= 8,
            row == field.spec_row(),
            file == field.spec_file(),
            Field::on_board(row as int, file as int),
            color == mover_color(board@, *field),
            forall|i: int| 0 <= i < 8 ==> -2 <= #[trigger] row_steps[i] <= 2,
            forall|i: int| 0 <= i < 8 ==> -2 <= #[trigger] file_steps[i] <= 2,
            moves@ == step_targets(
                board@,
                color,
                row as int,
                file as int,
                *row_steps,
                *file_steps,
                i as int,
            ),
        decreases 8 - i,
    {
        let ghost before = moves@;
        if let Some(target) = Field::build(row + row_steps[i], file + file_steps[i]) {
            if is_open_to(board, color, &target) {
                moves.push(target);
            }
        }
        proof {
            let r = row + row_steps[i as int];
            let f = file + file_steps[i as int];
            assert(moves@ =~= before + target_if(open_to(board@, color, r, f), r, f));
        }
        i += 1;
    }
    moves
}

/// Where a king on `field` can step.
fn king_moves_unchecked(field: &Field, board: &Board) -> (moves: Vec<Field>)
    ensures
        moves@ == king_targets(board@, *field),
{
    step_moves(field, board, &KING_ROW_STEPS, &KING_FILE_STEPS)
}

/// Where a knight on `field` can jump.
fn knight_moves_unchecked(field: &Field, board: &Board) -> (moves: Vec<Field>)
    ensures
        moves@ == knight_targets(board@, *field),
{
    step_moves(field, board, &KNIGHT_ROW_STEPS, &KNIGHT_FILE_STEPS)
}

/// The reach of a sliding piece on `field` in direction (`ns`, `we`).
fn go_in_dir(field: &Field, board: &Board, ns: i32, we: i32) -> (moves: Vec<Field>)
    requires
        -1 <= ns <= 1,
        -1 <= we <= 1,
    ensures
        moves@ == line(board@, *field, ns as int, we as int),
{
    broadcast use Field::lemma_at;

    let color = color_on(field, board);
    let mut moves: Vec<Field> = Vec::new();
    let mut row: i32 = field.get_row() as i32;
    let mut file: i32 = field.get_file() as i32;
    let mut steps: u8 = 7;
    while steps > 0
        invariant
            steps <= 7,
            Field::on_board(row as int, file as int),
            -1 <= ns <= 1,
            -1 <= we <= 1,
            moves@ + ray(board@, color, row as int, file as int, ns as int, we as int, steps as nat)
                == line(board@, *field, ns as int, we as int),
        decreases steps,
    {
        let target = match Field::build(row + ns, file + we) {
            Some(target) => target,
            None => {
                proof {
                    assert(moves@ + Seq::<Field>::empty() =~= moves@);
                }
                return moves;
            },
        };
        match board.field_content(&target) {
            None => {
                proof {
                    let rest = ray(
                        board@,
                        color,
                        row + ns,
                        file + we,
                        ns as int,
                        we as int,
                        (steps - 1) as nat,
                    );
                    assert(moves@.push(target) + rest =~= moves@ + (seq![target] + rest));
                }
                moves.push(target);
            },
            Some(piece) => {
                let ghost before = moves@;
                if piece.color != color {
                    moves.push(target);
                }
                proof {
                    assert(moves@ =~= before + target_if(
                        piece.color != color,
                        row + ns,
                        file + we,
                    ));
                }
                return moves;
            },
        }
        row = row + ns;
        file = file + we;
        steps = steps - 1;
    }
    proof {
        assert(moves@ + Seq::<Field>::empty() =~= moves@);
    }
    moves
}

/// Where a queen on `field` can slide.
fn queen_moves_unchecked(field: &Field, board: &Board) -> (moves: Vec<Field>)
    ensures
        moves@ == queen_targets(board@, *field),
{
    let mut moves: Vec<Field> = Vec::new();
    let mut part = go_in_dir(field, board, 1, 0);
    moves.append(&mut part);
    let mut part = go_in_dir(field, board, 1, 1);
    moves.append(&mut part);
    let mut part = go_in_dir(field, board, 1, -1);
    moves.append(&mut part);
    let mut part = go_in_dir(field, board, 0, 1);
    moves.append(&mut part);
    let mut part = go_in_dir(field, board, 0, -1);
    moves.append(&mut part);
    let mut part = go_in_dir(field, board, -1, 0);
    moves.append(&mut part);
    let mut part = go_in_dir(field, board, -1, 1);
    moves.append(&mut part);
    let mut part = go_in_dir(field, board, -1, -1);
    moves.append(&mut part);
    proof {
        assert(moves@ =~= queen_targets(board@, *field));
    }
    moves
}

/// Where a bishop on `field` can slide.
fn bishop_moves_unchecked(field: &Field, board: &Board) -> (moves: Vec<Field>)
    ensures
        moves@ == bishop_targets(board@, *field),
{
    let mut moves: Vec<Field> = Vec::new();
    let mut part = go_in_dir(field, board, 1, 1);
    moves.append(&mut part);
    let mut part = go_in_dir(field, board, -1, 1);
    moves.append(&mut part);
    let mut part = go_in_dir(field, board, -1, -1);
    moves.append(&mut part);
    let mut part = go_in_dir(field, board, 1, -1);
    moves.append(&mut part);
    proof {
        assert(moves@ =~= bishop_targets(board@, *field));
    }
    moves
}

/// Where a rook on `field` can slide.
fn rook_moves_unchecked(field: &Field, board: &Board) -> (moves: Vec<Field>)
    ensures
        moves@ == rook_targets(board@, *field),
{
    let mut moves: Vec<Field> = Vec::new();
    let mut part = go_in_dir(field, board, 1, 0);
    moves.append(&mut part);
    let mut part = go_in_dir(field, board, -1, 0);
    moves.append(&mut part);
    let mut part = go_in_dir(field, board, 0, 1);
    moves.append(&mut part);
    let mut part = go_in_dir(field, board, 0, -1);
    moves.append(&mut part);
    proof {
        assert(moves@ =~= rook_targets(board@, *field));
    }
    moves
}

/// Adds the square to `moves` where an enemy of `color` stands on it.
fn push_capture(moves: &mut Vec<Field>, board: &Board, color: Color, row: i32, file: i32)
    requires
        -1 <= row <= 10,
        -1 <= file <= 10,
    ensures
        final(moves)@ == old(moves)@ + target_if(
            enemy_on(board@, color, row as int, file as int),
            row as int,
            file as int,
        ),
{
    if let Some(target) = Field::build(row, file) {
        if is_enemy_on(board, color, &target) {
            moves.push(target);
        }
    }
    proof {
        assert(moves@ =~= old(moves)@ + target_if(
            enemy_on(board@, color, row as int, file as int),
            row as int,
            file as int,
        ));
    }
}

/// Adds the square diagonally ahead on `side` to `moves` where the pawn
/// can capture in passing there.
fn push_passing(
    moves: &mut Vec<Field>,
    board: &Board,
    color: Color,
    row: i32,
    file: i32,
    side: i32,
)
    requires
        Field::on_board(row as int, file as int),
        side == 1 || side == -1,
    ensures
        final(moves)@ == old(moves)@ + target_if(
            passing_open(board@, color, row as int, file as int, side as int),
            row + forward(color),
            file + side,
        ),
{
    let landing: i32 = match color {
        Color::White => 5,
        Color::Black => 4,
    };
    let ahead: i32 = match color {
        Color::White => row + 1,
        Color::Black => row - 1,
    };
    if let Some(beside) = Field::build(row, file + side) {
        if board.can_en_passant(beside.get_file()) && row == landing && is_enemy_on(
            board,
            color,
            &beside,
        ) {
            if let Some(target) = Field::build(ahead, file + side) {
                moves.push(target);
            }
        }
    }
    proof {
        assert(moves@ =~= old(moves)@ + target_if(
            passing_open(board@, color, row as int, file as int, side as int),
            row + forward(color),
            file + side,
        ));
    }
}

/// Where a pawn on `field` can go.
fn pawn_moves_unchecked(field: &Field, board: &Board) -> (moves: Vec<Field>)
    ensures
        moves@ == pawn_targets(board@, *field),
{
    let mut moves: Vec<Field> = Vec::new();
    let color = color_on(field, board);
    let row: i32 = field.get_row() as i32;
    let file: i32 = field.get_file() as i32;
    let next_row: i32 = match color {
        Color::White => row + 1,
        Color::Black => row - 1,
    };
    let next2_row: i32 = match color {
        Color::White => row + 2,
        Color::Black => row - 2,
    };
    let home: i32 = match color {
        Color::White => 2,
        Color::Black => 7,
    };
    if let Some(next_field) = Field::build(next_row, file) {
        if board.field_content(&next_field).is_none() {
            moves.push(next_field);
            if row == home {
                if let Some(next2_field) = Field::build(next2_row, file) {
                    if board.field_content(&next2_field).is_none() {
                        moves.push(next2_field);
                    }
                }
            }
        }
    }
    proof {
        let one = empty_on(board@, next_row as int, file as int);
        let two = one && row == pawn_home_row(color) && empty_on(
            board@,
            next2_row as int,
            file as int,
        );
        assert(moves@ =~= target_if(one, next_row as int, file as int) + target_if(
            two,
            next2_row as int,
            file as int,
        ));
    }
    push_capture(&mut moves, board, color, next_row, file - 1);
    push_capture(&mut moves, board, color, next_row, file + 1);
    push_passing(&mut moves, board, color, row, file, 1);
    push_passing(&mut moves, board, color, row, file, -1);
    moves
}

/// The squares that the piece on `field` can move to, whether or not
/// the move would leave its own king in check.
pub fn possible_moves_unchecked(field: &Field, board: &Board) -> (moves: Vec<Field>)
    ensures
        moves@ == pseudo_moves(board@, *field),
{
    reveal(pseudo_moves);
    match board.field_content(field) {
        None => Vec::new(),
        Some(piece) => match piece.kind_of_piece {
            KindOfPiece::King => king_moves_unchecked(field, board),
            KindOfPiece::Queen => queen_moves_unchecked(field, board),
            KindOfPiece::Bishop => bishop_moves_unchecked(field, board),
            KindOfPiece::Knight => knight_moves_unchecked(field, board),
            KindOfPiece::Rook => rook_moves_unchecked(field, board),
            KindOfPiece::Pawn => pawn_moves_unchecked(field, board),
        },
    }
}

/// Whether one of `targets` holds the king of `color`.
fn king_among(board: &Board, color: Color, targets: &Vec<Field>) -> (found: bool)
    ensures
        found == exists|k: int|
            0 <= k < targets@.len() && board@.piece_at(#[trigger] targets@[k]) == Some(
                king_of(color),
            ),
{
    let mut k: usize = 0;
    while k < targets.len()
        invariant
            k <= targets@.len(),
            forall|j: int|
                0 <= j < k ==> board@.piece_at(#[trigger] targets@[j]) != Some(king_of(color)),
        decreases targets@.len() - k,
    {
        if let Some(piece) = board.field_content(&targets[k]) {
            if piece.kind_of_piece == KindOfPiece::King && piece.color == color {
                return true;
            }
        }
        k += 1;
    }
    false
}

/// Whether the king of `color` stands where an enemy piece can move to.
pub fn is_check(board: &Board, color: &Color) -> (check: bool)
    ensures
        check == in_check(board@, *color),
{
    broadcast use Field::lemma_at;

    reveal(in_check);

    let mut row: u8 = 1;
    while row <= 8
        invariant
            1 <= row <= 9,
            forall|r: int, f: int|
                1 <= r < row && 1 <= f <= 8 ==> !#[trigger] attacks_king(board@, *color, r, f),
        decreases 9 - row,
    {
        let mut file: u8 = 1;
        while file <= 8
            invariant
                1 <= row <= 8,
                1 <= file <= 9,
                forall|r: int, f: int|
                    1 <= r < row && 1 <= f <= 8 ==> !#[trigger] attacks_king(board@, *color, r, f),
                forall|f: int| 1 <= f < file ==> !#[trigger] attacks_king(board@, *color, row as int, f),
            decreases 9 - file,
        {
            let field = Field::build_unchecked(row, file);
            if is_enemy_on(board, *color, &field) {
                let reach = possible_moves_unchecked(&field, board);
                if king_among(board, *color, &reach) {
                    proof {
                        reveal(in_check);
                        assert(attacks_king(board@, *color, row as int, file as int));
                    }
                    return true;
                }
            }
            file += 1;
        }
        row += 1;
    }
    false
}

/// Adds `mv` to `moves` where playing it leaves the king of `color` out of check.
fn push_if_safe(moves: &mut Vec<Move>, board: &Board, color: Color, mv: Move)
    requires
        board@.piece_at(mv.spec_from_field()) is Some,
    ensures
        final(moves)@ == old(moves)@ + safe_only(board@, color, mv),
{
    let mut scratch = *board;
    scratch.apply_unchecked(&mv);
    if !is_check(&scratch, &color) {
        moves.push(mv);
    }
    proof {
        assert(moves@ =~= old(moves)@ + safe_only(board@, color, mv));
    }
}

/// Packs the move from `from` to `to` with a promotion that exists.
fn pack(from: &Field, to: &Field, promotion: Option<KindOfPiece>) -> (mv: Move)
    requires
        Move::promotable(promotion),
    ensures
        mv == Move::spec_build(*from, *to, promotion),
        mv.spec_from_field() == *from,
{
    proof {
        use_type_invariant(from);
        use_type_invariant(to);
        Move::lemma_decode_encode(*from, *to, promotion);
    }
    Move::build(*from, *to, promotion).unwrap()
}

/// Adds to `moves` the legal moves from `field` to `target`.
fn push_legal_to(moves: &mut Vec<Move>, board: &Board, field: &Field, piece: Piece, target: &Field)
    requires
        board@.piece_at(*field) == Some(piece),
    ensures
        final(moves)@ == old(moves)@ + legal_to(board@, *field, *target),
{
    let row: u8 = target.get_row();
    if piece.kind_of_piece == KindOfPiece::Pawn && (row == 1 || row == 8) {
        let queen = pack(field, target, Some(KindOfPiece::Queen));
        push_if_safe(moves, board, piece.color, queen);
        let knight = pack(field, target, Some(KindOfPiece::Knight));
        push_if_safe(moves, board, piece.color, knight);
        proof {
            assert(moves@ =~= old(moves)@ + legal_to(board@, *field, *target));
        }
    } else {
        let plain = pack(field, target, None);
        push_if_safe(moves, board, piece.color, plain);
    }
}

/// The legal moves of the piece on `field`.
pub fn possible_moves(field: &Field, board: &Board) -> (moves: Vec<Move>)
    ensures
        moves@ == legal_moves_from(board@, *field),
{
    let piece = match board.field_content(field) {
        None => {
            return Vec::new();
        },
        Some(piece) => *piece,
    };
    let targets = possible_moves_unchecked(field, board);
    let mut moves: Vec<Move> = Vec::new();
    let mut i: usize = 0;
    while i < targets.len()
        invariant
            i <= targets@.len(),
            board@.piece_at(*field) == Some(piece),
            moves@ == legal_among(board@, *field, targets@, i as int),
        decreases targets@.len() - i,
    {
        push_legal_to(&mut moves, board, field, piece, &targets[i]);
        i += 1;
    }
    moves
}

/// All legal moves of `color`.
pub fn player_moves(color: &Color, board: &Board) -> (moves: Vec<Move>)
    ensures
        moves@ == legal_moves_for(board@, *color),
{
    broadcast use Field::lemma_at;

    let mut moves: Vec<Move> = Vec::new();
    let mut row: u8 = 1;
    while row <= 8
        invariant
            1 <= row <= 9,
            moves@ == legal_moves_upto(board@, *color, (row - 1) * 8),
        decreases 9 - row,
    {
        let mut file: u8 = 1;
        while file <= 8
            invariant
                1 <= row <= 8,
                1 <= file <= 9,
                moves@ == legal_moves_upto(board@, *color, (row - 1) * 8 + (file - 1)),
            decreases 9 - file,
        {
            let field = Field::build_unchecked(row, file);
            let ghost before = moves@;
            let ghost n = (row - 1) * 8 + file;
            if let Some(piece) = board.field_content(&field) {
                if piece.color == *color {
                    let mut part = possible_moves(&field, board);
                    moves.append(&mut part);
                }
            }
            proof {
                assert((n - 1) / 8 + 1 == row && (n - 1) % 8 + 1 == file);
                assert(board@.grid[n - 1] == board@.piece_at(field));
                assert(moves@ =~= legal_moves_upto(board@, *color, n));
            }
            file += 1;
        }
        row += 1;
    }
    moves
}

/// No score is greater than this, and none is less than its negation.
pub const MAX_SCORE: i32 = 1283200;

/// The search tries the depths below this one, from 2 up.
pub const DEPTH_CEILING: u8 = 100;

/// From this depth up the replies at a node are searched in parallel.
pub const PARALLEL_DEPTH: u8 = 4;

/// The static evaluation as `color` sees it.
pub open spec fn signed_eval(p: Position, color: Color) -> int {
    match color {
        Color::White => p.spec_eval(),
        Color::Black => -p.spec_eval(),
    }
}

/// The position after `m` is played and the turn has passed.
pub open spec fn child(p: Position, m: Move) -> Position {
    p.apply(m).pass_turn()
}

/// The minimax value of the position for `color`, `depth` plies deep: at
/// depth 0 the static evaluation as `color` sees it; else the greatest,
/// over the legal moves of `color`, of the negated value of the position
/// after the move for the other side, one ply less deep. Without legal
/// moves it is 0 by convention; see `searchable`.
pub open spec fn negamax(p: Position, color: Color, depth: nat) -> int
    decreases depth, 1nat, 0nat,
{
    if depth == 0 {
        signed_eval(p, color)
    } else {
        let moves = legal_moves_for(p, color);
        let scores = reply_scores(p, color, moves, depth, moves.len());
        if scores.len() == 0 {
            0
        } else {
            scores[first_best(scores)]
        }
    }
}

/// The scores of the first `n` of `moves` for `color` at `depth`: for
/// each move the negated value of the position after it.
pub open spec fn reply_scores(p: Position, color: Color, moves: Seq<Move>, depth: nat, n: nat)
    -> Seq<int>
    decreases depth, 0nat, n,
{
    if depth == 0 || n == 0 {
        Seq::empty()
    } else {
        reply_scores(p, color, moves, depth, (n - 1) as nat).push(
            -negamax(child(p, moves[n - 1]), color.spec_enemy(), (depth - 1) as nat),
        )
    }
}

/// The scores of all legal moves of `color` at `depth`.
pub open spec fn replies(p: Position, color: Color, depth: nat) -> Seq<int> {
    let moves = legal_moves_for(p, color);
    reply_scores(p, color, moves, depth, moves.len())
}

/// The search meets no position without legal moves before its depth
/// runs out. Where it does, it has no value to give: the engine scores
/// neither mate nor stalemate.
pub open spec fn searchable(p: Position, color: Color, depth: nat) -> bool
    decreases depth,
{
    depth == 0 || {
        let moves = legal_moves_for(p, color);
        moves.len() > 0 && forall|i: int|
            0 <= i < moves.len() ==> searchable(
                child(p, #[trigger] moves[i]),
                color.spec_enemy(),
                (depth - 1) as nat,
            )
    }
}

/// The move that the plain search picks: the first of the best.
pub open spec fn first_choice(p: Position, color: Color, depth: nat) -> Option<Move> {
    if depth == 0 {
        None
    } else {
        Some(legal_moves_for(p, color)[first_best(replies(p, color, depth))])
    }
}

/// The move that the parallel search picks: below the parallel depth the
/// first of the best, from there on the last of the best.
pub open spec fn parallel_choice(p: Position, color: Color, depth: nat) -> Option<Move> {
    if depth < PARALLEL_DEPTH {
        first_choice(p, color, depth)
    } else {
        Some(legal_moves_for(p, color)[last_best(replies(p, color, depth))])
    }
}

/// How a search ended.
#[derive(Copy, Clone, PartialEq, Eq, Debug)]
pub enum Search {
    /// The stop signal was seen before the search was through.
    Cancelled,
    /// The search met a position without legal moves above depth 0.
    NoMoves,
    /// The search is through: the move picked, if any, and the score.
    Done(Option<Move>, i32),
}

/// What a search of `p` for `color` at `depth` may answer, where
/// `choice` is the move to pick: where it has a stop signal to poll it
/// may be cancelled at any time; it reports a position without moves
/// exactly where there is one; and else it gives the choice and the
/// minimax value.
pub open spec fn search_answers(
    p: Position,
    color: Color,
    depth: nat,
    choice: Option<Move>,
    may_cancel: bool,
    r: Search,
) -> bool {
    match r {
        Search::Cancelled => may_cancel,
        Search::NoMoves => !searchable(p, color, depth),
        Search::Done(best, score) => searchable(p, color, depth) && best == choice && score
            == negamax(p, color, depth),
    }
}

/// What rating the reply `m` of `color` at `depth` may answer: as a
/// search of the position after `m`, with the move itself and the
/// negated score.
pub open spec fn reply_answers(
    p: Position,
    color: Color,
    m: Move,
    depth: nat,
    may_cancel: bool,
    r: Search,
) -> bool {
    let after = child(p, m);
    let enemy = color.spec_enemy();
    match r {
        Search::Cancelled => may_cancel,
        Search::NoMoves => !searchable(after, enemy, (depth - 1) as nat),
        Search::Done(best, score) => searchable(after, enemy, (depth - 1) as nat) && best == Some(
            m,
        ) && score == -negamax(after, enemy, (depth - 1) as nat),
    }
}

/// There are as many reply scores as moves asked for.
pub proof fn lemma_reply_scores_len(p: Position, color: Color, moves: Seq<Move>, depth: nat, n: nat)
    requires
        depth > 0,
    ensures
        reply_scores(p, color, moves, depth, n).len() == n,
    decreases n,
{
    if n > 0 {
        lemma_reply_scores_len(p, color, moves, depth, (n - 1) as nat);
    }
}

/// The `j`-th reply score is the negated value after the `j`-th move.
pub proof fn lemma_reply_scores_index(
    p: Position,
    color: Color,
    moves: Seq<Move>,
    depth: nat,
    n: nat,
    j: int,
)
    requires
        depth > 0,
        0 <= j < n,
    ensures
        reply_scores(p, color, moves, depth, n).len() == n,
        reply_scores(p, color, moves, depth, n)[j] == -negamax(
            child(p, moves[j]),
            color.spec_enemy(),
            (depth - 1) as nat,
        ),
    decreases n,
{
    lemma_reply_scores_len(p, color, moves, depth, n);
    lemma_reply_scores_len(p, color, moves, depth, (n - 1) as nat);
    if j < n - 1 {
        lemma_reply_scores_index(p, color, moves, depth, (n - 1) as nat, j);
    }
}

/// Every minimax value lies within the score bounds.
pub proof fn lemma_negamax_bounded(p: Position, color: Color, depth: nat)
    ensures
        -MAX_SCORE <= negamax(p, color, depth) <= MAX_SCORE,
    decreases depth,
{
    if depth == 0 {
        Position::lemma_eval_bounded(p.grid, 64);
    } else {
        let moves = legal_moves_for(p, color);
        let scores = reply_scores(p, color, moves, depth, moves.len());
        lemma_reply_scores_len(p, color, moves, depth, moves.len());
        if scores.len() > 0 {
            lemma_first_best(scores);
            let best = first_best(scores);
            lemma_reply_scores_index(p, color, moves, depth, moves.len(), best);
            lemma_negamax_bounded(child(p, moves[best]), color.spec_enemy(), (depth - 1) as nat);
        }
    }
}

/// The first and the last of the best carry the same score.
pub proof fn lemma_best_scores_agree(scores: Seq<int>)
    requires
        scores.len() > 0,
    ensures
        scores[first_best(scores)] == scores[last_best(scores)],
{
    lemma_first_best(scores);
    lemma_last_best(scores);
}

/// Reads the stop signal, where there is one.
fn cancelled(stop: Option<&AtomicBool>) -> (seen: bool)
    ensures
        stop is None ==> !seen,
{
    match stop {
        Some(signal) => signal.load(Ordering::SeqCst),
        None => false,
    }
}

/// The static evaluation as `turn` sees it.
fn eval_for(board: &Board, turn: Color) -> (score: i32)
    ensures
        score == signed_eval(board@, turn),
        -MAX_SCORE <= score <= MAX_SCORE,
{
    let quality: i32 = board.eval();
    proof {
        Position::lemma_eval_bounded(board@.grid, 64);
    }
    match turn {
        Color::White => quality,
        Color::Black => -quality,
    }
}

/// The board after `mv` is played and the turn has passed.
fn play(board: &Board, mv: &Move) -> (after: Board)
    requires
        board@.piece_at(mv.spec_from_field()) is Some,
    ensures
        after@ == child(board@, *mv),
{
    let mut after = *board;
    after.apply_unchecked(mv);
    after.next_turn();
    after
}

/// Plain minimax, `depth` plies deep. Where a stop signal is given it
/// is polled at every node; without one the search always comes through.
pub fn minimax_single_thread(
    board: &Board,
    turn: &Color,
    depth: u8,
    stop: Option<&AtomicBool>,
) -> (r: Search)
    ensures
        search_answers(
            board@,
            *turn,
            depth as nat,
            first_choice(board@, *turn, depth as nat),
            stop is Some,
            r,
        ),
    decreases depth,
{
    if cancelled(stop) {
        return Search::Cancelled;
    }
    if depth == 0 {
        return Search::Done(None, eval_for(board, *turn));
    }
    let moves = player_moves(turn, board);
    if moves.len() == 0 {
        return Search::NoMoves;
    }
    let enemy = turn.enemy();
    let mut scores: Vec<i32> = Vec::new();
    let mut i: usize = 0;
    proof {
        board.lemma_view_wf();
        lemma_legal_moves_for(board@, *turn);
    }
    while i < moves.len()
        invariant
            i <= moves@.len(),
            depth >= 1,
            moves@ == legal_moves_for(board@, *turn),
            enemy == turn.spec_enemy(),
            scores@.len() == i,
            as_ints(scores@) == reply_scores(board@, *turn, moves@, depth as nat, i as nat),
            forall|j: int|
                0 <= j < i ==> searchable(
                    child(board@, #[trigger] moves@[j]),
                    enemy,
                    (depth - 1) as nat,
                ),
            forall|j: int| 0 <= j < moves@.len() ==> is_legal(board@, *turn, #[trigger] moves@[j]),
        decreases moves@.len() - i,
    {
        assert(is_legal(board@, *turn, moves@[i as int]));
        let after = play(board, &moves[i]);
        match minimax_single_thread(&after, &enemy, depth - 1, stop) {
            Search::Cancelled => {
                return Search::Cancelled;
            },
            Search::NoMoves => {
                return Search::NoMoves;
            },
            Search::Done(_, score) => {
                proof {
                    lemma_negamax_bounded(after@, enemy, (depth - 1) as nat);
                    assert(as_ints(scores@.push((-score) as i32)) =~= as_ints(scores@).push(
                        -score as int,
                    ));
                }
                scores.push(-score);
            },
        }
        i += 1;
    }
    if cancelled(stop) {
        return Search::Cancelled;
    }
    let best = pick_first_best(&scores);
    proof {
        lemma_reply_scores_len(board@, *turn, moves@, depth as nat, moves@.len());
    }
    Search::Done(Some(moves[best]), scores[best])
}

/// Rates one reply: plays `mv`, polls the stop signal, searches the
/// position that results for the other side one ply less deep, and
/// negates the score.
pub fn rate_reply(
    board: &Board,
    turn: Color,
    mv: &Move,
    depth: u8,
    stop: Option<&AtomicBool>,
) -> (r: Search)
    requires
        depth >= 1,
        board@.piece_at(mv.spec_from_field()) is Some,
    ensures
        reply_answers(board@, turn, *mv, depth as nat, stop is Some, r),
{
    let after = play(board, mv);
    if cancelled(stop) {
        return Search::Cancelled;
    }
    let enemy = turn.enemy();
    match minimax_multithreaded(&after, &enemy, depth - 1, stop) {
        Search::Cancelled => Search::Cancelled,
        Search::NoMoves => Search::NoMoves,
        Search::Done(_, score) => {
            proof {
                lemma_negamax_bounded(after@, enemy, (depth - 1) as nat);
            }
            Search::Done(Some(*mv), -score)
        },
    }
}

/// Rates every reply on rayon's worker pool: `par_iter` over the moves,
/// `map` with `rate_reply`, `collect` into a vector. Trusted: that the
/// vector holds, at each index, what `rate_reply` answered for the move at
/// that index, so that each entry meets the contract of `rate_reply`.
/// The search comes back here through `rate_reply`, each time one ply
/// less deep, so the descent ends.
#[verifier::external_body]
fn rate_replies(
    board: &Board,
    turn: Color,
    moves: &Vec<Move>,
    depth: u8,
    stop: Option<&AtomicBool>,
) -> (rated: Vec<Search>)
    requires
        depth >= 1,
        forall|i: int|
            0 <= i < moves@.len() ==> board@.piece_at((#[trigger] moves@[i]).spec_from_field())
                is Some,
    ensures
        rated@.len() == moves@.len(),
        forall|i: int|
            0 <= i < moves@.len() ==> reply_answers(
                board@,
                turn,
                moves@[i],
                depth as nat,
                stop is Some,
                #[trigger] rated@[i],
            ),
{
    moves.par_iter().map(|mv| rate_reply(board, turn, mv, depth, stop)).collect()
}

/// Minimax that searches the replies at a node in parallel from the
/// parallel depth up, and falls back on the plain search below it. The
/// stop signal is polled before the replies are handed out, by each
/// worker, and once more when all have answered.
pub fn minimax_multithreaded(
    board: &Board,
    turn: &Color,
    depth: u8,
    stop: Option<&AtomicBool>,
) -> (r: Search)
    ensures
        search_answers(
            board@,
            *turn,
            depth as nat,
            parallel_choice(board@, *turn, depth as nat),
            stop is Some,
            r,
        ),
{
    if cancelled(stop) {
        return Search::Cancelled;
    }
    if depth < PARALLEL_DEPTH {
        return minimax_single_thread(board, turn, depth, stop);
    }
    let moves = player_moves(turn, board);
    if moves.len() == 0 {
        return Search::NoMoves;
    }
    proof {
        board.lemma_view_wf();
        lemma_legal_moves_for(board@, *turn);
        assert forall|i: int| 0 <= i < moves@.len() implies board@.piece_at(
            (#[trigger] moves@[i]).spec_from_field(),
        ) is Some by {
            assert(is_legal(board@, *turn, moves@[i]));
        }
    }
    let rated = rate_replies(board, *turn, &moves, depth, stop);
    let mut scores: Vec<i32> = Vec::new();
    let mut i: usize = 0;
    while i < rated.len()
        invariant
            i <= moves@.len(),
            depth >= 1,
            rated@.len() == moves@.len(),
            moves@ == legal_moves_for(board@, *turn),
            scores@.len() == i,
            as_ints(scores@) == reply_scores(board@, *turn, moves@, depth as nat, i as nat),
            forall|j: int|
                0 <= j < i ==> searchable(
                    child(board@, #[trigger] moves@[j]),
                    turn.spec_enemy(),
                    (depth - 1) as nat,
                ),
            forall|j: int|
                0 <= j < moves@.len() ==> reply_answers(
                    board@,
                    *turn,
                    moves@[j],
                    depth as nat,
                    stop is Some,
                    #[trigger] rated@[j],
                ),
        decreases rated@.len() - i,
    {
        assert(reply_answers(
            board@,
            *turn,
            moves@[i as int],
            depth as nat,
            stop is Some,
            rated@[i as int],
        ));
        match rated[i] {
            Search::Cancelled => {
                return Search::Cancelled;
            },
            Search::NoMoves => {
                return Search::NoMoves;
            },
            Search::Done(_, score) => {
                proof {
                    assert(as_ints(scores@.push(score)) =~= as_ints(scores@).push(score as int));
                }
                scores.push(score);
            },
        }
        i += 1;
    }
    if cancelled(stop) {
        return Search::Cancelled;
    }
    let best = pick_last_best(&scores);
    proof {
        lemma_reply_scores_len(board@, *turn, moves@, depth as nat, moves@.len());
        lemma_best_scores_agree(as_ints(scores@));
    }
    Search::Done(Some(moves[best]), scores[best])
}

/// With a legal move to make, a search one ply deep meets no position
/// without moves.
pub proof fn lemma_one_ply_searchable(p: Position, color: Color)
    requires
        legal_moves_for(p, color).len() > 0,
    ensures
        searchable(p, color, 1),
{
    let moves = legal_moves_for(p, color);
    assert forall|j: int| 0 <= j < moves.len() implies searchable(
        child(p, #[trigger] moves[j]),
        color.spec_enemy(),
        0,
    ) by {}
}

/// The best reply one ply deep, found without consulting a stop signal.
pub fn best_reply(board: &Board, turn: &Color) -> (mv: Move)
    requires
        legal_moves_for(board@, *turn).len() > 0,
    ensures
        Some(mv) == first_choice(board@, *turn, 1),
        searchable(board@, *turn, 1),
        legal_moves_for(board@, *turn).contains(mv),
{
    proof {
        lemma_one_ply_searchable(board@, *turn);
        lemma_choice_is_legal_move(board@, *turn, 1);
    }
    match minimax_single_thread(board, turn, 1, None) {
        Search::Done(Some(found), _) => found,
        _ => vstd::pervasive::unreached(),
    }
}

/// Picks a move for `turn`: searches ever deeper from depth 2 and keeps
/// the choice of the deepest search that came through; where none did,
/// the best reply one ply deep.
pub fn get_move(board: &Board, turn: &Color, stop: &AtomicBool) -> (mv: Move)
    requires
        legal_moves_for(board@, *turn).len() > 0,
    ensures
        is_legal(board@, *turn, mv),
        legal_moves_for(board@, *turn).contains(mv),
        exists|depth: nat|
            1 <= depth < DEPTH_CEILING && searchable(board@, *turn, depth) && #[trigger] parallel_choice(
                board@,
                *turn,
                depth,
            ) == Some(mv),
{
    let mut chosen = best_reply(board, turn);
    let mut depth: u8 = 2;
    proof {
        assert(parallel_choice(board@, *turn, 1) == Some(chosen));
    }
    while depth < DEPTH_CEILING
        invariant
            2 <= depth <= DEPTH_CEILING,
            legal_moves_for(board@, *turn).len() > 0,
            legal_moves_for(board@, *turn).contains(chosen),
            exists|d: nat|
                1 <= d < depth && searchable(board@, *turn, d) && #[trigger] parallel_choice(
                    board@,
                    *turn,
                    d,
                ) == Some(chosen),
        decreases DEPTH_CEILING - depth,
    {
        match minimax_multithreaded(board, turn, depth, Some(stop)) {
            Search::Done(Some(found), _) => {
                proof {
                    lemma_choice_is_legal_move(board@, *turn, depth as nat);
                    assert(parallel_choice(board@, *turn, depth as nat) == Some(found));
                }
                chosen = found;
            },
            _ => {
                break ;
            },
        }
        depth += 1;
    }
    proof {
        board.lemma_view_wf();
        lemma_legal_moves_for(board@, *turn);
    }
    chosen
}

/// Where `color` has a legal move, the choice at any depth from 1 up is
/// one of its legal moves.
pub proof fn lemma_choice_is_legal_move(p: Position, color: Color, depth: nat)
    requires
        depth >= 1,
        legal_moves_for(p, color).len() > 0,
    ensures
        first_choice(p, color, depth) matches Some(m) && legal_moves_for(p, color).contains(m),
        parallel_choice(p, color, depth) matches Some(m) && legal_moves_for(p, color).contains(m),
{
    let moves = legal_moves_for(p, color);
    lemma_reply_scores_len(p, color, moves, depth, moves.len());
    lemma_first_best(replies(p, color, depth));
    lemma_last_best(replies(p, color, depth));
}

} // verus!
