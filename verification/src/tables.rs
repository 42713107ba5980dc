//! Static evaluation tables: material values and piece-square bonuses.

use vstd::prelude::*;
use crate::board::Color;
use crate::board::Field;
use crate::board::KindOfPiece;
use crate::board::Piece;

verus! {

/// Material value by kind, pawn first and king last.
pub const PIECE_VALUES: [i32; 6] = [100, 320, 330, 500, 900, 20000];

/// Square bonuses of a pawn, from the eighth row down to the first as white sees them.
pub const PAWN_FIELDS: [i32; 64] = [
    0, 0, 0, 0, 0, 0, 0, 0,
    50, 50, 50, 50, 50, 50, 50, 50,
    10, 10, 20, 30, 30, 20, 10, 10,
    5, 5, 10, 25, 25, 10, 5, 5,
    0, 0, 0, 20, 20, 0, 0, 0,
    5, -5, -10, 0, 0, -10, -5, 5,
    5, 10, 10, -20, -20, 10, 10, 5,
    0, 0, 0, 0, 0, 0, 0, 0,
];

/// Square bonuses of a knight.
pub const KNIGHT_FIELDS: [i32; 64] = [
    -50, -40, -30, -30, -30, -30, -40, -50,
    -40, -20, 0, 0, 0, 0, -20, -40,
    -30, 0, 10, 15, 15, 10, 0, -30,
    -30, 5, 15, 20, 20, 15, 5, -30,
    -30, 0, 15, 20, 20, 15, 0, -30,
    -30, 5, 10, 15, 15, 10, 5, -30,
    -40, -20, 0, 5, 5, 0, -20, -40,
    -50, -40, -30, -30, -30, -30, -40, -50,
];

/// Square bonuses of a bishop.
pub const BISHOP_FIELDS: [i32; 64] = [
    -20, -10, -10, -10, -10, -10, -10, -20,
    -10, 0, 0, 0, 0, 0, 0, -10,
    -10, 0, 5, 10, 10, 5, 0, -10,
    -10, 5, 5, 10, 10, 5, 5, -10,
    -10, 0, 10, 10, 10, 10, 0, -10,
    -10, 10, 10, 10, 10, 10, 10, -10,
    -10, 5, 0, 0, 0, 0, 5, -10,
    -20, -10, -10, -10, -10, -10, -10, -20,
];

/// Square bonuses of a rook.
pub const ROOK_FIELDS: [i32; 64] = [
    0, 0, 0, 0, 0, 0, 0, 0,
    5, 10, 10, 10, 10, 10, 10, 5,
    -5, 0, 0, 0, 0, 0, 0, -5,
    -5, 0, 0, 0, 0, 0, 0, -5,
    -5, 0, 0, 0, 0, 0, 0, -5,
    -5, 0, 0, 0, 0, 0, 0, -5,
    -5, 0, 0, 0, 0, 0, 0, -5,
    0, 0, 0, 5, 5, 0, 0, 0,
];

/// Square bonuses of a queen.
pub const QUEEN_FIELDS: [i32; 64] = [
    -20, -10, -10, -5, -5, -10, -10, -20,
    -10, 0, 0, 0, 0, 0, 0, -10,
    -10, 0, 5, 5, 5, 5, 0, -10,
    -5, 0, 5, 5, 5, 5, 0, -5,
    0, 0, 5, 5, 5, 5, 0, -5,
    -10, 5, 5, 5, 5, 5, 0, -10,
    -10, 0, 5, 0, 0, 0, 0, -10,
    -20, -10, -10, -5, -5, -10, -10, -20,
];

/// Square bonuses of a king while the game is young.
pub const KING_EARLY_FIELDS: [i32; 64] = [
    -30, -40, -40, -50, -50, -40, -40, -30,
    -30, -40, -40, -50, -50, -40, -40, -30,
    -30, -40, -40, -50, -50, -40, -40, -30,
    -30, -40, -40, -50, -50, -40, -40, -30,
    -20, -30, -30, -40, -40, -30, -30, -20,
    -10, -20, -20, -20, -20, -20, -20, -10,
    20, 20, 0, 0, 0, 0, 20, 20,
    20, 30, 10, 0, 0, 10, 30, 20,
];

/// Square bonuses of a king in the endgame.
pub const KING_LATE_FIELDS: [i32; 64] = [
    -50, -40, -30, -20, -20, -30, -40, -50,
    -30, -20, -10, 0, 0, -10, -20, -30,
    -30, -10, 20, 30, 30, 20, -10, -30,
    -30, -10, 30, 40, 40, 30, -10, -30,
    -30, -10, 30, 40, 40, 30, -10, -30,
    -30, -10, 20, 30, 30, 20, -10, -30,
    -30, -30, 0, 0, 0, 0, -30, -30,
    -50, -30, -30, -30, -30, -30, -30, -50,
];

/// The largest absolute value that one piece can contribute.
pub const MAX_PIECE_VALUE: i32 = 20050;

/// Material value of a kind.
pub open spec fn material(kind: KindOfPiece) -> int {
    PIECE_VALUES[Piece::kind_index(kind)] as int
}

/// Square bonus of a kind at table slot `slot` (0..=63).
pub open spec fn field_bonus(kind: KindOfPiece, early_stage: bool, slot: int) -> int {
    match kind {
        KindOfPiece::Pawn => PAWN_FIELDS[slot] as int,
        KindOfPiece::Knight => KNIGHT_FIELDS[slot] as int,
        KindOfPiece::Bishop => BISHOP_FIELDS[slot] as int,
        KindOfPiece::Rook => ROOK_FIELDS[slot] as int,
        KindOfPiece::Queen => QUEEN_FIELDS[slot] as int,
        KindOfPiece::King => if early_stage {
            KING_EARLY_FIELDS[slot] as int
        } else {
            KING_LATE_FIELDS[slot] as int
        },
    }
}

/// The table slot of a square, seen from the side that owns the piece:
/// the tables are written from white's far row down, and mirrored for black.
pub open spec fn table_slot(color: Color, row: int, file: int) -> int {
    match color {
        Color::Black => (row - 1) * 8 + (file - 1),
        Color::White => (8 - row) * 8 + (file - 1),
    }
}

/// Value of `piece` standing on (`row`, `file`): material plus square
/// bonus, positive for white and negative for black.
pub open spec fn value_at(row: int, file: int, piece: Piece, early_stage: bool) -> int {
    let unsigned = material(piece.kind_of_piece) + field_bonus(
        piece.kind_of_piece,
        early_stage,
        table_slot(piece.color, row, file),
    );
    match piece.color {
        Color::White => unsigned,
        Color::Black => -unsigned,
    }
}

/// Value of `piece` standing on `field`.
pub open spec fn spec_piece_value(field: Field, piece: Piece, early_stage: bool) -> int {
    value_at(field.spec_row(), field.spec_file(), piece, early_stage)
}

/// No piece on any square is worth more than `MAX_PIECE_VALUE` to either side.
pub proof fn lemma_value_bounded(row: int, file: int, piece: Piece, early_stage: bool)
    requires
        Field::on_board(row, file),
    ensures
        -MAX_PIECE_VALUE <= value_at(row, file, piece, early_stage) <= MAX_PIECE_VALUE,
{
    let slot = table_slot(piece.color, row, file);
    assert(0 <= slot < 64);
    assert(-50 <= PAWN_FIELDS[slot] <= 50);
    assert(-50 <= KNIGHT_FIELDS[slot] <= 50);
    assert(-50 <= BISHOP_FIELDS[slot] <= 50);
    assert(-50 <= ROOK_FIELDS[slot] <= 50);
    assert(-50 <= QUEEN_FIELDS[slot] <= 50);
    assert(-50 <= KING_EARLY_FIELDS[slot] <= 50);
    assert(-50 <= KING_LATE_FIELDS[slot] <= 50);
}

/// Static value of one piece on one square.
pub fn piece_value(field: &Field, piece: &Piece, early_stage: bool) -> (value: i32)
    ensures
        value == spec_piece_value(*field, *piece, early_stage),
        -MAX_PIECE_VALUE <= value <= MAX_PIECE_VALUE,
{
    let row: u8 = field.get_row();
    let file: u8 = field.get_file();
    let slot: usize = match piece.color {
        Color::Black => ((row - 1) * 8 + (file - 1)) as usize,
        Color::White => ((8 - row) * 8 + (file - 1)) as usize,
    };
    proof {
        lemma_value_bounded(row as int, file as int, *piece, early_stage);
    }
    let value: i32 = match piece.kind_of_piece {
        KindOfPiece::Pawn => PIECE_VALUES[0] + PAWN_FIELDS[slot],
        KindOfPiece::Knight => PIECE_VALUES[1] + KNIGHT_FIELDS[slot],
        KindOfPiece::Bishop => PIECE_VALUES[2] + BISHOP_FIELDS[slot],
        KindOfPiece::Rook => PIECE_VALUES[3] + ROOK_FIELDS[slot],
        KindOfPiece::Queen => PIECE_VALUES[4] + QUEEN_FIELDS[slot],
        KindOfPiece::King => PIECE_VALUES[5] + if early_stage {
            KING_EARLY_FIELDS[slot]
        } else {
            KING_LATE_FIELDS[slot]
        },
    };
    match piece.color {
        Color::White => value,
        Color::Black => -value,
    }
}

} // verus!
