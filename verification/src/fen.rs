//! Reading a position from its description: eight rows from black's
//! side down, the side to move, the castling rights and the files open to
//! a capture in passing.

use vstd::prelude::*;
use vstd::slice::slice_subrange;
use vstd::slice::slice_to_vec;
use crate::board::Board;
use crate::board::Color;
use crate::board::Field;
use crate::board::KindOfPiece;
use crate::board::Piece;
use crate::board::Position;
use crate::text::spec_split;
use crate::text::split;
use crate::text::split_whitespace;
use crate::text::views;
use crate::text::whitespace_tokens;

verus! {

/// The four fields of a position description, as bytes.
pub struct FenFields {
    pub rows: Seq<Seq<u8>>,
    pub turn: u8,
    pub castle: Seq<u8>,
    pub en_passant: Seq<u8>,
}

/// A position description cut into its fields: eight rows, one turn
/// letter, four castling letters and the en-passant field. What the
/// fields say is not looked at yet.
#[derive(Debug)]
pub struct FENString {
    rows: Vec<Vec<u8>>,
    turn: u8,
    castle: Vec<u8>,
    en_passant: Vec<u8>,
}

impl View for FENString {
    type V = FenFields;

    closed spec fn view(&self) -> FenFields {
        FenFields {
            rows: views(self.rows@),
            turn: self.turn,
            castle: self.castle@,
            en_passant: self.en_passant@,
        }
    }
}

/// The piece that a letter stands for: lower case for black, upper case
/// for white.
pub open spec fn piece_of_letter(letter: u8) -> Option<Piece> {
    let white = 0x41 <= letter <= 0x5a;
    let lower = if white {
        (letter + 0x20) as u8
    } else {
        letter
    };
    let color = if white {
        Color::White
    } else {
        Color::Black
    };
    if lower == 0x70 {
        Some(Piece { kind_of_piece: KindOfPiece::Pawn, color })
    } else if lower == 0x72 {
        Some(Piece { kind_of_piece: KindOfPiece::Rook, color })
    } else if lower == 0x6e {
        Some(Piece { kind_of_piece: KindOfPiece::Knight, color })
    } else if lower == 0x62 {
        Some(Piece { kind_of_piece: KindOfPiece::Bishop, color })
    } else if lower == 0x71 {
        Some(Piece { kind_of_piece: KindOfPiece::Queen, color })
    } else if lower == 0x6b {
        Some(Piece { kind_of_piece: KindOfPiece::King, color })
    } else {
        None
    }
}

/// So many empty squares.
pub open spec fn gap(count: int) -> Seq<Option<Piece>> {
    Seq::new(count as nat, |i: int| None)
}

/// The squares that the first `n` bytes of a row describe, from file a
/// on: a digit 1 to 8 stands for so many empty squares, a letter for a
/// piece. Nothing where a byte is neither.
pub open spec fn squares_upto(row: Seq<u8>, n: int) -> Option<Seq<Option<Piece>>>
    decreases n,
{
    if n <= 0 {
        Some(Seq::empty())
    } else {
        match squares_upto(row, n - 1) {
            None => None,
            Some(earlier) => if 0x31 <= row[n - 1] <= 0x38 {
                Some(earlier + gap(row[n - 1] - 0x30))
            } else {
                match piece_of_letter(row[n - 1]) {
                    Some(piece) => Some(earlier.push(Some(piece))),
                    None => None,
                }
            },
        }
    }
}

/// The eight squares of a row; nothing where the row holds a byte that
/// is neither digit nor piece letter, or describes more or fewer squares
/// than eight.
pub open spec fn row_squares(row: Seq<u8>) -> Option<Seq<Option<Piece>>> {
    match squares_upto(row, row.len() as int) {
        Some(squares) => if squares.len() == 8 {
            Some(squares)
        } else {
            None
        },
        None => None,
    }
}

/// The squares of the first `n` rows of the board from white's side:
/// the description gives the rows from black's side down, so board row
/// `k` is described by `rows[8 - k]`.
pub open spec fn grid_upto(rows: Seq<Seq<u8>>, n: int) -> Option<Seq<Option<Piece>>>
    decreases n,
{
    if n <= 0 {
        Some(Seq::empty())
    } else {
        match (grid_upto(rows, n - 1), row_squares(rows[8 - n])) {
            (Some(earlier), Some(squares)) => Some(earlier + squares),
            _ => None,
        }
    }
}

/// The side that a turn letter stands for.
pub open spec fn turn_of(letter: u8) -> Option<Color> {
    if letter == 0x62 {
        Some(Color::Black)
    } else if letter == 0x77 {
        Some(Color::White)
    } else {
        None
    }
}

/// Whether a byte may stand among the castling letters: A, H, a, h or a dash.
pub open spec fn castle_letter(letter: u8) -> bool {
    letter == 0x41 || letter == 0x48 || letter == 0x61 || letter == 0x68 || letter == 0x2d
}

/// The castling rights that four letters stand for: A and H give white
/// the short and the long right, a and h give them to black. Nothing
/// where a byte is no castling letter.
pub open spec fn rights_of(castle: Seq<u8>) -> Option<Seq<bool>> {
    if forall|i: int| 0 <= i < castle.len() ==> castle_letter(#[trigger] castle[i]) {
        Some(
            seq![
                castle.contains(0x41),
                castle.contains(0x48),
                castle.contains(0x61),
                castle.contains(0x68),
            ],
        )
    } else {
        None
    }
}

/// No file is flagged.
pub open spec fn no_flags() -> Seq<bool> {
    Seq::new(8, |i: int| false)
}

/// The `k`-th two-byte piece of a text; the last may be one byte short.
pub open spec fn chunk(text: Seq<u8>, k: int) -> Seq<u8> {
    text.subrange(2 * k, if 2 * k + 2 <= text.len() {
        2 * k + 2
    } else {
        text.len() as int
    })
}

/// The files flagged by the first `n` two-byte pieces of the en-passant
/// field: each piece names a square on row 3 or 6 and flags its file.
/// Nothing where a piece names no such square.
pub open spec fn flags_upto(text: Seq<u8>, n: int) -> Option<Seq<bool>>
    decreases n,
{
    if n <= 0 {
        Some(no_flags())
    } else {
        match (flags_upto(text, n - 1), Field::spec_parse(chunk(text, n - 1))) {
            (Some(earlier), Some(field)) => if field.spec_row() == 3 || field.spec_row() == 6 {
                Some(earlier.update(field.spec_file() - 1, true))
            } else {
                None
            },
            _ => None,
        }
    }
}

/// The files that the en-passant field flags: none for a dash, else
/// those of the squares it names.
pub open spec fn flags_of(text: Seq<u8>) -> Option<Seq<bool>> {
    if text == seq![0x2du8] {
        Some(no_flags())
    } else {
        flags_upto(text, (text.len() + 1) as int / 2)
    }
}

/// The position that the fields describe; nothing where a field is malformed.
pub open spec fn position_of(fields: FenFields) -> Option<Position> {
    match (
        grid_upto(fields.rows, 8),
        turn_of(fields.turn),
        rights_of(fields.castle),
        flags_of(fields.en_passant),
    ) {
        (Some(grid), Some(turn), Some(castle), Some(en_passant)) => Some(
            Position { grid, castle, en_passant, turn },
        ),
        _ => None,
    }
}

/// The fields of a description given as its tokens: four to six tokens,
/// of which the first holds eight rows between slashes, the second is
/// one letter and the third four. Tokens after the fourth are not looked at.
pub open spec fn fields_of(tokens: Seq<Seq<u8>>) -> Option<FenFields> {
    if tokens.len() < 4 || tokens.len() > 6 {
        None
    } else if spec_split(tokens[0], 0x2f).len() != 8 {
        None
    } else if tokens[1].len() != 1 {
        None
    } else if tokens[2].len() != 4 {
        None
    } else {
        Some(
            FenFields {
                rows: spec_split(tokens[0], 0x2f),
                turn: tokens[1][0],
                castle: tokens[2],
                en_passant: tokens[3],
            },
        )
    }
}

/// The piece that a letter stands for.
fn piece_for(letter: u8) -> (piece: Option<Piece>)
    ensures
        piece == piece_of_letter(letter),
{
    let white: bool = 0x41 <= letter && letter <= 0x5a;
    let lower: u8 = if white {
        letter + 0x20
    } else {
        letter
    };
    let color = if white {
        Color::White
    } else {
        Color::Black
    };
    if lower == 0x70 {
        Some(Piece { kind_of_piece: KindOfPiece::Pawn, color })
    } else if lower == 0x72 {
        Some(Piece { kind_of_piece: KindOfPiece::Rook, color })
    } else if lower == 0x6e {
        Some(Piece { kind_of_piece: KindOfPiece::Knight, color })
    } else if lower == 0x62 {
        Some(Piece { kind_of_piece: KindOfPiece::Bishop, color })
    } else if lower == 0x71 {
        Some(Piece { kind_of_piece: KindOfPiece::Queen, color })
    } else if lower == 0x6b {
        Some(Piece { kind_of_piece: KindOfPiece::King, color })
    } else {
        None
    }
}

/// Reads the eight squares of one row.
fn read_row(row: &[u8]) -> (r: Option<Vec<Option<Piece>>>)
    ensures
        match r {
            Some(squares) => row_squares(row@) == Some(squares@),
            None => row_squares(row@) is None,
        },
{
    let mut squares: Vec<Option<Piece>> = Vec::new();
    let mut i: usize = 0;
    while i < row.len()
        invariant
            i <= row@.len(),
            squares_upto(row@, i as int) == Some(squares@),
        decreases row@.len() - i,
    {
        let byte: u8 = row[i];
        if 0x31 <= byte && byte <= 0x38 {
            let ghost earlier = squares@;
            let count: u8 = byte - 0x30;
            let mut j: u8 = 0;
            while j < count
                invariant
                    j <= count,
                    squares@ == earlier + gap(j as int),
                decreases count - j,
            {
                squares.push(None);
                proof {
                    assert(squares@ =~= earlier + gap(j + 1));
                }
                j += 1;
            }
        } else {
            match piece_for(byte) {
                Some(piece) => {
                    squares.push(Some(piece));
                },
                None => {
                    proof {
                        lemma_squares_stay_bad(row@, i + 1);
                    }
                    return None;
                },
            }
        }
        i += 1;
    }
    if squares.len() != 8 {
        return None;
    }
    Some(squares)
}

/// A row that is malformed up to its `k`-th byte is malformed.
proof fn lemma_squares_stay_bad(row: Seq<u8>, k: int)
    requires
        0 <= k <= row.len(),
        squares_upto(row, k) is None,
    ensures
        squares_upto(row, row.len() as int) is None,
    decreases row.len() - k,
{
    if k < row.len() {
        lemma_squares_stay_bad(row, k + 1);
    }
}

/// A board that is malformed up to its `k`-th row is malformed.
proof fn lemma_grid_stays_bad(rows: Seq<Seq<u8>>, k: int)
    requires
        0 <= k <= 8,
        grid_upto(rows, k) is None,
    ensures
        grid_upto(rows, 8) is None,
    decreases 8 - k,
{
    if k < 8 {
        lemma_grid_stays_bad(rows, k + 1);
    }
}

/// An en-passant field that is malformed up to its `k`-th piece is malformed.
proof fn lemma_flags_stay_bad(text: Seq<u8>, k: int, n: int)
    requires
        0 <= k <= n,
        flags_upto(text, k) is None,
    ensures
        flags_upto(text, n) is None,
    decreases n - k,
{
    if k < n {
        lemma_flags_stay_bad(text, k + 1, n);
    }
}

/// Reads the 64 squares of the board from the eight rows.
fn read_grid(rows: &Vec<Vec<u8>>) -> (r: Option<[Option<Piece>; 64]>)
    requires
        rows@.len() == 8,
    ensures
        match r {
            Some(grid) => grid_upto(views(rows@), 8) == Some(grid@),
            None => grid_upto(views(rows@), 8) is None,
        },
{
    let mut grid: [Option<Piece>; 64] = [None;64];
    let mut n: usize = 0;
    while n < 8
        invariant
            n <= 8,
            rows@.len() == 8,
            grid_upto(views(rows@), n as int) matches Some(earlier) && earlier.len() == 8 * n
                && earlier =~= grid@.take(8 * n),
        decreases 8 - n,
    {
        let ghost earlier = grid_upto(views(rows@), n as int)->0;
        let squares = match read_row(rows[7 - n].as_slice()) {
            Some(squares) => squares,
            None => {
                proof {
                    lemma_grid_stays_bad(views(rows@), n + 1);
                }
                return None;
            },
        };
        let mut file: usize = 0;
        while file < 8
            invariant
                file <= 8,
                n < 8,
                squares@.len() == 8,
                earlier.len() == 8 * n,
                earlier =~= grid@.take(8 * n),
                forall|j: int| 0 <= j < file ==> grid@[8 * n + j] == squares@[j],
            decreases 8 - file,
        {
            grid[8 * n + file] = squares[file];
            file += 1;
        }
        proof {
            assert(grid@.take(8 * (n + 1)) =~= earlier + squares@);
        }
        n += 1;
    }
    proof {
        assert(grid@.take(64) =~= grid@);
    }
    Some(grid)
}

/// The side that a turn letter stands for.
fn read_turn(letter: u8) -> (turn: Option<Color>)
    ensures
        turn == turn_of(letter),
{
    if letter == 0x62 {
        Some(Color::Black)
    } else if letter == 0x77 {
        Some(Color::White)
    } else {
        None
    }
}

/// Reads the castling rights from the castling letters.
fn read_rights(castle: &[u8]) -> (r: Option<[bool; 4]>)
    ensures
        match r {
            Some(rights) => rights_of(castle@) == Some(rights@),
            None => rights_of(castle@) is None,
        },
{
    let mut rights: [bool; 4] = [false;4];
    let mut i: usize = 0;
    while i < castle.len()
        invariant
            i <= castle@.len(),
            forall|j: int| 0 <= j < i ==> castle_letter(#[trigger] castle@[j]),
            rights@[0] == castle@.take(i as int).contains(0x41),
            rights@[1] == castle@.take(i as int).contains(0x48),
            rights@[2] == castle@.take(i as int).contains(0x61),
            rights@[3] == castle@.take(i as int).contains(0x68),
        decreases castle@.len() - i,
    {
        let letter: u8 = castle[i];
        proof {
            let shorter = castle@.take(i as int);
            let longer = castle@.take(i + 1);
            assert(longer =~= shorter.push(letter));
            assert forall|x: u8| longer.contains(x) <==> (shorter.contains(x) || x == letter) by {
                if shorter.contains(x) {
                    let k = choose|k: int| 0 <= k < shorter.len() && shorter[k] == x;
                    assert(longer[k] == x);
                }
                if x == letter {
                    assert(longer[i as int] == x);
                }
            }
        }
        if letter == 0x41 {
            rights[0] = true;
        } else if letter == 0x48 {
            rights[1] = true;
        } else if letter == 0x61 {
            rights[2] = true;
        } else if letter == 0x68 {
            rights[3] = true;
        } else if letter != 0x2d {
            return None;
        }
        i += 1;
    }
    proof {
        assert(castle@.take(castle@.len() as int) =~= castle@);
        assert(rights@ =~= seq![
            castle@.contains(0x41),
            castle@.contains(0x48),
            castle@.contains(0x61),
            castle@.contains(0x68),
        ]);
    }
    Some(rights)
}

/// Reads the flagged files from the en-passant field.
fn read_flags(text: &[u8]) -> (r: Option<[bool; 8]>)
    ensures
        match r {
            Some(flags) => flags_of(text@) == Some(flags@),
            None => flags_of(text@) is None,
        },
{
    let mut flags: [bool; 8] = [false;8];
    proof {
        assert(flags@ =~= no_flags());
    }
    if text.len() == 1 && text[0] == 0x2d {
        proof {
            assert(text@ =~= seq![0x2du8]);
        }
        return Some(flags);
    }
    let pieces: usize = text.len() / 2 + text.len() % 2;
    let mut k: usize = 0;
    while k < pieces
        invariant
            k <= pieces,
            pieces == (text@.len() + 1) as int / 2,
            2 * k <= text@.len(),
            text@ != seq![0x2du8],
            flags_upto(text@, k as int) == Some(flags@),
        decreases pieces - k,
    {
        let end: usize = if text.len() - 2 * k >= 2 {
            2 * k + 2
        } else {
            text.len()
        };
        let field = match Field::parse(slice_subrange(text, 2 * k, end)) {
            Some(field) => field,
            None => {
                proof {
                    lemma_flags_stay_bad(text@, k + 1, pieces as int);
                }
                return None;
            },
        };
        if field.get_row() != 3 && field.get_row() != 6 {
            proof {
                lemma_flags_stay_bad(text@, k + 1, pieces as int);
            }
            return None;
        }
        flags[(field.get_file() - 1) as usize] = true;
        k += 1;
    }
    Some(flags)
}

impl TryFrom<FENString> for Board {
    type Error = ();

    /// Builds the position that a description gives. Fails where a row
    /// holds a byte that is neither digit nor piece letter or does not
    /// describe eight squares, where the turn letter is neither `w` nor
    /// `b`, where a castling letter is none of `A`, `H`, `a`, `h` and `-`,
    /// and where the en-passant field names something other than squares
    /// on row 3 or 6.
    fn try_from(fen: FENString) -> (r: Result<Self, Self::Error>)
        ensures
            match r {
                Ok(board) => position_of(fen@) == Some(board@),
                Err(_) => position_of(fen@) is None,
            },
    {
        proof {
            use_type_invariant(&fen);
        }
        let grid = match read_grid(&fen.rows) {
            Some(grid) => grid,
            None => {
                return Err(());
            },
        };
        let turn = match read_turn(fen.turn) {
            Some(turn) => turn,
            None => {
                return Err(());
            },
        };
        let castle = match read_rights(fen.castle.as_slice()) {
            Some(castle) => castle,
            None => {
                return Err(());
            },
        };
        let en_passant = match read_flags(fen.en_passant.as_slice()) {
            Some(en_passant) => en_passant,
            None => {
                return Err(());
            },
        };
        let board = Board::assemble(grid, castle, en_passant, turn);
        proof {
            board.lemma_of_view();
        }
        Ok(board)
    }
}

impl vstd::std_specs::convert::TryFromSpecImpl<FENString> for Board {
    open spec fn obeys_try_from_spec() -> bool {
        true
    }

    open spec fn try_from_spec(fen: FENString) -> Result<Self, Self::Error> {
        match position_of(fen@) {
            Some(p) => Ok(Board::of(p)),
            None => Err(()),
        }
    }
}

impl FENString {
    /// There are eight rows and four castling letters.
    #[verifier::type_invariant]
    pub closed spec fn wf(self) -> bool {
        self.rows@.len() == 8 && self.castle@.len() == 4
    }

    /// Cuts a description, given as its tokens, into its fields.
    pub fn from_tokens(tokens: &Vec<Vec<u8>>) -> (r: Result<FENString, ()>)
        ensures
            match r {
                Ok(fen) => fields_of(views(tokens@)) == Some(fen@),
                Err(_) => fields_of(views(tokens@)) is None,
            },
    {
        if tokens.len() < 4 || tokens.len() > 6 {
            return Err(());
        }
        let rows = split(tokens[0].as_slice(), 0x2f);
        if rows.len() != 8 {
            return Err(());
        }
        if tokens[1].len() != 1 {
            return Err(());
        }
        if tokens[2].len() != 4 {
            return Err(());
        }
        Ok(
            FENString {
                rows,
                turn: tokens[1][0],
                castle: slice_to_vec(tokens[2].as_slice()),
                en_passant: slice_to_vec(tokens[3].as_slice()),
            },
        )
    }
}

impl TryFrom<&str> for FENString {
    type Error = ();

    /// Cuts a description into its fields.
    fn try_from(text: &str) -> (r: Result<Self, Self::Error>)
        ensures
            match r {
                Ok(fen) => fields_of(whitespace_tokens(text@)) == Some(fen@),
                Err(_) => fields_of(whitespace_tokens(text@)) is None,
            },
    {
        let tokens = split_whitespace(text);
        FENString::from_tokens(&tokens)
    }
}

/// Two descriptions with the same fields need not be the same value, so
/// `try_from` states its result through the fields, and no value is
/// named here.
impl vstd::std_specs::convert::TryFromSpecImpl<&str> for FENString {
    open spec fn obeys_try_from_spec() -> bool {
        false
    }

    open spec fn try_from_spec(text: &str) -> Result<Self, Self::Error> {
        Err(())
    }
}

} // verus!
