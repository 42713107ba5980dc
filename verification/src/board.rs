//! Pieces, squares and the position model.

use vstd::prelude::*;
use vstd::string::StringSliceAdditionalSpecFns;
use vstd::string::StringExecFns;
use crate::book::Move;
use crate::tables::piece_value;
use crate::tables::value_at;
use crate::tables::lemma_value_bounded;
use crate::tables::MAX_PIECE_VALUE;
use crate::zobrist::key;
use crate::zobrist::spec_key;
use crate::zobrist::CASTLE_BASE;
use crate::zobrist::EN_PASSANT_BASE;
use crate::zobrist::TURN_INDEX;

verus! {

/// The six kinds of chess piece.
#[derive(Copy, Clone, PartialEq, Eq, Debug, Structural)]
pub enum KindOfPiece {
    Pawn,
    Knight,
    Bishop,
    Rook,
    Queen,
    King,
}

impl KindOfPiece {
    /// The lower-case letter that stands for this kind in move text.
    pub open spec fn spec_letter(self) -> char {
        match self {
            KindOfPiece::Pawn => 'p',
            KindOfPiece::Knight => 'n',
            KindOfPiece::Bishop => 'b',
            KindOfPiece::Rook => 'r',
            KindOfPiece::Queen => 'q',
            KindOfPiece::King => 'k',
        }
    }

    /// The lower-case letter that stands for this kind in move text.
    pub fn letter(&self) -> (c: char)
        ensures
            c == self.spec_letter(),
    {
        match self {
            KindOfPiece::Pawn => 'p',
            KindOfPiece::Knight => 'n',
            KindOfPiece::Bishop => 'b',
            KindOfPiece::Rook => 'r',
            KindOfPiece::Queen => 'q',
            KindOfPiece::King => 'k',
        }
    }
}

/// The two sides.
#[derive(Copy, Clone, PartialEq, Eq, Debug, Structural)]
pub enum Color {
    White,
    Black,
}

impl Color {
    /// The other side.
    pub open spec fn spec_enemy(self) -> Color {
        match self {
            Color::White => Color::Black,
            Color::Black => Color::White,
        }
    }

    /// The other side.
    pub fn enemy(&self) -> (c: Color)
        ensures
            c == self.spec_enemy(),
    {
        match self {
            Color::White => Color::Black,
            Color::Black => Color::White,
        }
    }
}

/// The two castling directions: toward the king's rook or the queen's rook.
#[derive(Copy, Clone, PartialEq, Eq, Debug, Structural)]
pub enum Castle {
    Short,
    Long,
}

/// A piece: its kind and its side.
#[derive(Copy, Clone, PartialEq, Eq, Debug, Structural)]
pub struct Piece {
    pub kind_of_piece: KindOfPiece,
    pub color: Color,
}

impl Piece {
    /// Index of the kind, pawn first and king last.
    pub open spec fn kind_index(kind: KindOfPiece) -> int {
        match kind {
            KindOfPiece::Pawn => 0,
            KindOfPiece::Knight => 1,
            KindOfPiece::Bishop => 2,
            KindOfPiece::Rook => 3,
            KindOfPiece::Queen => 4,
            KindOfPiece::King => 5,
        }
    }

    /// The material index 0..=11: twice the kind index, plus one for white.
    pub open spec fn spec_code(self) -> int {
        2 * Self::kind_index(self.kind_of_piece) + if self.color == Color::White {
            1int
        } else {
            0int
        }
    }

    /// The material index 0..=11 that identifies this piece in hashing.
    pub fn code(&self) -> (c: u8)
        ensures
            c == self.spec_code(),
            c <= 11,
    {
        let code: u8 = match self.kind_of_piece {
            KindOfPiece::Pawn => 0,
            KindOfPiece::Knight => 1,
            KindOfPiece::Bishop => 2,
            KindOfPiece::Rook => 3,
            KindOfPiece::Queen => 4,
            KindOfPiece::King => 5,
        };
        match self.color {
            Color::Black => code * 2,
            Color::White => code * 2 + 1,
        }
    }
}

/// A square of the board: a row and a file, both in 1..=8.
#[derive(Copy, Clone, PartialEq, Eq, Debug, Structural)]
pub struct Field {
    row: u8,
    file: u8,
}

impl Field {
    /// Both coordinates lie on the board.
    #[verifier::type_invariant]
    pub closed spec fn wf(self) -> bool {
        1 <= self.row <= 8 && 1 <= self.file <= 8
    }

    /// The row, 1..=8.
    pub closed spec fn spec_row(self) -> int {
        self.row as int
    }

    /// The file, 1..=8.
    pub closed spec fn spec_file(self) -> int {
        self.file as int
    }

    /// The square with the given coordinates.
    pub closed spec fn at(row: int, file: int) -> Field {
        Field { row: row as u8, file: file as u8 }
    }

    /// Whether a pair of coordinates lies on the board.
    pub open spec fn on_board(row: int, file: int) -> bool {
        1 <= row <= 8 && 1 <= file <= 8
    }

    /// A well-formed square has its coordinates on the board.
    pub broadcast proof fn lemma_wf(self)
        ensures
            #[trigger] self.wf() <==> Self::on_board(self.spec_row(), self.spec_file()),
    {
    }

    /// `at` builds the square whose coordinates are the ones given.
    pub broadcast proof fn lemma_at(row: int, file: int)
        requires
            Self::on_board(row, file),
        ensures
            (#[trigger] Self::at(row, file)).wf(),
            Self::at(row, file).spec_row() == row,
            Self::at(row, file).spec_file() == file,
    {
    }

    /// A square is determined by its coordinates.
    pub proof fn lemma_ext(self, other: Field)
        requires
            self.spec_row() == other.spec_row(),
            self.spec_file() == other.spec_file(),
        ensures
            self == other,
    {
    }

    /// Every well-formed square is `at` its own coordinates.
    pub broadcast proof fn lemma_at_self(self)
        requires
            self.wf(),
        ensures
            #[trigger] Self::at(self.spec_row(), self.spec_file()) == self,
    {
    }

    /// Builds a square from coordinates that are known to lie on the board.
    pub fn build_unchecked(row: u8, file: u8) -> (f: Field)
        requires
            Self::on_board(row as int, file as int),
        ensures
            f == Self::at(row as int, file as int),
            f.wf(),
            f.spec_row() == row,
            f.spec_file() == file,
    {
        Field { row, file }
    }

    /// Builds a square, or nothing where a coordinate is off the board.
    pub fn build(row: i32, file: i32) -> (f: Option<Field>)
        ensures
            f == Self::spec_build(row as int, file as int),
            f matches Some(t) ==> t.wf() && t.spec_row() == row && t.spec_file() == file,
    {
        if 1 <= file && file <= 8 && 1 <= row && row <= 8 {
            Some(Field { row: row as u8, file: file as u8 })
        } else {
            None
        }
    }

    /// The square with the given coordinates where both lie on the board.
    pub open spec fn spec_build(row: int, file: int) -> Option<Field> {
        if Self::on_board(row, file) {
            Some(Self::at(row, file))
        } else {
            None
        }
    }

    /// Reads a square from the byte of its file letter, of either case,
    /// and the byte of its row digit.
    pub open spec fn spec_from_letters(file: u8, row: u8) -> Option<Field> {
        if !(0x31 <= row <= 0x38) {
            None
        } else if 0x61 <= file <= 0x68 {
            Some(Self::at(row - 0x30, file - 0x60))
        } else if 0x41 <= file <= 0x48 {
            Some(Self::at(row - 0x30, file - 0x40))
        } else {
            None
        }
    }

    /// Reads a square from its two-byte name: a file letter, then a row digit.
    pub open spec fn spec_parse(text: Seq<u8>) -> Option<Field> {
        if text.len() != 2 {
            None
        } else {
            Self::spec_from_letters(text[0], text[1])
        }
    }

    /// The two-byte name of the square: its file letter in lower case,
    /// then its row digit.
    pub open spec fn spec_name(self) -> Seq<u8> {
        seq![(0x60 + self.spec_file()) as u8, (0x30 + self.spec_row()) as u8]
    }

    /// Reads a square from the byte of its file letter and the byte of its row digit.
    pub fn from_letters(file: u8, row: u8) -> (f: Option<Field>)
        ensures
            f == Self::spec_from_letters(file, row),
            f matches Some(t) ==> t.wf(),
    {
        let file: u8 = if file >= 0x61 && file <= 0x68 {
            file - 0x60
        } else if file >= 0x41 && file <= 0x48 {
            file - 0x40
        } else {
            return None;
        };
        let row: u8 = if row >= 0x31 && row <= 0x38 {
            row - 0x30
        } else {
            return None;
        };
        Some(Field { file, row })
    }

    /// Reads a square from its two-byte name.
    pub fn parse(text: &[u8]) -> (f: Option<Field>)
        ensures
            f == Self::spec_parse(text@),
            f matches Some(t) ==> t.wf(),
    {
        if text.len() != 2 {
            return None;
        }
        Self::from_letters(text[0], text[1])
    }

    /// The file, 1 for a to 8 for h.
    pub fn get_file(&self) -> (file: u8)
        ensures
            file == self.spec_file(),
            1 <= file <= 8,
    {
        proof {
            use_type_invariant(self);
        }
        self.file
    }

    /// The row, 1 to 8 from white's side.
    pub fn get_row(&self) -> (row: u8)
        ensures
            row == self.spec_row(),
            1 <= row <= 8,
    {
        proof {
            use_type_invariant(self);
        }
        self.row
    }
}

/// The mathematical model of a position: what stands on each of the 64
/// squares (row by row from white's side, files a to h within a row), the
/// four castling rights (white short, white long, black short, black long),
/// the eight en-passant file flags and the side to move.
pub struct Position {
    pub grid: Seq<Option<Piece>>,
    pub castle: Seq<bool>,
    pub en_passant: Seq<bool>,
    pub turn: Color,
}

impl Position {
    /// The three sequences have the lengths of a chess board.
    pub open spec fn wf(self) -> bool {
        self.grid.len() == 64 && self.castle.len() == 4 && self.en_passant.len() == 8
    }

    /// Where a square lies in `grid`.
    pub open spec fn slot(row: int, file: int) -> int {
        (row - 1) * 8 + (file - 1)
    }

    /// What stands on the square with the given coordinates.
    pub open spec fn piece(self, row: int, file: int) -> Option<Piece> {
        self.grid[Self::slot(row, file)]
    }

    /// What stands on `field`.
    pub open spec fn piece_at(self, field: Field) -> Option<Piece> {
        self.piece(field.spec_row(), field.spec_file())
    }

    /// The position with the content of one square replaced.
    pub open spec fn put(self, row: int, file: int, content: Option<Piece>) -> Position {
        Position { grid: self.grid.update(Self::slot(row, file), content), ..self }
    }

    /// Where a castling right lies in `castle`.
    pub open spec fn castle_slot(color: Color, side: Castle) -> int {
        match (color, side) {
            (Color::White, Castle::Short) => 0,
            (Color::White, Castle::Long) => 1,
            (Color::Black, Castle::Short) => 2,
            (Color::Black, Castle::Long) => 3,
        }
    }

    /// Whether `color` still has the right to castle on `side`.
    pub open spec fn may_castle(self, color: Color, side: Castle) -> bool {
        self.castle[Self::castle_slot(color, side)]
    }

    /// Whether a capture in passing is flagged on `file` (1..=8).
    pub open spec fn may_capture_in_passing(self, file: int) -> bool {
        self.en_passant[file - 1]
    }

    /// The kind that starts on a file of the back row.
    pub open spec fn back_row_kind(file: int) -> KindOfPiece {
        if file == 1 || file == 8 {
            KindOfPiece::Rook
        } else if file == 2 || file == 7 {
            KindOfPiece::Knight
        } else if file == 3 || file == 6 {
            KindOfPiece::Bishop
        } else if file == 4 {
            KindOfPiece::Queen
        } else {
            KindOfPiece::King
        }
    }

    /// What stands on a square when a game begins.
    pub open spec fn start_piece(row: int, file: int) -> Option<Piece> {
        if row == 1 {
            Some(Piece { kind_of_piece: Self::back_row_kind(file), color: Color::White })
        } else if row == 2 {
            Some(Piece { kind_of_piece: KindOfPiece::Pawn, color: Color::White })
        } else if row == 7 {
            Some(Piece { kind_of_piece: KindOfPiece::Pawn, color: Color::Black })
        } else if row == 8 {
            Some(Piece { kind_of_piece: Self::back_row_kind(file), color: Color::Black })
        } else {
            None
        }
    }

    /// The standard starting position: all rights, no flags, white to move.
    pub open spec fn start() -> Position {
        Position {
            grid: Seq::new(64, |i: int| Self::start_piece(i / 8 + 1, i % 8 + 1)),
            castle: Seq::new(4, |i: int| true),
            en_passant: Seq::new(8, |i: int| false),
            turn: Color::White,
        }
    }

    /// The position with the other side to move.
    pub open spec fn pass_turn(self) -> Position {
        Position { turn: self.turn.spec_enemy(), ..self }
    }

    /// A king that moves from file e to file g or c takes the rook of its
    /// row along: the corner square is emptied and a rook of the king's
    /// color is set down on the square the king passed over.
    pub open spec fn relocate_rook(self, piece: Piece, row: int, from_file: int, to_file: int)
        -> Position {
        let rook = Some(Piece { kind_of_piece: KindOfPiece::Rook, color: piece.color });
        if piece.kind_of_piece == KindOfPiece::King && from_file == 5 && to_file == 7 {
            self.put(row, 8, None).put(row, 6, rook)
        } else if piece.kind_of_piece == KindOfPiece::King && from_file == 5 && to_file == 3 {
            self.put(row, 1, None).put(row, 4, rook)
        } else {
            self
        }
    }

    /// Any move of a king costs its side both castling rights.
    pub open spec fn strip_rights(self, piece: Piece) -> Position {
        if piece.kind_of_piece == KindOfPiece::King {
            let first = Self::castle_slot(piece.color, Castle::Short);
            let second = Self::castle_slot(piece.color, Castle::Long);
            Position { castle: self.castle.update(first, false).update(second, false), ..self }
        } else {
            self
        }
    }

    /// The row on which `color` lands when it captures in passing.
    pub open spec fn capturing_row(color: Color) -> int {
        match color {
            Color::White => 6,
            Color::Black => 3,
        }
    }

    /// The row on which a pawn of `color` lands after its double advance.
    pub open spec fn landing_row(color: Color) -> int {
        match color {
            Color::White => 4,
            Color::Black => 5,
        }
    }

    /// Where `flagged` says that the destination file was open to a capture
    /// in passing, the destination lies on the mover's capturing row and an
    /// enemy pawn stands directly behind it, that pawn leaves the board.
    pub open spec fn capture_in_passing(self, color: Color, flagged: bool, to_row: int, to_file: int)
        -> Position {
        let behind = Self::landing_row(color.spec_enemy());
        let victim = Some(Piece { kind_of_piece: KindOfPiece::Pawn, color: color.spec_enemy() });
        if flagged && to_row == Self::capturing_row(color) && self.piece(behind, to_file)
            == victim {
            self.put(behind, to_file, None)
        } else {
            self
        }
    }

    /// Whether an enemy pawn stands beside (`row`, `file`) on the same row.
    pub open spec fn enemy_pawn_beside(self, color: Color, row: int, file: int) -> bool {
        let enemy_pawn = Some(Piece { kind_of_piece: KindOfPiece::Pawn, color: color.spec_enemy() });
        (file > 1 && self.piece(row, file - 1) == enemy_pawn) || (file < 8 && self.piece(
            row,
            file + 1,
        ) == enemy_pawn)
    }

    /// Whether the move of `piece` is a pawn's double advance that an enemy
    /// pawn beside the landing square could answer by capturing in passing.
    pub open spec fn opens_file(self, piece: Piece, from_row: int, to_row: int, to_file: int)
        -> bool {
        &&& piece.kind_of_piece == KindOfPiece::Pawn
        &&& to_row == Self::landing_row(piece.color)
        &&& from_row == match piece.color {
            Color::White => 2int,
            Color::Black => 7int,
        }
        &&& self.enemy_pawn_beside(piece.color, to_row, to_file)
    }

    /// All flags are cleared; the destination file is flagged where the
    /// move opened it.
    pub open spec fn reflag(self, piece: Piece, from_row: int, to_row: int, to_file: int)
        -> Position {
        let opened = self.opens_file(piece, from_row, to_row, to_file);
        Position { en_passant: Seq::new(8, |i: int| opened && i == to_file - 1), ..self }
    }

    /// The position after `m` is played, taking `m` to be a move that the
    /// piece on its source square can make. The side to move stays as it is.
    /// From an empty source square nothing happens.
    pub open spec fn apply(self, m: Move) -> Position {
        let from_row = m.spec_from_row();
        let from_file = m.spec_from_file_number();
        let to_row = m.spec_to_row();
        let to_file = m.spec_to_file_number();
        match self.piece(from_row, from_file) {
            None => self,
            Some(piece) => {
                let placed = match m.spec_promotion() {
                    Some(kind) => Piece { kind_of_piece: kind, color: piece.color },
                    None => piece,
                };
                self.put(from_row, from_file, None).put(to_row, to_file, Some(placed)).relocate_rook(
                    piece,
                    from_row,
                    from_file,
                    to_file,
                ).strip_rights(piece).capture_in_passing(
                    piece.color,
                    self.may_capture_in_passing(to_file),
                    to_row,
                    to_file,
                ).reflag(piece, from_row, to_row, to_file)
            },
        }
    }

    /// The hash of what stands on the first `n` squares of `grid`.
    pub open spec fn hash_squares(grid: Seq<Option<Piece>>, n: int) -> u64
        decreases n,
    {
        if n <= 0 {
            0
        } else {
            let rest = Self::hash_squares(grid, n - 1);
            match grid[n - 1] {
                Some(piece) => rest ^ spec_key((64 * piece.spec_code() + (n - 1)) as u16),
                None => rest,
            }
        }
    }

    /// `seed` combined with the keys of the flags set among the first `n`.
    pub open spec fn hash_flags(flags: Seq<bool>, base: int, n: int, seed: u64) -> u64
        decreases n,
    {
        if n <= 0 {
            seed
        } else {
            let rest = Self::hash_flags(flags, base, n - 1, seed);
            if flags[n - 1] {
                rest ^ spec_key((base + n - 1) as u16)
            } else {
                rest
            }
        }
    }

    /// The hash of everything but the side to move.
    pub open spec fn hash_body(self) -> u64 {
        let squares = Self::hash_squares(self.grid, 64);
        let rights = Self::hash_flags(self.castle, CASTLE_BASE as int, 4, squares);
        Self::hash_flags(self.en_passant, EN_PASSANT_BASE as int, 8, rights)
    }

    /// The position hash: the exclusive or of one key for each occupied
    /// square and the piece on it, one for each castling right held, one for
    /// each flagged file, and one more when white is to move.
    pub open spec fn spec_hash(self) -> u64 {
        match self.turn {
            Color::White => self.hash_body() ^ spec_key(TURN_INDEX),
            Color::Black => self.hash_body(),
        }
    }

    /// The sum of the values of the pieces on the first `n` squares of `grid`.
    pub open spec fn eval_squares(grid: Seq<Option<Piece>>, n: int) -> int
        decreases n,
    {
        if n <= 0 {
            0
        } else {
            Self::eval_squares(grid, n - 1) + match grid[n - 1] {
                Some(piece) => value_at((n - 1) / 8 + 1, (n - 1) % 8 + 1, piece, true),
                None => 0,
            }
        }
    }

    /// The static evaluation: the sum over all occupied squares of the
    /// value of the piece there, positive where white is ahead.
    pub open spec fn spec_eval(self) -> int {
        Self::eval_squares(self.grid, 64)
    }

    /// The two letters that show a square: the color and the kind of the
    /// piece on it, or two blanks.
    pub open spec fn cell_text(content: Option<Piece>) -> Seq<char> {
        match content {
            None => seq![' ', ' '],
            Some(piece) => seq![
                match piece.color {
                    Color::White => 'w',
                    Color::Black => 'b',
                },
                piece.kind_of_piece.spec_letter(),
            ],
        }
    }

    /// The picture of the first `n` squares: two letters a square, and a
    /// line break after every eighth.
    pub open spec fn text_upto(grid: Seq<Option<Piece>>, n: int) -> Seq<char>
        decreases n,
    {
        if n <= 0 {
            Seq::empty()
        } else {
            Self::text_upto(grid, n - 1) + Self::cell_text(grid[n - 1]) + if n % 8 == 0 {
                seq!['\n']
            } else {
                Seq::empty()
            }
        }
    }

    /// The picture of the board: eight lines from white's first row up.
    pub open spec fn spec_text(self) -> Seq<char> {
        Self::text_upto(self.grid, 64)
    }

    /// The sum over `n` squares stays within `n` times the largest piece value.
    pub proof fn lemma_eval_bounded(grid: Seq<Option<Piece>>, n: int)
        requires
            0 <= n <= 64,
        ensures
            -n * MAX_PIECE_VALUE <= Self::eval_squares(grid, n) <= n * MAX_PIECE_VALUE,
        decreases n,
    {
        if n > 0 {
            Self::lemma_eval_bounded(grid, n - 1);
            if let Some(piece) = grid[n - 1] {
                lemma_value_bounded((n - 1) / 8 + 1, (n - 1) % 8 + 1, piece, true);
            }
        }
    }

    /// Two well-formed positions that agree on every square, right, flag
    /// and on the side to move are the same position.
    pub proof fn lemma_ext(self, other: Position)
        requires
            self.wf(),
            other.wf(),
            forall|row: int, file: int|
                Field::on_board(row, file) ==> #[trigger] self.piece(row, file) == other.piece(
                    row,
                    file,
                ),
            forall|color: Color, side: Castle|
                #[trigger] self.may_castle(color, side) == other.may_castle(color, side),
            forall|file: int|
                1 <= file <= 8 ==> #[trigger] self.may_capture_in_passing(file)
                    == other.may_capture_in_passing(file),
            self.turn == other.turn,
        ensures
            self == other,
    {
        assert forall|i: int| 0 <= i < 64 implies self.grid[i] == other.grid[i] by {
            assert(Field::on_board(i / 8 + 1, i % 8 + 1));
            assert(Self::slot(i / 8 + 1, i % 8 + 1) == i);
            assert(self.piece(i / 8 + 1, i % 8 + 1) == other.piece(i / 8 + 1, i % 8 + 1));
        }
        assert(self.grid =~= other.grid);
        assert forall|i: int| 0 <= i < 4 implies self.castle[i] == other.castle[i] by {
            assert(self.may_castle(Color::White, Castle::Short) == other.may_castle(
                Color::White,
                Castle::Short,
            ));
            assert(self.may_castle(Color::White, Castle::Long) == other.may_castle(
                Color::White,
                Castle::Long,
            ));
            assert(self.may_castle(Color::Black, Castle::Short) == other.may_castle(
                Color::Black,
                Castle::Short,
            ));
            assert(self.may_castle(Color::Black, Castle::Long) == other.may_castle(
                Color::Black,
                Castle::Long,
            ));
        }
        assert(self.castle =~= other.castle);
        assert forall|i: int| 0 <= i < 8 implies self.en_passant[i] == other.en_passant[i] by {
            assert(self.may_capture_in_passing(i + 1) == other.may_capture_in_passing(i + 1));
        }
        assert(self.en_passant =~= other.en_passant);
    }

    /// Positions that agree square for square, right for right, flag for
    /// flag and on the side to move have the same hash, however each was
    /// arrived at.
    pub proof fn lemma_hash_agrees(self, other: Position)
        requires
            self.wf(),
            other.wf(),
            forall|row: int, file: int|
                Field::on_board(row, file) ==> #[trigger] self.piece(row, file) == other.piece(
                    row,
                    file,
                ),
            forall|color: Color, side: Castle|
                #[trigger] self.may_castle(color, side) == other.may_castle(color, side),
            forall|file: int|
                1 <= file <= 8 ==> #[trigger] self.may_capture_in_passing(file)
                    == other.may_capture_in_passing(file),
            self.turn == other.turn,
        ensures
            self.spec_hash() == other.spec_hash(),
    {
        self.lemma_ext(other);
    }

    /// Passing the turn, and nothing else, changes the hash by exactly
    /// the key of the side to move.
    pub proof fn lemma_hash_turn(self)
        ensures
            self.pass_turn().spec_hash() == self.spec_hash() ^ spec_key(TURN_INDEX),
    {
        let body = self.hash_body();
        let turn_key = spec_key(TURN_INDEX);
        assert(self.pass_turn().hash_body() == body);
        assert((body ^ turn_key) ^ turn_key == body) by (bit_vector);
    }

    /// The row on which the king and the rooks of `color` start.
    pub open spec fn back_row(color: Color) -> int {
        match color {
            Color::White => 1,
            Color::Black => 8,
        }
    }

    /// The file on which a castling king lands.
    pub open spec fn castling_king_file(side: Castle) -> int {
        match side {
            Castle::Short => 7,
            Castle::Long => 3,
        }
    }

    /// The file from which the castling rook leaves.
    pub open spec fn castling_rook_start(side: Castle) -> int {
        match side {
            Castle::Short => 8,
            Castle::Long => 1,
        }
    }

    /// The file on which the castling rook lands.
    pub open spec fn castling_rook_file(side: Castle) -> int {
        match side {
            Castle::Short => 6,
            Castle::Long => 4,
        }
    }

    /// Castling: a king that moves from its home square two files toward
    /// a rook lands there, its home square and the rook's corner are left
    /// empty, a rook of its color stands on the square it passed over, and
    /// its side has lost both castling rights.
    pub proof fn lemma_castling(self, m: Move, color: Color, side: Castle)
        requires
            self.wf(),
            m.wf(),
            self.piece(Self::back_row(color), 5) == Some(
                Piece { kind_of_piece: KindOfPiece::King, color },
            ),
            m.spec_from_row() == Self::back_row(color),
            m.spec_from_file_number() == 5,
            m.spec_to_row() == Self::back_row(color),
            m.spec_to_file_number() == Self::castling_king_file(side),
            m.spec_promotion() is None,
        ensures
            self.apply(m).piece(Self::back_row(color), Self::castling_king_file(side)) == Some(
                Piece { kind_of_piece: KindOfPiece::King, color },
            ),
            self.apply(m).piece(Self::back_row(color), Self::castling_rook_file(side)) == Some(
                Piece { kind_of_piece: KindOfPiece::Rook, color },
            ),
            self.apply(m).piece(Self::back_row(color), 5) is None,
            self.apply(m).piece(Self::back_row(color), Self::castling_rook_start(side)) is None,
            !self.apply(m).may_castle(color, Castle::Short),
            !self.apply(m).may_castle(color, Castle::Long),
    {
    }

    /// A castling right that is lost stays lost whatever move is played.
    pub proof fn lemma_rights_stay_lost(self, m: Move, color: Color, side: Castle)
        requires
            self.wf(),
            m.wf(),
            !self.may_castle(color, side),
        ensures
            !self.apply(m).may_castle(color, side),
    {
    }

    /// Any move of a king costs its side both castling rights.
    pub proof fn lemma_king_move_strips_rights(self, m: Move, color: Color)
        requires
            self.wf(),
            m.wf(),
            self.piece(m.spec_from_row(), m.spec_from_file_number()) == Some(
                Piece { kind_of_piece: KindOfPiece::King, color },
            ),
        ensures
            !self.apply(m).may_castle(color, Castle::Short),
            !self.apply(m).may_castle(color, Castle::Long),
    {
    }

    /// After any move, at most the file on which the moved piece landed is flagged.
    pub proof fn lemma_flags_reset(self, m: Move, file: int)
        requires
            self.wf(),
            m.wf(),
            self.piece(m.spec_from_row(), m.spec_from_file_number()) is Some,
            1 <= file <= 8,
            file != m.spec_to_file_number(),
        ensures
            !self.apply(m).may_capture_in_passing(file),
    {
    }

    /// Playing a well-formed move on a well-formed position gives a
    /// well-formed position with the same side to move.
    pub proof fn lemma_apply_wf(self, m: Move)
        requires
            self.wf(),
            m.wf(),
        ensures
            self.apply(m).wf(),
            self.apply(m).turn == self.turn,
    {
        broadcast use Move::lemma_wf;

    }
}

/// The two letters that show a square.
fn cell_picture(content: Option<Piece>) -> (text: &'static str)
    ensures
        text@ == Position::cell_text(content),
{
    proof {
        reveal_strlit("  ");
        reveal_strlit("wp");
        reveal_strlit("wn");
        reveal_strlit("wb");
        reveal_strlit("wr");
        reveal_strlit("wq");
        reveal_strlit("wk");
        reveal_strlit("bp");
        reveal_strlit("bn");
        reveal_strlit("bb");
        reveal_strlit("br");
        reveal_strlit("bq");
        reveal_strlit("bk");
    }
    let text = match content {
        None => "  ",
        Some(piece) => match (piece.color, piece.kind_of_piece) {
            (Color::White, KindOfPiece::Pawn) => "wp",
            (Color::White, KindOfPiece::Knight) => "wn",
            (Color::White, KindOfPiece::Bishop) => "wb",
            (Color::White, KindOfPiece::Rook) => "wr",
            (Color::White, KindOfPiece::Queen) => "wq",
            (Color::White, KindOfPiece::King) => "wk",
            (Color::Black, KindOfPiece::Pawn) => "bp",
            (Color::Black, KindOfPiece::Knight) => "bn",
            (Color::Black, KindOfPiece::Bishop) => "bb",
            (Color::Black, KindOfPiece::Rook) => "br",
            (Color::Black, KindOfPiece::Queen) => "bq",
            (Color::Black, KindOfPiece::King) => "bk",
        },
    };
    assert(text@ =~= Position::cell_text(content));
    text
}

/// A position: the board, the castling rights, the en-passant flags and
/// the side to move. A plain value that is cheap to copy.
#[derive(Copy, Clone, PartialEq, Debug)]
pub struct Board {
    fields: [Option<Piece>; 64],
    castle: [bool; 4],
    en_passant: [bool; 8],
    turn: Color,
}

impl View for Board {
    type V = Position;

    closed spec fn view(&self) -> Position {
        Position {
            grid: self.fields@,
            castle: self.castle@,
            en_passant: self.en_passant@,
            turn: self.turn,
        }
    }
}

impl Board {
    /// The model of every board is well formed.
    pub broadcast proof fn lemma_view_wf(self)
        ensures
            #[trigger] self@.wf(),
    {
    }

    /// A board is determined by its model.
    pub proof fn lemma_view_determines(self, other: Board)
        requires
            self@ == other@,
        ensures
            self == other,
    {
        assert(self.fields =~= other.fields);
        assert(self.castle =~= other.castle);
        assert(self.en_passant =~= other.en_passant);
    }

    /// The board whose model is `p`.
    pub closed spec fn of(p: Position) -> Board {
        choose|board: Board| board@ == p
    }

    /// Every board is the board of its model.
    pub proof fn lemma_of_view(self)
        ensures
            Board::of(self@) == self,
    {
        Board::of(self@).lemma_view_determines(self);
    }

    /// Puts a board together from its parts.
    pub(crate) fn assemble(
        fields: [Option<Piece>; 64],
        castle: [bool; 4],
        en_passant: [bool; 8],
        turn: Color,
    ) -> (board: Board)
        ensures
            board@ == (Position { grid: fields@, castle: castle@, en_passant: en_passant@, turn }),
    {
        Board { fields, castle, en_passant, turn }
    }

    /// The standard starting position.
    pub fn new() -> (board: Board)
        ensures
            board@ == Position::start(),
    {
        let wr = Some(Piece { kind_of_piece: KindOfPiece::Rook, color: Color::White });
        let wn = Some(Piece { kind_of_piece: KindOfPiece::Knight, color: Color::White });
        let wb = Some(Piece { kind_of_piece: KindOfPiece::Bishop, color: Color::White });
        let wq = Some(Piece { kind_of_piece: KindOfPiece::Queen, color: Color::White });
        let wk = Some(Piece { kind_of_piece: KindOfPiece::King, color: Color::White });
        let wp = Some(Piece { kind_of_piece: KindOfPiece::Pawn, color: Color::White });
        let br = Some(Piece { kind_of_piece: KindOfPiece::Rook, color: Color::Black });
        let bn = Some(Piece { kind_of_piece: KindOfPiece::Knight, color: Color::Black });
        let bb = Some(Piece { kind_of_piece: KindOfPiece::Bishop, color: Color::Black });
        let bq = Some(Piece { kind_of_piece: KindOfPiece::Queen, color: Color::Black });
        let bk = Some(Piece { kind_of_piece: KindOfPiece::King, color: Color::Black });
        let bp = Some(Piece { kind_of_piece: KindOfPiece::Pawn, color: Color::Black });
        let board = Board {
            fields: [
                wr, wn, wb, wq, wk, wb, wn, wr,
                wp, wp, wp, wp, wp, wp, wp, wp,
                None, None, None, None, None, None, None, None,
                None, None, None, None, None, None, None, None,
                None, None, None, None, None, None, None, None,
                None, None, None, None, None, None, None, None,
                bp, bp, bp, bp, bp, bp, bp, bp,
                br, bn, bb, bq, bk, bb, bn, br,
            ],
            castle: [true, true, true, true],
            en_passant: [false, false, false, false, false, false, false, false],
            turn: Color::White,
        };
        proof {
            assert(board@.grid =~= Position::start().grid);
            assert(board@.castle =~= Position::start().castle);
            assert(board@.en_passant =~= Position::start().en_passant);
        }
        board
    }

    /// What stands on the square with the given coordinates.
    fn cell(&self, row: u8, file: u8) -> (content: Option<Piece>)
        requires
            Field::on_board(row as int, file as int),
        ensures
            content == self@.piece(row as int, file as int),
    {
        self.fields[((row - 1) * 8 + (file - 1)) as usize]
    }

    /// Replaces what stands on the square with the given coordinates.
    fn put(&mut self, row: u8, file: u8, content: Option<Piece>)
        requires
            Field::on_board(row as int, file as int),
        ensures
            final(self)@ == old(self)@.put(row as int, file as int, content),
    {
        self.fields[((row - 1) * 8 + (file - 1)) as usize] = content;
    }

    /// The position hash.
    pub fn hash(&self) -> (h: u64)
        ensures
            h == self@.spec_hash(),
    {
        let mut h: u64 = 0;
        let mut i: usize = 0;
        while i < 64
            invariant
                i <= 64,
                h == Position::hash_squares(self@.grid, i as int),
            decreases 64 - i,
        {
            if let Some(piece) = self.fields[i] {
                h = h ^ key(64 * (piece.code() as u16) + (i as u16));
            }
            i += 1;
        }
        let mut j: usize = 0;
        while j < 4
            invariant
                j <= 4,
                h == Position::hash_flags(
                    self@.castle,
                    CASTLE_BASE as int,
                    j as int,
                    Position::hash_squares(self@.grid, 64),
                ),
            decreases 4 - j,
        {
            if self.castle[j] {
                h = h ^ key(CASTLE_BASE + (j as u16));
            }
            j += 1;
        }
        let ghost rights = h;
        let mut k: usize = 0;
        while k < 8
            invariant
                k <= 8,
                h == Position::hash_flags(self@.en_passant, EN_PASSANT_BASE as int, k as int, rights),
            decreases 8 - k,
        {
            if self.en_passant[k] {
                h = h ^ key(EN_PASSANT_BASE + (k as u16));
            }
            k += 1;
        }
        match self.turn {
            Color::White => h ^ key(TURN_INDEX),
            Color::Black => h,
        }
    }

    /// Whether `color` still has the right to castle on `side`.
    pub fn can_castle(&self, color: Color, side: Castle) -> (right: bool)
        ensures
            right == self@.may_castle(color, side),
    {
        match (color, side) {
            (Color::White, Castle::Short) => self.castle[0],
            (Color::White, Castle::Long) => self.castle[1],
            (Color::Black, Castle::Short) => self.castle[2],
            (Color::Black, Castle::Long) => self.castle[3],
        }
    }

    /// Whether a pawn on `file` can be captured in passing.
    pub fn can_en_passant(&self, file: u8) -> (flag: bool)
        requires
            1 <= file <= 8,
        ensures
            flag == self@.may_capture_in_passing(file as int),
    {
        self.en_passant[(file - 1) as usize]
    }

    /// Plays `mv` without asking whether it is legal: the piece on the
    /// source square is taken to be able to make it. The side to move is
    /// left as it is.
    pub fn apply_unchecked(&mut self, mv: &Move)
        requires
            old(self)@.piece_at(mv.spec_from_field()) is Some,
        ensures
            final(self)@ == old(self)@.apply(*mv),
    {
        broadcast use Field::lemma_at;

        let from_row: u8 = mv.from_row();
        let from_file: u8 = mv.from_file_number();
        let to_row: u8 = mv.to_row();
        let to_file: u8 = mv.to_file_number();
        let piece = match self.cell(from_row, from_file) {
            Some(piece) => piece,
            None => {
                return ;
            },
        };
        let flagged: bool = self.en_passant[(to_file - 1) as usize];
        let color = piece.color;
        let enemy = color.enemy();

        self.put(from_row, from_file, None);
        let placed = match mv.promotion() {
            Some(kind) => Piece { kind_of_piece: kind, color },
            None => piece,
        };
        self.put(to_row, to_file, Some(placed));

        if piece.kind_of_piece == KindOfPiece::King {
            let rook = Some(Piece { kind_of_piece: KindOfPiece::Rook, color });
            if from_file == 5 && to_file == 7 {
                self.put(from_row, 8, None);
                self.put(from_row, 6, rook);
            } else if from_file == 5 && to_file == 3 {
                self.put(from_row, 1, None);
                self.put(from_row, 4, rook);
            }
            match color {
                Color::White => {
                    self.castle[0] = false;
                    self.castle[1] = false;
                },
                Color::Black => {
                    self.castle[2] = false;
                    self.castle[3] = false;
                },
            }
        }
        let capturing_row: u8 = match color {
            Color::White => 6,
            Color::Black => 3,
        };
        let behind: u8 = match color {
            Color::White => 5,
            Color::Black => 4,
        };
        if flagged && to_row == capturing_row {
            if let Some(victim) = self.cell(behind, to_file) {
                if victim.kind_of_piece == KindOfPiece::Pawn && victim.color == enemy {
                    self.put(behind, to_file, None);
                }
            }
        }
        let landing_row: u8 = match color {
            Color::White => 4,
            Color::Black => 5,
        };
        let home_row: u8 = match color {
            Color::White => 2,
            Color::Black => 7,
        };
        let mut opened: bool = false;
        if piece.kind_of_piece == KindOfPiece::Pawn && to_row == landing_row && from_row
            == home_row {
            if to_file > 1 {
                if let Some(neighbour) = self.cell(to_row, to_file - 1) {
                    if neighbour.kind_of_piece == KindOfPiece::Pawn && neighbour.color == enemy {
                        opened = true;
                    }
                }
            }
            if to_file < 8 {
                if let Some(neighbour) = self.cell(to_row, to_file + 1) {
                    if neighbour.kind_of_piece == KindOfPiece::Pawn && neighbour.color == enemy {
                        opened = true;
                    }
                }
            }
        }
        let ghost before_flags = self@;
        self.en_passant = [false;8];
        if opened {
            self.en_passant[(to_file - 1) as usize] = true;
        }
        proof {
            assert(self@.en_passant =~= before_flags.reflag(
                piece,
                from_row as int,
                to_row as int,
                to_file as int,
            ).en_passant);
        }
    }

    /// The picture of the board as text.
    pub fn to_text(&self) -> (text: String)
        ensures
            text@ == self@.spec_text(),
    {
        let mut text = String::from_str("");
        proof {
            reveal_strlit("");
            assert(text@ =~= Seq::<char>::empty());
        }
        let mut n: usize = 0;
        while n < 64
            invariant
                n <= 64,
                text@ == Position::text_upto(self@.grid, n as int),
            decreases 64 - n,
        {
            let ghost before = text@;
            text.append(cell_picture(self.fields[n]));
            if n % 8 == 7 {
                proof {
                    reveal_strlit("\n");
                }
                text.append("\n");
                proof {
                    assert(text@ =~= before + Position::cell_text(self@.grid[n as int]) + seq!['\n']);
                }
            } else {
                proof {
                    assert(text@ =~= before + Position::cell_text(self@.grid[n as int])
                        + Seq::<char>::empty());
                }
            }
            n += 1;
        }
        text
    }

    /// What stands on `field`.
    pub fn field_content(&self, field: &Field) -> (content: &Option<Piece>)
        ensures
            *content == self@.piece_at(*field),
    {
        &self.fields[((field.get_row() - 1) * 8 + (field.get_file() - 1)) as usize]
    }

    /// The side to move.
    pub fn which_turn(&self) -> (turn: Color)
        ensures
            turn == self@.turn,
    {
        self.turn
    }

    /// Hands the move to the other side.
    pub fn next_turn(&mut self)
        ensures
            final(self)@ == old(self)@.pass_turn(),
    {
        self.turn = self.turn.enemy();
    }

    /// The static evaluation of the position.
    pub fn eval(&self) -> (sum: i32)
        ensures
            sum == self@.spec_eval(),
    {
        let mut sum: i32 = 0;
        let mut row: u8 = 1;
        while row <= 8
            invariant
                1 <= row <= 9,
                sum == Position::eval_squares(self@.grid, (row - 1) * 8),
            decreases 9 - row,
        {
            let mut file: u8 = 1;
            while file <= 8
                invariant
                    1 <= row <= 8,
                    1 <= file <= 9,
                    sum == Position::eval_squares(self@.grid, (row - 1) * 8 + (file - 1)),
                decreases 9 - file,
            {
                let field = Field::build_unchecked(row, file);
                proof {
                    Position::lemma_eval_bounded(self@.grid, (row - 1) * 8 + (file - 1));
                    Position::lemma_eval_bounded(self@.grid, (row - 1) * 8 + file);
                }
                let value: i32 = match self.field_content(&field) {
                    Some(piece) => piece_value(&field, piece, true),
                    None => 0,
                };
                sum += value;
                file += 1;
            }
            row += 1;
        }
        sum
    }
}

/// The number that stands for `piece` on `field`: 64 times the piece's
/// code, plus 8 times the row, plus the file.
pub open spec fn spec_field_code(piece: Piece, field: Field) -> int {
    64 * piece.spec_code() + 8 * field.spec_row() + field.spec_file()
}

/// The number that stands for `piece` on `field`.
pub fn field_code(piece: &Piece, field: &Field) -> (code: u16)
    ensures
        code == spec_field_code(*piece, *field),
{
    64u16 * (piece.code() as u16) + 8u16 * (field.get_row() as u16) + (field.get_file() as u16)
}

/// The hashing key found under the field code of `piece` on `field`.
pub fn field_hash(piece: &Piece, field: &Field) -> (h: u64)
    ensures
        h == spec_key(spec_field_code(*piece, *field) as u16),
{
    key(field_code(piece, field))
}

impl TryFrom<&str> for Field {
    type Error = ();

    /// Reads a square from its name, such as `e4` or `E4`.
    fn try_from(s: &str) -> (r: Result<Self, Self::Error>) {
        match Field::parse(s.as_bytes()) {
            Some(field) => Ok(field),
            None => Err(()),
        }
    }
}

impl vstd::std_specs::convert::TryFromSpecImpl<&str> for Field {
    open spec fn obeys_try_from_spec() -> bool {
        true
    }

    open spec fn try_from_spec(s: &str) -> Result<Self, Self::Error> {
        match Field::spec_parse(s.spec_bytes()) {
            Some(field) => Ok(field),
            None => Err(()),
        }
    }
}

} // verus!
