//! The move codec and the opening book.

use vstd::prelude::*;
use std::collections::HashMap;
use vstd::string::StringSliceAdditionalSpecFns;
use vstd::string::StringExecFns;
use vstd::utf8::encode_utf8;
use vstd::utf8::is_ascii_chars;
use vstd::utf8::is_ascii_chars_encode_utf8;
use crate::board::Field;
use crate::board::KindOfPiece;
use crate::pick::first_best;
use crate::pick::lemma_first_best;

verus! {

/// The letters of the eight files.
pub const ALPHABET: [char; 8] = ['a', 'b', 'c', 'd', 'e', 'f', 'g', 'h'];

/// Packing five three-bit digits and taking them apart again gives the digits.
proof fn lemma_pack_digits(p: u32, a: u32, b: u32, c: u32, d: u32)
    by (bit_vector)
    requires
        p < 8,
        a < 8,
        b < 8,
        c < 8,
        d < 8,
    ensures
        (p * 0x1000 + a * 0x200 + b * 0x40 + c * 8 + d) % 8 == d,
        ((p * 0x1000 + a * 0x200 + b * 0x40 + c * 8 + d) / 8) % 8 == c,
        ((p * 0x1000 + a * 0x200 + b * 0x40 + c * 8 + d) / 0x40) % 8 == b,
        ((p * 0x1000 + a * 0x200 + b * 0x40 + c * 8 + d) / 0x200) % 8 == a,
        (p * 0x1000 + a * 0x200 + b * 0x40 + c * 8 + d) / 0x1000 == p,
        (p * 0x1000 + a * 0x200 + b * 0x40 + c * 8 + d) < 0x8000,
{
}

/// Every 15-bit code is the packing of its five three-bit digits.
proof fn lemma_digits_pack(code: u32)
    by (bit_vector)
    requires
        code < 0x8000,
    ensures
        code == (code / 0x1000) * 0x1000 + ((code / 0x200) % 8) * 0x200 + ((code / 0x40) % 8)
            * 0x40 + ((code / 8) % 8) * 8 + code % 8,
        code / 0x1000 < 8,
        (code / 0x1000) % 8 == code / 0x1000,
{
}

/// A move packed into 15 bits: from the low end three bits each for the
/// destination file, destination row, source file and source row (all
/// counted from zero), then three bits for the promotion.
#[derive(Copy, Clone, PartialEq, Eq, Debug, Structural)]
pub struct Move(u16);

impl Move {
    /// The packed code keeps its top bit clear and names a promotion that exists.
    #[verifier::type_invariant]
    pub closed spec fn wf(self) -> bool {
        Self::valid_code(self.0 as int)
    }

    /// The codes that stand for a move.
    pub open spec fn valid_code(code: int) -> bool {
        0 <= code < 0x8000 && code / 0x1000 <= 4
    }

    /// The packed code.
    pub closed spec fn spec_code(self) -> int {
        self.0 as int
    }

    /// The move with the given packed code.
    pub closed spec fn of_code(code: int) -> Move {
        Move(code as u16)
    }

    /// A move is well formed exactly when its code is valid.
    pub broadcast proof fn lemma_wf(self)
        ensures
            #[trigger] self.wf() <==> Self::valid_code(self.spec_code()),
    {
    }

    /// `of_code` builds the move that carries the code given.
    pub broadcast proof fn lemma_of_code(code: int)
        requires
            0 <= code < 0x10000,
        ensures
            (#[trigger] Self::of_code(code)).spec_code() == code,
    {
    }

    /// A move is determined by its code.
    pub proof fn lemma_ext(self, other: Move)
        requires
            self.spec_code() == other.spec_code(),
        ensures
            self == other,
    {
    }

    /// The number that stands for a promotion in the packed code.
    pub open spec fn promotion_code(promotion: Option<KindOfPiece>) -> int {
        match promotion {
            None => 0,
            Some(KindOfPiece::Knight) => 1,
            Some(KindOfPiece::Bishop) => 2,
            Some(KindOfPiece::Rook) => 3,
            Some(KindOfPiece::Queen) => 4,
            Some(KindOfPiece::Pawn) => 5,
            Some(KindOfPiece::King) => 6,
        }
    }

    /// The kinds a pawn may turn into, and no promotion at all.
    pub open spec fn promotable(promotion: Option<KindOfPiece>) -> bool {
        Self::promotion_code(promotion) <= 4
    }

    /// The packed code of a move between two squares.
    pub open spec fn encode(from: Field, to: Field, promotion: Option<KindOfPiece>) -> int {
        Self::promotion_code(promotion) * 0x1000 + (from.spec_row() - 1) * 0x200 + (
        from.spec_file() - 1) * 0x40 + (to.spec_row() - 1) * 8 + (to.spec_file() - 1)
    }

    /// The move from `from` to `to` with the given promotion.
    pub open spec fn spec_build(from: Field, to: Field, promotion: Option<KindOfPiece>) -> Move {
        Self::of_code(Self::encode(from, to, promotion))
    }

    /// The file of the source square, 1 to 8.
    pub open spec fn spec_from_file_number(self) -> int {
        (self.spec_code() / 0x40) % 8 + 1
    }

    /// The row of the source square, 1 to 8.
    pub open spec fn spec_from_row(self) -> int {
        (self.spec_code() / 0x200) % 8 + 1
    }

    /// The file of the destination square, 1 to 8.
    pub open spec fn spec_to_file_number(self) -> int {
        self.spec_code() % 8 + 1
    }

    /// The row of the destination square, 1 to 8.
    pub open spec fn spec_to_row(self) -> int {
        (self.spec_code() / 8) % 8 + 1
    }

    /// The square the move starts from.
    pub open spec fn spec_from_field(self) -> Field {
        Field::at(self.spec_from_row(), self.spec_from_file_number())
    }

    /// The square the move ends on.
    pub open spec fn spec_to_field(self) -> Field {
        Field::at(self.spec_to_row(), self.spec_to_file_number())
    }

    /// The kind the moved pawn turns into, if any.
    pub open spec fn spec_promotion(self) -> Option<KindOfPiece> {
        let p = (self.spec_code() / 0x1000) % 8;
        if p == 1 {
            Some(KindOfPiece::Knight)
        } else if p == 2 {
            Some(KindOfPiece::Bishop)
        } else if p == 3 {
            Some(KindOfPiece::Rook)
        } else if p == 4 {
            Some(KindOfPiece::Queen)
        } else {
            None
        }
    }

    /// Decoding an encoded move gives back the squares and the promotion:
    /// for squares on the board and a promotion that exists, `spec_build`
    /// is a well-formed move whose parts are the ones it was built from.
    pub proof fn lemma_decode_encode(from: Field, to: Field, promotion: Option<KindOfPiece>)
        requires
            from.wf(),
            to.wf(),
            Self::promotable(promotion),
        ensures
            Self::spec_build(from, to, promotion).wf(),
            Self::spec_build(from, to, promotion).spec_from_field() == from,
            Self::spec_build(from, to, promotion).spec_to_field() == to,
            Self::spec_build(from, to, promotion).spec_promotion() == promotion,
    {
        broadcast use Field::lemma_wf, Field::lemma_at_self, Move::lemma_of_code, Move::lemma_wf;

        lemma_pack_digits(
            Self::promotion_code(promotion) as u32,
            (from.spec_row() - 1) as u32,
            (from.spec_file() - 1) as u32,
            (to.spec_row() - 1) as u32,
            (to.spec_file() - 1) as u32,
        );
    }

    /// Encoding the parts of a well-formed move gives the move back.
    pub proof fn lemma_encode_decode(self)
        requires
            self.wf(),
        ensures
            self.spec_from_field().wf(),
            self.spec_to_field().wf(),
            Self::promotable(self.spec_promotion()),
            Self::spec_build(self.spec_from_field(), self.spec_to_field(), self.spec_promotion())
                == self,
    {
        broadcast use Field::lemma_at, Move::lemma_of_code, Move::lemma_wf;

        lemma_digits_pack(self.spec_code() as u32);
        let rebuilt = Self::spec_build(
            self.spec_from_field(),
            self.spec_to_field(),
            self.spec_promotion(),
        );
        rebuilt.lemma_ext(self);
    }

    /// The file of the source square, 1 to 8.
    pub fn from_file_number(&self) -> (n: u8)
        ensures
            n == self.spec_from_file_number(),
            1 <= n <= 8,
    {
        ((self.0 / 0x40) % 8 + 1) as u8
    }

    /// The letter of the file of the source square.
    pub fn from_file(&self) -> (c: char)
        ensures
            c == ALPHABET[self.spec_from_file_number() - 1],
    {
        ALPHABET[(self.from_file_number() - 1) as usize]
    }

    /// The row of the source square, 1 to 8.
    pub fn from_row(&self) -> (n: u8)
        ensures
            n == self.spec_from_row(),
            1 <= n <= 8,
    {
        ((self.0 / 0x200) % 8 + 1) as u8
    }

    /// The square the move starts from.
    pub fn from_field(&self) -> (f: Field)
        ensures
            f == self.spec_from_field(),
            f.wf(),
    {
        broadcast use Field::lemma_at;

        Field::build_unchecked(self.from_row(), self.from_file_number())
    }

    /// The file of the destination square, 1 to 8.
    pub fn to_file_number(&self) -> (n: u8)
        ensures
            n == self.spec_to_file_number(),
            1 <= n <= 8,
    {
        (self.0 % 8 + 1) as u8
    }

    /// The letter of the file of the destination square.
    pub fn to_file(&self) -> (c: char)
        ensures
            c == ALPHABET[self.spec_to_file_number() - 1],
    {
        ALPHABET[(self.to_file_number() - 1) as usize]
    }

    /// The row of the destination square, 1 to 8.
    pub fn to_row(&self) -> (n: u8)
        ensures
            n == self.spec_to_row(),
            1 <= n <= 8,
    {
        ((self.0 / 8) % 8 + 1) as u8
    }

    /// The square the move ends on.
    pub fn to_field(&self) -> (f: Field)
        ensures
            f == self.spec_to_field(),
            f.wf(),
    {
        broadcast use Field::lemma_at;

        Field::build_unchecked(self.to_row(), self.to_file_number())
    }

    /// The kind the moved pawn turns into, if any.
    pub fn promotion(&self) -> (p: Option<KindOfPiece>)
        ensures
            p == self.spec_promotion(),
            Self::promotable(p),
    {
        proof {
            use_type_invariant(self);
        }
        let code: u16 = (self.0 / 0x1000) % 8;
        if code == 0 {
            None
        } else if code == 1 {
            Some(KindOfPiece::Knight)
        } else if code == 2 {
            Some(KindOfPiece::Bishop)
        } else if code == 3 {
            Some(KindOfPiece::Rook)
        } else {
            Some(KindOfPiece::Queen)
        }
    }

    /// Packs a move. Fails exactly when the promotion is to a pawn or a king.
    pub fn build(f1: Field, f2: Field, piece: Option<KindOfPiece>) -> (r: Result<Self, ()>)
        ensures
            r.is_ok() <==> Self::promotable(piece),
            r.is_ok() ==> r.unwrap() == Self::spec_build(f1, f2, piece) && r.unwrap().wf(),
    {
        let promotion: u16 = match piece {
            None => 0,
            Some(KindOfPiece::Knight) => 1,
            Some(KindOfPiece::Bishop) => 2,
            Some(KindOfPiece::Rook) => 3,
            Some(KindOfPiece::Queen) => 4,
            _ => {
                return Err(());
            },
        };
        let to_file: u16 = (f2.get_file() - 1) as u16;
        let to_row: u16 = (f2.get_row() - 1) as u16;
        let from_file: u16 = (f1.get_file() - 1) as u16;
        let from_row: u16 = (f1.get_row() - 1) as u16;
        let code: u16 = promotion * 0x1000 + from_row * 0x200 + from_file * 0x40 + to_row * 8
            + to_file;
        let built = Move(code);
        proof {
            Self::spec_build(f1, f2, piece).lemma_ext(built);
        }
        Ok(built)
    }

    /// The promotion that the text after the two squares stands for:
    /// none for no text, a kind for one of the letters q, b, n and r.
    pub open spec fn spec_promotion_of(text: Seq<u8>) -> Option<Option<KindOfPiece>> {
        if text.len() == 0 {
            Some(None)
        } else if text.len() != 1 {
            None
        } else if text[0] == 0x71 {
            Some(Some(KindOfPiece::Queen))
        } else if text[0] == 0x62 {
            Some(Some(KindOfPiece::Bishop))
        } else if text[0] == 0x6e {
            Some(Some(KindOfPiece::Knight))
        } else if text[0] == 0x72 {
            Some(Some(KindOfPiece::Rook))
        } else {
            None
        }
    }

    /// Reads a move from its text: the names of two squares, then at most
    /// one promotion letter.
    pub open spec fn spec_parse(text: Seq<u8>) -> Option<Move> {
        if text.len() != 4 && text.len() != 5 {
            None
        } else {
            match (
                Field::spec_from_letters(text[0], text[1]),
                Field::spec_from_letters(text[2], text[3]),
                Self::spec_promotion_of(text.subrange(4, text.len() as int)),
            ) {
                (Some(from), Some(to), Some(promotion)) => Some(
                    Self::spec_build(from, to, promotion),
                ),
                _ => None,
            }
        }
    }

    /// The letter of a promotion, where there is one.
    pub open spec fn spec_promotion_text(promotion: Option<KindOfPiece>) -> Seq<u8> {
        match promotion {
            None => Seq::empty(),
            Some(kind) => seq![kind.spec_letter() as u8],
        }
    }

    /// The text of the move: the names of its two squares, then the
    /// letter of its promotion where it has one.
    pub open spec fn spec_text(self) -> Seq<u8> {
        self.spec_from_field().spec_name() + self.spec_to_field().spec_name()
            + Self::spec_promotion_text(self.spec_promotion())
    }

    /// Reads a move from its text.
    pub fn parse(text: &[u8]) -> (r: Option<Move>)
        ensures
            r == Self::spec_parse(text@),
            r matches Some(m) ==> m.wf(),
    {
        if text.len() != 4 && text.len() != 5 {
            return None;
        }
        let from = match Field::from_letters(text[0], text[1]) {
            Some(field) => field,
            None => {
                return None;
            },
        };
        let to = match Field::from_letters(text[2], text[3]) {
            Some(field) => field,
            None => {
                return None;
            },
        };
        let promotion: Option<KindOfPiece> = if text.len() == 4 {
            None
        } else if text[4] == 0x71 {
            Some(KindOfPiece::Queen)
        } else if text[4] == 0x62 {
            Some(KindOfPiece::Bishop)
        } else if text[4] == 0x6e {
            Some(KindOfPiece::Knight)
        } else if text[4] == 0x72 {
            Some(KindOfPiece::Rook)
        } else {
            return None;
        };
        match Self::build(from, to, promotion) {
            Ok(built) => Some(built),
            Err(_) => None,
        }
    }
}

/// The name of a file as text.
fn file_text(file: u8) -> (text: &'static str)
    requires
        1 <= file <= 8,
    ensures
        text@ == seq![((0x60 + file) as u8) as char],
{
    proof {
        reveal_strlit("a");
        reveal_strlit("b");
        reveal_strlit("c");
        reveal_strlit("d");
        reveal_strlit("e");
        reveal_strlit("f");
        reveal_strlit("g");
        reveal_strlit("h");
    }
    let text = if file == 1 {
        "a"
    } else if file == 2 {
        "b"
    } else if file == 3 {
        "c"
    } else if file == 4 {
        "d"
    } else if file == 5 {
        "e"
    } else if file == 6 {
        "f"
    } else if file == 7 {
        "g"
    } else {
        "h"
    };
    assert(text@ =~= seq![((0x60 + file) as u8) as char]);
    text
}

/// The name of a row as text.
fn row_text(row: u8) -> (text: &'static str)
    requires
        1 <= row <= 8,
    ensures
        text@ == seq![((0x30 + row) as u8) as char],
{
    proof {
        reveal_strlit("1");
        reveal_strlit("2");
        reveal_strlit("3");
        reveal_strlit("4");
        reveal_strlit("5");
        reveal_strlit("6");
        reveal_strlit("7");
        reveal_strlit("8");
    }
    let text = if row == 1 {
        "1"
    } else if row == 2 {
        "2"
    } else if row == 3 {
        "3"
    } else if row == 4 {
        "4"
    } else if row == 5 {
        "5"
    } else if row == 6 {
        "6"
    } else if row == 7 {
        "7"
    } else {
        "8"
    };
    assert(text@ =~= seq![((0x30 + row) as u8) as char]);
    text
}

/// The letter of a promotion as text; nothing where there is none.
fn promotion_text(promotion: Option<KindOfPiece>) -> (text: &'static str)
    ensures
        text@ == match promotion {
            None => Seq::<char>::empty(),
            Some(kind) => seq![kind.spec_letter()],
        },
{
    proof {
        reveal_strlit("");
        reveal_strlit("p");
        reveal_strlit("n");
        reveal_strlit("b");
        reveal_strlit("r");
        reveal_strlit("q");
        reveal_strlit("k");
    }
    let text = match promotion {
        None => "",
        Some(KindOfPiece::Pawn) => "p",
        Some(KindOfPiece::Knight) => "n",
        Some(KindOfPiece::Bishop) => "b",
        Some(KindOfPiece::Rook) => "r",
        Some(KindOfPiece::Queen) => "q",
        Some(KindOfPiece::King) => "k",
    };
    assert(text@ =~= match promotion {
        None => Seq::<char>::empty(),
        Some(kind) => seq![kind.spec_letter()],
    });
    text
}

impl Move {
    /// The move as text, such as `e2e4` or `e7e8q`.
    pub fn to_text(&self) -> (text: String)
        ensures
            encode_utf8(text@) == self.spec_text(),
    {
        broadcast use Field::lemma_at;

        let promotion = self.promotion();
        let mut text = String::from_str(file_text(self.from_file_number()));
        text.append(row_text(self.from_row()));
        text.append(file_text(self.to_file_number()));
        text.append(row_text(self.to_row()));
        text.append(promotion_text(promotion));
        proof {
            assert(is_ascii_chars(text@));
            is_ascii_chars_encode_utf8(text@);
            assert(encode_utf8(text@) =~= self.spec_text());
        }
        text
    }

    /// Reading the text of a move gives the move back.
    pub proof fn lemma_parse_text(self)
        requires
            self.wf(),
        ensures
            Self::spec_parse(self.spec_text()) == Some(self),
    {
        broadcast use Field::lemma_at, Field::lemma_wf;

        self.lemma_encode_decode();
        let text = self.spec_text();
        let from = self.spec_from_field();
        let to = self.spec_to_field();
        assert(Field::spec_from_letters(text[0], text[1]) == Some(from)) by {
            Field::at(text[1] - 0x30, text[0] - 0x60).lemma_ext(from);
        }
        assert(Field::spec_from_letters(text[2], text[3]) == Some(to)) by {
            Field::at(text[3] - 0x30, text[2] - 0x60).lemma_ext(to);
        }
        assert(text.subrange(4, text.len() as int) =~= Self::spec_promotion_text(
            self.spec_promotion(),
        ));
    }

    /// Writing the move that a text stands for gives the text back, where
    /// the text names its files in lower case.
    pub proof fn lemma_text_parse(text: Seq<u8>)
        requires
            Self::spec_parse(text) is Some,
            text[0] >= 0x61,
            text[2] >= 0x61,
        ensures
            Self::spec_parse(text)->0.spec_text() == text,
    {
        broadcast use Field::lemma_at;

        let read = Self::spec_parse(text)->0;
        let from = Field::spec_from_letters(text[0], text[1])->0;
        let to = Field::spec_from_letters(text[2], text[3])->0;
        let promotion = Self::spec_promotion_of(text.subrange(4, text.len() as int))->0;
        assert(text.len() == 5 ==> text.subrange(4, text.len() as int)[0] == text[4]);
        Self::lemma_decode_encode(from, to, promotion);
        assert(read.spec_text() =~= text);
    }
}

impl TryFrom<u16> for Move {
    type Error = ();

    /// Takes a packed code for a move, unless its top bit is set or it
    /// names a promotion that does not exist.
    fn try_from(code: u16) -> (r: Result<Self, Self::Error>) {
        if code >= 0x8000 {
            return Err(());
        }
        if code / 0x1000 > 4 {
            return Err(());
        }
        let taken = Move(code);
        proof {
            Move::of_code(code as int).lemma_ext(taken);
        }
        Ok(taken)
    }
}

impl vstd::std_specs::convert::TryFromSpecImpl<u16> for Move {
    open spec fn obeys_try_from_spec() -> bool {
        true
    }

    open spec fn try_from_spec(code: u16) -> Result<Self, Self::Error> {
        if Move::valid_code(code as int) {
            Ok(Move::of_code(code as int))
        } else {
            Err(())
        }
    }
}

impl TryFrom<&str> for Move {
    type Error = ();

    /// Reads a move from its text, such as `e2e4` or `e7e8q`.
    fn try_from(s: &str) -> (r: Result<Self, Self::Error>) {
        match Move::parse(s.as_bytes()) {
            Some(read) => Ok(read),
            None => Err(()),
        }
    }
}

impl vstd::std_specs::convert::TryFromSpecImpl<&str> for Move {
    open spec fn obeys_try_from_spec() -> bool {
        true
    }

    open spec fn try_from_spec(s: &str) -> Result<Self, Self::Error> {
        match Move::spec_parse(s.spec_bytes()) {
            Some(read) => Ok(read),
            None => Err(()),
        }
    }
}

/// One move that the book knows for a position, with its weight.
#[derive(Copy, Clone, PartialEq, Eq, Debug, Structural)]
pub struct BookEntry {
    pub mv: u16,
    pub weight: u16,
}

/// The number that two bytes at `at` stand for, high byte first.
pub open spec fn be16(data: Seq<u8>, at: int) -> int {
    data[at] * 0x100 + data[at + 1]
}

/// The number that eight bytes at `at` stand for, high byte first.
pub open spec fn be64(data: Seq<u8>, at: int) -> int {
    data[at] * 0x100_0000_0000_0000 + data[at + 1] * 0x1_0000_0000_0000 + data[at + 2]
        * 0x100_0000_0000 + data[at + 3] * 0x1_0000_0000 + data[at + 4] * 0x100_0000 + data[at + 5]
        * 0x1_0000 + data[at + 6] * 0x100 + data[at + 7]
}

/// The length of a book record: eight bytes of position hash, two of
/// move code, two of weight and four that are not used.
pub const RECORD_LEN: usize = 16;

/// The `k`-th record lies within the data and its move code has the top
/// bit clear.
pub open spec fn readable(data: Seq<u8>, k: int) -> bool {
    RECORD_LEN * (k + 1) <= data.len() && data[RECORD_LEN * k + 8] < 0x80
}

/// The number of records from the `k`-th on up to the first that is not
/// readable, added to `k`.
pub open spec fn records_from(data: Seq<u8>, k: int) -> int
    decreases data.len() - RECORD_LEN * k,
{
    if k >= 0 && readable(data, k) {
        records_from(data, k + 1)
    } else {
        k
    }
}

/// The hash of the `k`-th record.
pub open spec fn record_key(data: Seq<u8>, k: int) -> u64 {
    be64(data, RECORD_LEN * k) as u64
}

/// The entry of the `k`-th record.
pub open spec fn record_entry(data: Seq<u8>, k: int) -> BookEntry {
    BookEntry {
        mv: be16(data, RECORD_LEN * k + 8) as u16,
        weight: be16(data, RECORD_LEN * k + 10) as u16,
    }
}

/// What a book holds after `entry` is listed under `key`: the entry
/// comes last among those of its key.
pub open spec fn listed(book: Map<u64, Seq<BookEntry>>, key: u64, entry: BookEntry) -> Map<
    u64,
    Seq<BookEntry>,
> {
    let earlier = if book.contains_key(key) {
        book[key]
    } else {
        Seq::empty()
    };
    book.insert(key, earlier.push(entry))
}

/// What the book holds after the first `n` records.
pub open spec fn book_upto(data: Seq<u8>, n: int) -> Map<u64, Seq<BookEntry>>
    decreases n,
{
    if n <= 0 {
        Map::empty()
    } else {
        listed(book_upto(data, n - 1), record_key(data, n - 1), record_entry(data, n - 1))
    }
}

/// What the book read from `data` holds: the entries of all records up
/// to the first that is cut short or malformed, under their hashes, in
/// the order of the records.
pub open spec fn book_of(data: Seq<u8>) -> Map<u64, Seq<BookEntry>> {
    book_upto(data, records_from(data, 0))
}

/// The weights of the entries.
pub open spec fn weights(entries: Seq<BookEntry>) -> Seq<int> {
    Seq::new(entries.len(), |i: int| entries[i].weight as int)
}

/// The move that the book gives for a list of entries: that of the
/// first entry of the greatest weight, where there is an entry and its
/// code stands for a move.
pub open spec fn choice_of(entries: Seq<BookEntry>) -> Option<Move> {
    if entries.len() == 0 {
        None
    } else {
        let code = entries[first_best(weights(entries))].mv as int;
        if Move::valid_code(code) {
            Some(Move::of_code(code))
        } else {
            None
        }
    }
}

/// The move that a book gives for the position with hash `hash`;
/// nothing where the book has no entry for it.
pub open spec fn known_move(book: Map<u64, Seq<BookEntry>>, hash: u64) -> Option<Move> {
    if book.contains_key(hash) {
        choice_of(book[hash])
    } else {
        None
    }
}

/// Reads two bytes, high byte first.
fn read_be16(data: &[u8], at: usize) -> (value: u16)
    requires
        at + 2 <= data@.len(),
    ensures
        value == be16(data@, at as int),
{
    (data[at] as u16) * 0x100 + (data[at + 1] as u16)
}

/// Reads eight bytes, high byte first.
fn read_be64(data: &[u8], at: usize) -> (value: u64)
    requires
        at + 8 <= data@.len(),
    ensures
        value == be64(data@, at as int),
{
    (data[at] as u64) * 0x100_0000_0000_0000 + (data[at + 1] as u64) * 0x1_0000_0000_0000 + (
    data[at + 2] as u64) * 0x100_0000_0000 + (data[at + 3] as u64) * 0x1_0000_0000 + (data[at
        + 4] as u64) * 0x100_0000 + (data[at + 5] as u64) * 0x1_0000 + (data[at + 6] as u64)
        * 0x100 + (data[at + 7] as u64)
}

/// The first entry of the greatest weight.
pub fn best_entry(entries: &Vec<BookEntry>) -> (best: Option<BookEntry>)
    ensures
        best is None <==> entries@.len() == 0,
        best matches Some(entry) ==> {
            &&& entry == entries@[first_best(weights(entries@))]
            &&& forall|j: int| 0 <= j < entries@.len() ==> (#[trigger] entries@[j]).weight <= entry.weight
            &&& forall|j: int|
                0 <= j < first_best(weights(entries@)) ==> (#[trigger] entries@[j]).weight
                    < entry.weight
        },
{
    if entries.len() == 0 {
        return None;
    }
    let mut best: usize = 0;
    let mut i: usize = 1;
    proof {
        assert(weights(entries@.take(1)).len() == 1);
    }
    while i < entries.len()
        invariant
            1 <= i <= entries@.len(),
            best < i,
            best == first_best(weights(entries@.take(i as int))),
        decreases entries@.len() - i,
    {
        proof {
            assert(weights(entries@.take(i + 1)).drop_last() =~= weights(entries@.take(i as int)));
        }
        if entries[i].weight > entries[best].weight {
            best = i;
        }
        i += 1;
    }
    proof {
        assert(entries@.take(entries@.len() as int) =~= entries@);
        lemma_first_best(weights(entries@));
        assert forall|j: int| 0 <= j < entries@.len() implies (#[trigger] entries@[j]).weight
            <= entries@[best as int].weight by {
            assert(weights(entries@)[j] <= weights(entries@)[best as int]);
        }
        assert forall|j: int| 0 <= j < best implies (#[trigger] entries@[j]).weight
            < entries@[best as int].weight by {
            assert(weights(entries@)[j] < weights(entries@)[best as int]);
        }
    }
    Some(entries[best])
}

/// The move that the book gives for a list of entries.
pub fn choose_move(entries: &Vec<BookEntry>) -> (mv: Option<Move>)
    ensures
        mv == choice_of(entries@),
{
    match best_entry(entries) {
        None => None,
        Some(entry) => match Move::try_from(entry.mv) {
            Ok(mv) => Some(mv),
            Err(_) => None,
        },
    }
}

/// The opening book: for each position hash the moves known for it,
/// in the order in which they were read.
pub struct Book(HashMap<u64, Vec<BookEntry>>);

impl View for Book {
    type V = Map<u64, Seq<BookEntry>>;

    closed spec fn view(&self) -> Map<u64, Seq<BookEntry>> {
        Map::new(|key: u64| self.0@.contains_key(key), |key: u64| self.0@[key]@)
    }
}

impl Book {
    /// The book without entries.
    pub fn new() -> (book: Book)
        ensures
            book@ == Map::<u64, Seq<BookEntry>>::empty(),
    {
        let book = Book(HashMap::new());
        proof {
            assert(book@ =~= Map::<u64, Seq<BookEntry>>::empty());
        }
        book
    }

    /// Lists `entry` last among the entries of `key`.
    pub fn list(&mut self, key: u64, entry: BookEntry)
        ensures
            final(self)@ == listed(old(self)@, key, entry),
    {
        let mut entries = match self.0.remove(&key) {
            Some(entries) => entries,
            None => Vec::new(),
        };
        entries.push(entry);
        self.0.insert(key, entries);
        proof {
            assert(self@ =~= listed(old(self)@, key, entry));
        }
    }

    /// Reads a book from the bytes of a book file: records of 16 bytes,
    /// up to the first that is cut short or has the top bit of its move
    /// code set.
    pub fn from_bytes(data: &[u8]) -> (book: Book)
        ensures
            book@ == book_of(data@),
    {
        let mut book = Book::new();
        let mut k: usize = 0;
        while data.len() - RECORD_LEN * k >= RECORD_LEN && data[RECORD_LEN * k + 8] < 0x80
            invariant
                RECORD_LEN * k <= data@.len(),
                book@ == book_upto(data@, k as int),
                records_from(data@, k as int) == records_from(data@, 0),
            decreases data@.len() - RECORD_LEN * k,
        {
            let at: usize = RECORD_LEN * k;
            let key: u64 = read_be64(data, at);
            let mv: u16 = read_be16(data, at + 8);
            let weight: u16 = read_be16(data, at + 10);
            book.list(key, BookEntry { mv, weight });
            k += 1;
        }
        book
    }

    /// The entries listed under `hash`, if any.
    pub fn entries(&self, hash: u64) -> (entries: Option<&Vec<BookEntry>>)
        ensures
            entries is Some <==> self@.contains_key(hash),
            entries matches Some(found) ==> found@ == self@[hash],
    {
        self.0.get(&hash)
    }

    /// The move that the book gives for the position with hash `hash`:
    /// that of the first entry of the greatest weight.
    pub fn lookup(&self, hash: u64) -> (mv: Option<Move>)
        ensures
            mv == known_move(self@, hash),
    {
        match self.entries(hash) {
            Some(entries) => choose_move(entries),
            None => None,
        }
    }
}

} // verus!
