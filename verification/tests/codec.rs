use vendace::board::Field;
use vendace::board::KindOfPiece;
use vendace::book::Move;

#[test]
fn test_field() {
    assert_eq!(Field::try_from("a"), Err(()));
    assert_eq!(Field::try_from("a23"), Err(()));
    assert_eq!(Field::try_from("a2"), Ok(Field::build_unchecked(2, 1)));
    assert_eq!(Field::try_from("A2"), Ok(Field::build_unchecked(2, 1)));
    assert_eq!(Field::try_from("a0"), Err(()));
    assert_eq!(Field::try_from("a9"), Err(()));
    assert_eq!(Field::try_from("@2"), Err(()));
    assert_eq!(Field::try_from("{2"), Err(()));
}

#[test]
fn test_move() {
    assert_eq!(Move::try_from(0x8000u16), Err(()));
    assert_eq!(Move::try_from(0xF000u16), Err(()));
    assert_eq!(Move::try_from(0x7000u16), Err(()));

    let m = match Move::try_from(0x031Cu16) {
        Ok(m) => m,
        Err(_) => panic!(),
    };
    assert_eq!(m.from_file_number(), 5);
    assert_eq!(m.from_file(), 'e');
    assert_eq!(m.from_row(), 2);
    assert_eq!(m.to_file_number(), 5);
    assert_eq!(m.to_file(), 'e');
    assert_eq!(m.to_row(), 4);
    assert_eq!(m.promotion(), None);

    assert_eq!(Move::try_from(0x031Cu16), Move::try_from("e2e4"));
    assert_eq!(Move::try_from(0x4D3Cu16), Move::try_from("e7e8q"));
}

#[test]
fn field_build_accepts_the_board_only() {
    assert_eq!(Field::build(0, 1), None);
    assert_eq!(Field::build(1, 0), None);
    assert_eq!(Field::build(9, 8), None);
    assert_eq!(Field::build(8, 9), None);
    assert_eq!(Field::build(-1, -1), None);
    let field = Field::build(8, 1).unwrap();
    assert_eq!(field.get_row(), 8);
    assert_eq!(field.get_file(), 1);
    assert_eq!(Field::build(3, 7), Some(Field::build_unchecked(3, 7)));
}

#[test]
fn field_parse_reads_two_bytes() {
    assert_eq!(Field::parse(b"h8"), Some(Field::build_unchecked(8, 8)));
    assert_eq!(Field::parse(b"H1"), Some(Field::build_unchecked(1, 8)));
    assert_eq!(Field::parse(b""), None);
    assert_eq!(Field::parse(b"i1"), None);
    assert_eq!(Field::from_letters(b'c', b'6'), Some(Field::build_unchecked(6, 3)));
    assert_eq!(Field::from_letters(b'c', b'0'), None);
}

#[test]
fn build_rejects_pawn_and_king_promotions() {
    let from = Field::build_unchecked(7, 5);
    let to = Field::build_unchecked(8, 5);
    assert_eq!(Move::build(from, to, Some(KindOfPiece::Pawn)), Err(()));
    assert_eq!(Move::build(from, to, Some(KindOfPiece::King)), Err(()));
    assert!(Move::build(from, to, None).is_ok());
    assert!(Move::build(from, to, Some(KindOfPiece::Rook)).is_ok());
}

#[test]
fn decode_of_encode_is_identity_for_every_move() {
    let promotions = [
        None,
        Some(KindOfPiece::Knight),
        Some(KindOfPiece::Bishop),
        Some(KindOfPiece::Rook),
        Some(KindOfPiece::Queen),
    ];
    for from_row in 1..=8u8 {
        for from_file in 1..=8u8 {
            for to_row in 1..=8u8 {
                for to_file in 1..=8u8 {
                    for promotion in promotions {
                        let from = Field::build_unchecked(from_row, from_file);
                        let to = Field::build_unchecked(to_row, to_file);
                        let m = Move::build(from, to, promotion).unwrap();
                        assert_eq!(m.from_field(), from);
                        assert_eq!(m.to_field(), to);
                        assert_eq!(m.promotion(), promotion);
                        assert_eq!(m.from_row(), from_row);
                        assert_eq!(m.from_file_number(), from_file);
                        assert_eq!(m.to_row(), to_row);
                        assert_eq!(m.to_file_number(), to_file);
                    }
                }
            }
        }
    }
}

#[test]
fn every_valid_code_is_taken_and_rebuilt() {
    for code in 0..=0xffffu16 {
        let valid = code < 0x8000 && (code >> 12) <= 4;
        match Move::try_from(code) {
            Ok(m) => {
                assert!(valid);
                assert_eq!(Move::build(m.from_field(), m.to_field(), m.promotion()), Ok(m));
            }
            Err(()) => assert!(!valid),
        }
    }
}

#[test]
fn text_of_a_move_reads_back() {
    for code in 0..0x5000u16 {
        let m = Move::try_from(code).unwrap();
        let text = m.to_text();
        assert_eq!(Move::try_from(text.as_str()), Ok(m));
    }
}

#[test]
fn move_text_is_rendered_as_read() {
    for text in ["e2e4", "e7e8q", "a1h8", "h7h8n", "b2b1r", "g2g1b", "d5d6"] {
        let m = Move::try_from(text).unwrap();
        assert_eq!(m.to_text(), text);
    }
    let upper = Move::try_from("E2E4").unwrap();
    assert_eq!(upper.to_text(), "e2e4");
}

#[test]
fn malformed_move_text_is_rejected() {
    for text in ["", "e2", "e2e", "e2e4qq", "e2e4k", "e2e4p", "e2e4Q", "e9e4", "i2e4", "e2 e4", "e2e4 "] {
        assert_eq!(Move::try_from(text), Err(()));
    }
    assert_eq!(Move::try_from("\u{e9}2e4"), Err(()));
    assert_eq!(Move::parse(b"e2e4"), Move::try_from(0x031Cu16).ok());
}

#[test]
fn kind_letters() {
    assert_eq!(KindOfPiece::Pawn.letter(), 'p');
    assert_eq!(KindOfPiece::Knight.letter(), 'n');
    assert_eq!(KindOfPiece::Bishop.letter(), 'b');
    assert_eq!(KindOfPiece::Rook.letter(), 'r');
    assert_eq!(KindOfPiece::Queen.letter(), 'q');
    assert_eq!(KindOfPiece::King.letter(), 'k');
}
