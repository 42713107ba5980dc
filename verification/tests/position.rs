use vendace::board::field_code;
use vendace::board::field_hash;
use vendace::board::Board;
use vendace::board::Castle;
use vendace::board::Color;
use vendace::board::Field;
use vendace::board::KindOfPiece;
use vendace::board::Piece;
use vendace::book::Move;
use vendace::fen::FENString;
use vendace::tables::piece_value;
use vendace::zobrist::key;

fn board_of(text: &str) -> Board {
    Board::try_from(FENString::try_from(text).unwrap()).unwrap()
}

fn mv(text: &str) -> Move {
    Move::try_from(text).unwrap()
}

fn at(board: &Board, name: &str) -> Option<Piece> {
    *board.field_content(&Field::try_from(name).unwrap())
}

fn piece(kind_of_piece: KindOfPiece, color: Color) -> Option<Piece> {
    Some(Piece { kind_of_piece, color })
}

#[test]
fn test_fenstring() {
    let f = match FENString::try_from("rnbqkbnr/pppppppp/8/8/8/8/PPPPPPPP/RNBQKBNR w AHah -") {
        Ok(f) => f,
        Err(()) => panic!(),
    };

    let board = match Board::try_from(f) {
        Ok(board) => board,
        Err(()) => panic!(),
    };

    assert_eq!(board, Board::new());
}

#[test]
fn test_piece_value_1() {
    let board = Board::new();
    let mut sum: i32 = 0;

    for i in 1..=8 {
        for j in 1..=8 {
            let field = Field::build_unchecked(i, j);
            let value = match board.field_content(&field) {
                Some(piece) => piece_value(&field, &piece, true),
                None => 0,
            };

            sum += value;
        }
    }

    assert_eq!(sum, 0i32);
}

#[test]
fn test_piece_value_2() {
    let mut board = Board::new();
    board.apply_unchecked(&Move::try_from("e2e4").unwrap());
    let mut sum: i32 = 0;

    for i in 1..=8 {
        for j in 1..=8 {
            let field = Field::build_unchecked(i, j);
            let value = match board.field_content(&field) {
                Some(piece) => piece_value(&field, &piece, true),
                None => 0,
            };

            sum += value;
        }
    }

    assert_eq!(sum, 40i32);
}

#[test]
fn start_position() {
    let board = Board::new();
    assert_eq!(board.which_turn(), Color::White);
    assert!(board.can_castle(Color::White, Castle::Short));
    assert!(board.can_castle(Color::White, Castle::Long));
    assert!(board.can_castle(Color::Black, Castle::Short));
    assert!(board.can_castle(Color::Black, Castle::Long));
    for file in 1..=8u8 {
        assert!(!board.can_en_passant(file));
    }
    assert_eq!(at(&board, "a1"), piece(KindOfPiece::Rook, Color::White));
    assert_eq!(at(&board, "d1"), piece(KindOfPiece::Queen, Color::White));
    assert_eq!(at(&board, "e1"), piece(KindOfPiece::King, Color::White));
    assert_eq!(at(&board, "g1"), piece(KindOfPiece::Knight, Color::White));
    assert_eq!(at(&board, "c8"), piece(KindOfPiece::Bishop, Color::Black));
    assert_eq!(at(&board, "e8"), piece(KindOfPiece::King, Color::Black));
    assert_eq!(at(&board, "h7"), piece(KindOfPiece::Pawn, Color::Black));
    assert_eq!(at(&board, "b2"), piece(KindOfPiece::Pawn, Color::White));
    assert_eq!(at(&board, "e4"), None);
}

#[test]
fn evaluation_of_start_is_zero_and_rises_by_forty_after_e2e4() {
    let mut board = Board::new();
    assert_eq!(board.eval(), 0);
    board.apply_unchecked(&mv("e2e4"));
    assert_eq!(board.eval(), 40);
}

#[test]
fn piece_values_are_material_plus_square_bonus() {
    let white_pawn = Piece { kind_of_piece: KindOfPiece::Pawn, color: Color::White };
    let black_knight = Piece { kind_of_piece: KindOfPiece::Knight, color: Color::Black };
    let white_king = Piece { kind_of_piece: KindOfPiece::King, color: Color::White };
    let black_queen = Piece { kind_of_piece: KindOfPiece::Queen, color: Color::Black };
    let e4 = Field::try_from("e4").unwrap();
    let e2 = Field::try_from("e2").unwrap();
    let b8 = Field::try_from("b8").unwrap();
    let e1 = Field::try_from("e1").unwrap();
    let d8 = Field::try_from("d8").unwrap();
    assert_eq!(piece_value(&e4, &white_pawn, true), 120);
    assert_eq!(piece_value(&e2, &white_pawn, true), 80);
    assert_eq!(piece_value(&b8, &black_knight, true), -280);
    assert_eq!(piece_value(&e1, &white_king, true), 20000);
    assert_eq!(piece_value(&e1, &white_king, false), 19970);
    assert_eq!(piece_value(&d8, &black_queen, false), -895);
}

#[test]
fn piece_codes() {
    let kinds = [
        KindOfPiece::Pawn,
        KindOfPiece::Knight,
        KindOfPiece::Bishop,
        KindOfPiece::Rook,
        KindOfPiece::Queen,
        KindOfPiece::King,
    ];
    for (i, kind) in kinds.into_iter().enumerate() {
        let black = Piece { kind_of_piece: kind, color: Color::Black };
        let white = Piece { kind_of_piece: kind, color: Color::White };
        assert_eq!(black.code() as usize, 2 * i);
        assert_eq!(white.code() as usize, 2 * i + 1);
    }
    assert_eq!(Color::White.enemy(), Color::Black);
    assert_eq!(Color::Black.enemy(), Color::White);
}

#[test]
fn field_code_and_hash() {
    let white_pawn = Piece { kind_of_piece: KindOfPiece::Pawn, color: Color::White };
    let black_king = Piece { kind_of_piece: KindOfPiece::King, color: Color::Black };
    let e2 = Field::try_from("e2").unwrap();
    let h8 = Field::try_from("h8").unwrap();
    assert_eq!(field_code(&white_pawn, &e2), 85);
    assert_eq!(field_code(&black_king, &h8), 712);
    assert_eq!(field_hash(&white_pawn, &e2), key(85));
    assert_eq!(field_hash(&black_king, &h8), key(712));
}

#[test]
fn keys_are_fixed() {
    assert_eq!(key(0), 0xe220a8397b1dcdaf);
    assert_eq!(key(1), 0x6e789e6aa1b965f4);
    assert_eq!(key(767), 0x862caf81e41a1a19);
    assert_eq!(key(768), 0x1c787a8631a3cc4c);
    assert_eq!(key(780), 0xcc5d77cdfdf2f139);
}

#[test]
fn hash_of_a_lone_piece_is_its_key() {
    let board = board_of("8/8/8/8/8/8/8/K7 b ---- -");
    assert_eq!(board.hash(), key(64 * 11));
    let board = board_of("7k/8/8/8/8/8/8/8 b ---- -");
    assert_eq!(board.hash(), key(64 * 10 + 63));
    let board = board_of("7k/8/8/8/8/8/8/8 w -H-- -");
    assert_eq!(board.hash(), key(64 * 10 + 63) ^ key(769) ^ key(780));
    let board = board_of("7k/8/8/8/8/8/8/8 b ---- c6");
    assert_eq!(board.hash(), key(64 * 10 + 63) ^ key(774));
}

#[test]
fn equal_positions_hash_equally_whatever_built_them() {
    let built = Board::new();
    let parsed = board_of("rnbqkbnr/pppppppp/8/8/8/8/PPPPPPPP/RNBQKBNR w AHah -");
    assert_eq!(built.hash(), parsed.hash());

    let mut played = Board::new();
    played.apply_unchecked(&mv("g1f3"));
    played.next_turn();
    played.apply_unchecked(&mv("g8f6"));
    played.next_turn();
    let parsed = board_of("rnbqkb1r/pppppppp/5n2/8/8/5N2/PPPPPPPP/RNBQKB1R w AHah -");
    assert_eq!(played, parsed);
    assert_eq!(played.hash(), parsed.hash());
}

#[test]
fn passing_the_turn_changes_the_hash_by_the_turn_key() {
    for text in [
        "rnbqkbnr/pppppppp/8/8/8/8/PPPPPPPP/RNBQKBNR w AHah -",
        "r3k2r/8/8/3pP3/8/8/8/R3K2R b A--h d6",
    ] {
        let board = board_of(text);
        let mut passed = board;
        passed.next_turn();
        assert_eq!(passed.hash(), board.hash() ^ key(780));
        assert_ne!(passed.which_turn(), board.which_turn());
        passed.next_turn();
        assert_eq!(passed, board);
    }
}

#[test]
fn apply_moves_the_piece_and_leaves_the_turn() {
    let mut board = Board::new();
    board.apply_unchecked(&mv("e2e4"));
    assert_eq!(at(&board, "e2"), None);
    assert_eq!(at(&board, "e4"), piece(KindOfPiece::Pawn, Color::White));
    assert_eq!(board.which_turn(), Color::White);
    assert!(board.can_castle(Color::White, Castle::Short));
    for file in 1..=8u8 {
        assert!(!board.can_en_passant(file));
    }
}

#[test]
fn apply_promotes_in_the_movers_color() {
    let mut board = board_of("8/4P3/8/8/8/8/3p4/K6k w ---- -");
    board.apply_unchecked(&mv("e7e8q"));
    assert_eq!(at(&board, "e8"), piece(KindOfPiece::Queen, Color::White));
    assert_eq!(at(&board, "e7"), None);
    board.apply_unchecked(&mv("d2d1n"));
    assert_eq!(at(&board, "d1"), piece(KindOfPiece::Knight, Color::Black));
}

#[test]
fn short_castling_relocates_king_and_rook_and_clears_both_rights() {
    let mut board = board_of("r3k2r/8/8/8/8/8/8/R3K2R w AHah -");
    board.apply_unchecked(&mv("e1g1"));
    assert_eq!(at(&board, "g1"), piece(KindOfPiece::King, Color::White));
    assert_eq!(at(&board, "f1"), piece(KindOfPiece::Rook, Color::White));
    assert_eq!(at(&board, "e1"), None);
    assert_eq!(at(&board, "h1"), None);
    assert_eq!(at(&board, "a1"), piece(KindOfPiece::Rook, Color::White));
    assert!(!board.can_castle(Color::White, Castle::Short));
    assert!(!board.can_castle(Color::White, Castle::Long));
    assert!(board.can_castle(Color::Black, Castle::Short));
    assert!(board.can_castle(Color::Black, Castle::Long));
    board.apply_unchecked(&mv("g1g2"));
    assert!(!board.can_castle(Color::White, Castle::Short));
    assert!(!board.can_castle(Color::White, Castle::Long));
    board.apply_unchecked(&mv("a8a7"));
    assert!(!board.can_castle(Color::White, Castle::Short));
    assert!(board.can_castle(Color::Black, Castle::Long));
}

#[test]
fn long_castling_of_black() {
    let mut board = board_of("r3k2r/8/8/8/8/8/8/R3K2R b AHah -");
    board.apply_unchecked(&mv("e8c8"));
    assert_eq!(at(&board, "c8"), piece(KindOfPiece::King, Color::Black));
    assert_eq!(at(&board, "d8"), piece(KindOfPiece::Rook, Color::Black));
    assert_eq!(at(&board, "e8"), None);
    assert_eq!(at(&board, "a8"), None);
    assert_eq!(at(&board, "h8"), piece(KindOfPiece::Rook, Color::Black));
    assert!(!board.can_castle(Color::Black, Castle::Short));
    assert!(!board.can_castle(Color::Black, Castle::Long));
    assert!(board.can_castle(Color::White, Castle::Short));
}

#[test]
fn a_plain_king_move_clears_both_rights() {
    let mut board = board_of("r3k2r/8/8/8/8/8/8/R3K2R w AHah -");
    board.apply_unchecked(&mv("e1e2"));
    assert_eq!(at(&board, "h1"), piece(KindOfPiece::Rook, Color::White));
    assert!(!board.can_castle(Color::White, Castle::Short));
    assert!(!board.can_castle(Color::White, Castle::Long));
}

#[test]
fn double_advance_flags_the_file_only_beside_an_enemy_pawn() {
    let mut board = board_of("rnbqkbnr/ppp1pppp/8/8/3p4/8/PPPPPPPP/RNBQKBNR w AHah -");
    board.apply_unchecked(&mv("e2e4"));
    for file in 1..=8u8 {
        assert_eq!(board.can_en_passant(file), file == 5);
    }
    board.apply_unchecked(&mv("g8f6"));
    for file in 1..=8u8 {
        assert!(!board.can_en_passant(file));
    }

    let mut board = board_of("rnbqkbnr/ppp1pppp/8/8/3p4/8/PPPPPPPP/RNBQKBNR w AHah -");
    board.apply_unchecked(&mv("a2a4"));
    for file in 1..=8u8 {
        assert!(!board.can_en_passant(file));
    }

    let mut board = board_of("rnbqkbnr/pppppppp/8/6P1/8/8/PPPPPP1P/RNBQKBNR b AHah -");
    board.apply_unchecked(&mv("h7h5"));
    for file in 1..=8u8 {
        assert_eq!(board.can_en_passant(file), file == 8);
    }
    let mut board = board_of("rnbqkbnr/pppppppp/8/6P1/8/8/PPPPPP1P/RNBQKBNR b AHah -");
    board.apply_unchecked(&mv("h7h6"));
    assert!(!board.can_en_passant(8));
}

#[test]
fn capture_in_passing_removes_the_pawn_behind() {
    let mut board = board_of("rnbqkbnr/ppp1pppp/8/3pP3/8/8/PPPP1PPP/RNBQKBNR w AHah d6");
    assert!(board.can_en_passant(4));
    board.apply_unchecked(&mv("e5d6"));
    assert_eq!(at(&board, "d6"), piece(KindOfPiece::Pawn, Color::White));
    assert_eq!(at(&board, "d5"), None);
    assert_eq!(at(&board, "e5"), None);
    assert!(!board.can_en_passant(4));

    let mut board = board_of("rnbqkbnr/pppp1ppp/8/8/3Pp3/8/PPP1PPPP/RNBQKBNR b AHah d3");
    board.apply_unchecked(&mv("e4d3"));
    assert_eq!(at(&board, "d3"), piece(KindOfPiece::Pawn, Color::Black));
    assert_eq!(at(&board, "d4"), None);

    let mut board = board_of("rnbqkbnr/ppp1pppp/8/3pP3/8/8/PPPP1PPP/RNBQKBNR w AHah -");
    board.apply_unchecked(&mv("e5d6"));
    assert_eq!(at(&board, "d5"), piece(KindOfPiece::Pawn, Color::Black));
}

#[test]
fn description_fields() {
    let board = board_of("4k3/8/8/8/8/8/8/4K3 b -H-h e3a6 0 1");
    assert_eq!(board.which_turn(), Color::Black);
    assert!(!board.can_castle(Color::White, Castle::Short));
    assert!(board.can_castle(Color::White, Castle::Long));
    assert!(!board.can_castle(Color::Black, Castle::Short));
    assert!(board.can_castle(Color::Black, Castle::Long));
    for file in 1..=8u8 {
        assert_eq!(board.can_en_passant(file), file == 5 || file == 1);
    }
    assert_eq!(at(&board, "e8"), piece(KindOfPiece::King, Color::Black));
    assert_eq!(at(&board, "e1"), piece(KindOfPiece::King, Color::White));
    let spaced = board_of("  4k3/8/8/8/8/8/8/4K3 \t b   -H-h  e3a6  ");
    assert_eq!(spaced, board);
}

#[test]
fn malformed_descriptions_are_rejected() {
    let cut = [
        "",
        "8/8/8/8/8/8/8/8 w ----",
        "8/8/8/8/8/8/8/8 w ---- - 0 1 x",
        "8/8/8/8/8/8/8 w ---- -",
        "8/8/8/8/8/8/8/8/8 w ---- -",
        "8/8/8/8/8/8/8/8 ww ---- -",
        "8/8/8/8/8/8/8/8 w --- -",
        "8/8/8/8/8/8/8/8 w ----- -",
    ];
    for text in cut {
        assert!(FENString::try_from(text).is_err());
    }
    let wrong = [
        "8/8/8/8/8/8/8/7 w ---- -",
        "8/8/8/8/8/8/8/9 w ---- -",
        "8/8/8/8/8/8/8/88 w ---- -",
        "8/8/8/8/8/8/8/ppppppppp w ---- -",
        "8/8/8/8/8/8/8/4x3 w ---- -",
        "8/8/8/8/8/8/8/8 x ---- -",
        "8/8/8/8/8/8/8/8 w KQkq -",
        "8/8/8/8/8/8/8/8 w ---- e4",
        "8/8/8/8/8/8/8/8 w ---- e",
        "8/8/8/8/8/8/8/8 w ---- e3e",
        "8/8/8/8/8/8/8/8 w ---- --",
    ];
    for text in wrong {
        let fen = FENString::try_from(text).unwrap();
        assert_eq!(Board::try_from(fen), Err(()));
    }
}

#[test]
fn board_picture() {
    let text = Board::new().to_text();
    let expected = "wrwnwbwqwkwbwnwr\nwpwpwpwpwpwpwpwp\n                \n                \n                \n                \nbpbpbpbpbpbpbpbp\nbrbnbbbqbkbbbnbr\n";
    assert_eq!(text, expected);
}
