use vendace::board::Board;
use vendace::board::Color;
use vendace::board::Field;
use vendace::book::Move;
use vendace::fen::FENString;
use vendace::moves::is_check;
use vendace::moves::player_moves;
use vendace::moves::possible_moves;
use vendace::moves::possible_moves_unchecked;

fn board_of(text: &str) -> Board {
    Board::try_from(FENString::try_from(text).unwrap()).unwrap()
}

fn mv(text: &str) -> Move {
    Move::try_from(text).unwrap()
}

fn field(name: &str) -> Field {
    Field::try_from(name).unwrap()
}

fn targets(board: &Board, from: &str) -> Vec<String> {
    possible_moves_unchecked(&field(from), board)
        .iter()
        .map(|to| Move::build(field(from), *to, None).unwrap().to_text()[2..].to_string())
        .collect()
}

fn texts(moves: &[Move]) -> Vec<String> {
    moves.iter().map(|m| m.to_text()).collect()
}

#[test]
fn white_has_twenty_moves_at_the_start() {
    let board = Board::new();
    let moves = player_moves(&Color::White, &board);
    assert_eq!(moves.len(), 20);
    let expected = [
        "b1c3", "b1a3", "g1h3", "g1f3", "a2a3", "a2a4", "b2b3", "b2b4", "c2c3", "c2c4", "d2d3",
        "d2d4", "e2e3", "e2e4", "f2f3", "f2f4", "g2g3", "g2g4", "h2h3", "h2h4",
    ];
    assert_eq!(texts(&moves), expected);
    assert_eq!(player_moves(&Color::Black, &board).len(), 20);
}

#[test]
fn no_legal_move_leaves_the_own_king_in_check() {
    let positions = [
        "rnbqkbnr/pppppppp/8/8/8/8/PPPPPPPP/RNBQKBNR w AHah -",
        "r3k2r/pppq1ppp/2n2n2/2b1p3/2B1P1b1/2NP1N2/PPP2PPP/R1BQK2R w AHah -",
        "4k3/8/8/8/4r3/8/4R3/4K3 w ---- -",
        "4k3/8/8/1b6/8/8/4P3/5K2 w ---- -",
        "8/8/8/3pP3/8/8/8/K6k w ---- d6",
    ];
    for text in positions {
        let board = board_of(text);
        for color in [Color::White, Color::Black] {
            for m in player_moves(&color, &board) {
                let piece = board.field_content(&m.from_field()).unwrap();
                assert_eq!(piece.color, color);
                assert!(possible_moves_unchecked(&m.from_field(), &board).contains(&m.to_field()));
                let mut after = board;
                after.apply_unchecked(&m);
                assert!(!is_check(&after, &color));
            }
        }
    }
}

#[test]
fn a_pinned_rook_stays_on_the_file() {
    let board = board_of("4k3/8/8/8/4r3/8/4R3/4K3 w ---- -");
    let moves = possible_moves(&field("e2"), &board);
    assert_eq!(texts(&moves), ["e2e3", "e2e4"]);
    assert!(!is_check(&board, &Color::White));
}

#[test]
fn check_is_seen() {
    let board = board_of("4k3/8/8/8/4r3/8/8/4K3 w ---- -");
    assert!(is_check(&board, &Color::White));
    assert!(!is_check(&board, &Color::Black));
    let moves = player_moves(&Color::White, &board);
    assert_eq!(texts(&moves), ["e1d1", "e1f1", "e1d2", "e1f2"]);
    let knight = board_of("4k3/8/8/8/8/3n4/8/4K3 w ---- -");
    assert!(is_check(&knight, &Color::White));
    let pawn = board_of("4k3/8/8/8/8/8/3p4/4K3 w ---- -");
    assert!(is_check(&pawn, &Color::White));
    let none = board_of("4k3/8/8/8/8/8/4p3/4K3 w ---- -");
    assert!(!is_check(&none, &Color::White));
}

#[test]
fn king_steps() {
    let board = board_of("8/8/8/8/3K4/8/8/k7 w ---- -");
    assert_eq!(targets(&board, "d4"), ["c3", "d3", "e3", "c4", "e4", "c5", "d5", "e5"]);
    assert_eq!(targets(&board, "a1"), ["b1", "a2", "b2"]);
    let crowded = board_of("8/8/8/2pP4/3K4/3Pp3/8/k7 w ---- -");
    assert_eq!(targets(&crowded, "d4"), ["c3", "e3", "c4", "e4", "c5", "e5"]);
    let corner = board_of("7K/8/8/8/8/8/8/k7 w ---- -");
    assert_eq!(targets(&corner, "h8"), ["g7", "h7", "g8"]);
}

#[test]
fn knight_jumps() {
    let board = board_of("8/8/8/8/3N4/8/8/k6K w ---- -");
    assert_eq!(targets(&board, "d4"), ["b3", "c2", "e2", "f3", "f5", "e6", "c6", "b5"]);
    let corner = board_of("8/8/8/8/8/1P6/8/N6k w ---- -");
    assert_eq!(targets(&corner, "a1"), ["c2"]);
}

#[test]
fn sliding_pieces_stop_at_pieces() {
    let board = board_of("8/8/3p4/8/1P1R4/8/8/k6K w ---- -");
    assert_eq!(targets(&board, "d4"), ["d5", "d6", "d3", "d2", "d1", "e4", "f4", "g4", "h4", "c4"]);
    let bishop = board_of("8/8/8/8/3B4/2P5/8/k6K w ---- -");
    assert_eq!(
        targets(&bishop, "d4"),
        ["e5", "f6", "g7", "h8", "e3", "f2", "g1", "c5", "b6", "a7"]
    );
    let queen = board_of("8/8/8/2ppp3/2pQp3/2ppp3/8/k6K w ---- -");
    assert_eq!(targets(&queen, "d4"), ["d5", "e5", "c5", "e4", "c4", "d3", "e3", "c3"]);
    let hemmed = board_of("8/8/8/2PPP3/2PQP3/2PPP3/8/k6K w ---- -");
    assert_eq!(targets(&hemmed, "d4").len(), 0);
}

#[test]
fn pawn_moves() {
    let board = Board::new();
    assert_eq!(targets(&board, "e2"), ["e3", "e4"]);
    assert_eq!(targets(&board, "e7"), ["e6", "e5"]);
    let blocked = board_of("4k3/8/8/8/8/4p3/4P3/4K3 w ---- -");
    assert_eq!(targets(&blocked, "e2").len(), 0);
    let half = board_of("4k3/8/8/8/4p3/8/4P3/4K3 w ---- -");
    assert_eq!(targets(&half, "e2"), ["e3"]);
    let captures = board_of("4k3/8/8/8/8/3p1p2/4P3/4K3 w ---- -");
    assert_eq!(targets(&captures, "e2"), ["e3", "e4", "d3", "f3"]);
    let own = board_of("4k3/8/8/8/8/3P1P2/4P3/4K3 w ---- -");
    assert_eq!(targets(&own, "e2"), ["e3", "e4"]);
    let moved = board_of("4k3/8/8/8/8/4P3/8/4K3 w ---- -");
    assert_eq!(targets(&moved, "e3"), ["e4"]);
    assert_eq!(targets(&board, "e4").len(), 0);
}

#[test]
fn pawn_captures_in_passing_go_diagonally() {
    let board = board_of("4k3/8/8/3pP3/8/8/8/4K3 w ---- d6");
    assert_eq!(targets(&board, "e5"), ["e6", "d6"]);
    let unflagged = board_of("4k3/8/8/3pP3/8/8/8/4K3 w ---- -");
    assert_eq!(targets(&unflagged, "e5"), ["e6"]);
    let other_row = board_of("4k3/8/8/8/3pP3/8/8/4K3 w ---- d6");
    assert_eq!(targets(&other_row, "e4"), ["e5"]);
    let right = board_of("4k3/8/8/4Pp2/8/8/8/4K3 w ---- f6");
    assert_eq!(targets(&right, "e5"), ["e6", "f6"]);
    let black = board_of("4k3/8/8/8/3Pp3/8/8/4K3 b ---- d3");
    assert_eq!(targets(&black, "e4"), ["e3", "d3"]);
    let moves = possible_moves(&field("e5"), &board);
    assert_eq!(texts(&moves), ["e5e6", "e5d6"]);
}

#[test]
fn pawns_promote_to_queen_and_knight() {
    let board = board_of("3r3k/4P3/8/8/8/8/8/K7 w ---- -");
    let moves = possible_moves(&field("e7"), &board);
    assert_eq!(texts(&moves), ["e7e8q", "e7e8n", "e7d8q", "e7d8n"]);
    let black = board_of("7k/8/8/8/8/8/4p3/K7 b ---- -");
    let moves = possible_moves(&field("e2"), &black);
    assert_eq!(texts(&moves), ["e2e1q", "e2e1n"]);
}

#[test]
fn nothing_moves_from_an_empty_square() {
    let board = Board::new();
    assert_eq!(possible_moves_unchecked(&field("e4"), &board).len(), 0);
    assert_eq!(possible_moves(&field("e4"), &board).len(), 0);
    assert_eq!(mv("e2e4").from_field(), field("e2"));
}

#[test]
fn mate_and_stalemate_leave_no_moves() {
    let mate = board_of("7k/5KQ1/8/8/8/8/8/8 b ---- -");
    assert!(is_check(&mate, &Color::Black));
    assert_eq!(player_moves(&Color::Black, &mate).len(), 0);
    let stalemate = board_of("7k/5K2/6Q1/8/8/8/8/8 b ---- -");
    assert!(!is_check(&stalemate, &Color::Black));
    assert_eq!(player_moves(&Color::Black, &stalemate).len(), 0);
}
