use std::sync::atomic::AtomicBool;
use vendace::board::Board;
use vendace::board::Color;
use vendace::book::Book;
use vendace::book::BookEntry;
use vendace::book::Move;
use vendace::executor::answer;
use vendace::executor::execute;
use vendace::executor::execute_line;
use vendace::executor::go_budget;
use vendace::executor::position_command;
use vendace::executor::Action;
use vendace::executor::CommandError;
use vendace::fen::FENString;
use vendace::moves::player_moves;
use vendace::text::number;
use vendace::text::same_bytes;
use vendace::text::split;

fn tokens(line: &str) -> Vec<Vec<u8>> {
    line.split_whitespace().map(|t| t.as_bytes().to_vec()).collect()
}

fn board_of(text: &str) -> Board {
    Board::try_from(FENString::try_from(text).unwrap()).unwrap()
}

#[test]
fn splitting_keeps_empty_fields() {
    assert_eq!(split(b"a/b", b'/'), vec![b"a".to_vec(), b"b".to_vec()]);
    assert_eq!(split(b"", b'/'), vec![Vec::<u8>::new()]);
    assert_eq!(split(b"/", b'/'), vec![Vec::<u8>::new(), Vec::new()]);
    assert_eq!(split(b"ab//c/", b'/'), vec![b"ab".to_vec(), Vec::new(), b"c".to_vec(), Vec::new()]);
    assert!(same_bytes(b"fen", b"fen"));
    assert!(!same_bytes(b"fen", b"fe"));
    assert!(!same_bytes(b"fen", b"fem"));
    assert!(same_bytes(b"", b""));
}

#[test]
fn numbers_are_decimal_and_fit_64_bits() {
    assert_eq!(number(b"0"), Some(0));
    assert_eq!(number(b"8000"), Some(8000));
    assert_eq!(number(b"+17"), Some(17));
    assert_eq!(number(b"007"), Some(7));
    assert_eq!(number(b"18446744073709551615"), Some(u64::MAX));
    assert_eq!(number(b"18446744073709551616"), None);
    assert_eq!(number(b"99999999999999999999999"), None);
    assert_eq!(number(b""), None);
    assert_eq!(number(b"+"), None);
    assert_eq!(number(b"-1"), None);
    assert_eq!(number(b"12a"), None);
    assert_eq!(number(b"1 2"), None);
    assert_eq!(number(b"++1"), None);
}

#[test]
fn position_startpos_and_moves() {
    let start = Board::new();
    let after = position_command(&start, &tokens("position startpos moves e2e4 e7e5")).unwrap();
    assert_eq!(after, board_of("rnbqkbnr/pppp1ppp/8/4p3/4P3/8/PPPP1PPP/RNBQKBNR w AHah -"));
    let after = position_command(&after, &tokens("position startpos")).unwrap();
    assert_eq!(after, start);
    let after = position_command(&start, &tokens("position moves g1f3")).unwrap();
    assert_eq!(after.which_turn(), Color::Black);
    let same = position_command(&after, &tokens("position")).unwrap();
    assert_eq!(same, after);
    let same = position_command(&after, &tokens("position something else")).unwrap();
    assert_eq!(same, after);
}

#[test]
fn position_from_a_description() {
    let start = Board::new();
    let line = "position fen 4k3/8/8/8/8/8/4P3/4K3 b ---- - moves e8d8 e2e4";
    let after = position_command(&start, &tokens(line)).unwrap();
    assert_eq!(after, board_of("3k4/8/8/8/4P3/8/8/4K3 b ---- -"));
    let line = "position fen 4k3/8/8/8/8/8/4P3/4K3 b ---- - 0 1 moves e8d8";
    let after = position_command(&start, &tokens(line)).unwrap();
    assert_eq!(after, board_of("3k4/8/8/8/8/8/4P3/4K3 w ---- -"));
}

#[test]
fn malformed_position_commands_give_their_error() {
    let start = Board::new();
    let cases = [
        ("position startpos startpos", CommandError::MalformedPosition),
        ("position startpos fen 8/8/8/8/8/8/8/8 w ---- -", CommandError::MalformedPosition),
        ("position fen 8/8/8/8/8/8/8/8 w ---- - startpos", CommandError::MalformedPosition),
        ("position fen 8/8/8/8/8/8/8/8 w ----", CommandError::MalformedFen),
        ("position fen", CommandError::MalformedFen),
        ("position fen 8/8/8/8/8/8/8 w ---- -", CommandError::MalformedFen),
        ("position fen 8/8/8/8/8/8/8/8 w KQkq -", CommandError::MalformedFen),
        ("position fen 8/8/8/8/8/8/8/8 x ---- -", CommandError::MalformedFen),
        ("position startpos moves e2e5x", CommandError::InvalidMove),
        ("position startpos moves e2e4 zz", CommandError::InvalidMove),
        ("position startpos moves e3e4", CommandError::InvalidMove),
        ("position startpos moves e2e4 e4e5 e5e6 e3e4", CommandError::InvalidMove),
    ];
    for (line, error) in cases {
        assert_eq!(position_command(&start, &tokens(line)), Err(error));
    }
    assert_eq!(
        CommandError::MalformedPosition.message(),
        "Error: Malformed `position` command string."
    );
    assert_eq!(CommandError::MalformedFen.message(), "Error: Malformed fenstring.");
    assert_eq!(CommandError::InvalidMove.message(), "Invalid move in `position` command string.");
}

#[test]
fn go_reads_the_clock_of_the_side_to_move() {
    assert_eq!(go_budget(&tokens("go"), Color::White), 8000);
    assert_eq!(go_budget(&tokens("go wtime 300 btime 500"), Color::White), 300);
    assert_eq!(go_budget(&tokens("go wtime 300 btime 500"), Color::Black), 500);
    assert_eq!(go_budget(&tokens("go btime 500"), Color::White), 8000);
    assert_eq!(go_budget(&tokens("go wtime"), Color::White), 8000);
    assert_eq!(go_budget(&tokens("go wtime soon btime 5"), Color::White), 8000);
    assert_eq!(go_budget(&tokens("go wtime 10 wtime 20"), Color::White), 20);
    assert_eq!(go_budget(&tokens("go wtime 10 wtime x"), Color::White), 10);
    assert_eq!(go_budget(&tokens("go movetime 1 wtime 0"), Color::White), 0);
    assert_eq!(go_budget(&tokens("wtime 5"), Color::White), 8000);
}

#[test]
fn commands_change_the_board_or_ask_for_work() {
    let mut board = Board::new();
    assert_eq!(execute_line(&mut board, "debug_quality"), Action::Quality(0));
    assert_eq!(execute_line(&mut board, "position startpos moves e2e4"), Action::Nothing);
    assert_eq!(board.which_turn(), Color::Black);
    assert_eq!(execute_line(&mut board, "  debug_quality  "), Action::Quality(40));
    assert_eq!(execute_line(&mut board, "go wtime 1 btime 2"), Action::Search(2));
    assert_eq!(execute_line(&mut board, "go"), Action::Search(8000));
    let before = board;
    assert_eq!(
        execute_line(&mut board, "position startpos moves e2e4 e2e4"),
        Action::Problem(CommandError::InvalidMove)
    );
    assert_eq!(board, before);
    assert_eq!(
        execute_line(&mut board, "position fen nothing"),
        Action::Problem(CommandError::MalformedFen)
    );
    assert_eq!(board, before);
    assert_eq!(execute_line(&mut board, ""), Action::Unknown);
    assert_eq!(execute_line(&mut board, "stop"), Action::Unknown);
    assert_eq!(execute(&mut board, &tokens("go btime 77")), Action::Search(77));
    assert_eq!(board, before);
}

#[test]
fn the_book_answers_before_the_search() {
    let stop = AtomicBool::new(true);
    let board = Board::new();
    let mut book = Book::new();
    book.list(board.hash(), BookEntry { mv: 0x031C, weight: 1 });
    book.list(board.hash(), BookEntry { mv: 0x02DB, weight: 2 });
    book.list(board.hash(), BookEntry { mv: 0x0252, weight: 2 });
    assert_eq!(answer(&board, &book, &stop), Move::try_from("d2d4").ok());
    let empty = Book::new();
    let found = answer(&board, &empty, &stop).unwrap();
    assert!(player_moves(&Color::White, &board).contains(&found));
    let mate = board_of("7k/5KQ1/8/8/8/8/8/8 b ---- -");
    assert_eq!(answer(&mate, &empty, &stop), None);
    let mut odd = Book::new();
    odd.list(board.hash(), BookEntry { mv: 0x7000, weight: 1 });
    let found = answer(&board, &odd, &stop).unwrap();
    assert!(player_moves(&Color::White, &board).contains(&found));
}
