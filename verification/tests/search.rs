use std::sync::atomic::AtomicBool;
use std::sync::atomic::Ordering;
use vendace::board::Board;
use vendace::board::Color;
use vendace::book::Move;
use vendace::fen::FENString;
use vendace::moves::best_reply;
use vendace::moves::get_move;
use vendace::moves::minimax_multithreaded;
use vendace::moves::minimax_single_thread;
use vendace::moves::player_moves;
use vendace::moves::rate_reply;
use vendace::moves::Search;
use vendace::pick::pick_first_best;
use vendace::pick::pick_last_best;

fn board_of(text: &str) -> Board {
    Board::try_from(FENString::try_from(text).unwrap()).unwrap()
}

fn mv(text: &str) -> Move {
    Move::try_from(text).unwrap()
}

/// Plain minimax written out again, to hold the library against.
fn reference(board: &Board, turn: Color, depth: u8) -> i32 {
    if depth == 0 {
        return match turn {
            Color::White => board.eval(),
            Color::Black => -board.eval(),
        };
    }
    let mut best = i32::MIN;
    for m in player_moves(&turn, board) {
        let mut after = *board;
        after.apply_unchecked(&m);
        after.next_turn();
        let score = -reference(&after, turn.enemy(), depth - 1);
        if score > best {
            best = score;
        }
    }
    best
}

#[test]
fn picking_breaks_ties_by_side() {
    assert_eq!(pick_first_best(&vec![3]), 0);
    assert_eq!(pick_last_best(&vec![3]), 0);
    assert_eq!(pick_first_best(&vec![1, 5, 2, 5, 4]), 1);
    assert_eq!(pick_last_best(&vec![1, 5, 2, 5, 4]), 3);
    assert_eq!(pick_first_best(&vec![-3, -7, -3]), 0);
    assert_eq!(pick_last_best(&vec![-3, -7, -3]), 2);
    assert_eq!(pick_first_best(&vec![1, 2, 9]), 2);
    assert_eq!(pick_last_best(&vec![9, 2, 1]), 0);
}

#[test]
fn depth_zero_is_the_evaluation_for_the_mover() {
    let stop = AtomicBool::new(false);
    let mut board = Board::new();
    board.apply_unchecked(&mv("e2e4"));
    board.next_turn();
    assert_eq!(minimax_single_thread(&board, &Color::White, 0, Some(&stop)), Search::Done(None, 40));
    assert_eq!(minimax_single_thread(&board, &Color::Black, 0, Some(&stop)), Search::Done(None, -40));
    assert_eq!(minimax_multithreaded(&board, &Color::Black, 0, Some(&stop)), Search::Done(None, -40));
}

#[test]
fn depth_one_takes_the_first_of_the_best_replies() {
    let stop = AtomicBool::new(false);
    let board = Board::new();
    assert_eq!(
        minimax_single_thread(&board, &Color::White, 1, Some(&stop)),
        Search::Done(Some(mv("b1c3")), 50)
    );
    assert_eq!(best_reply(&board, &Color::White), mv("b1c3"));
    assert_eq!(
        minimax_single_thread(&board, &Color::Black, 1, Some(&stop)),
        Search::Done(Some(mv("b8c6")), 50)
    );
}

#[test]
fn depth_two_agrees_with_minimax_written_out() {
    let stop = AtomicBool::new(false);
    let board = Board::new();
    let expected = reference(&board, Color::White, 2);
    match minimax_single_thread(&board, &Color::White, 2, Some(&stop)) {
        Search::Done(Some(_), score) => assert_eq!(score, expected),
        other => panic!("{:?}", other),
    }
    match minimax_multithreaded(&board, &Color::White, 2, Some(&stop)) {
        Search::Done(Some(_), score) => assert_eq!(score, expected),
        other => panic!("{:?}", other),
    }
}

#[test]
fn parallel_search_agrees_with_plain_search_on_the_score() {
    let stop = AtomicBool::new(false);
    let board = board_of("4k3/4p3/8/8/8/8/3PP3/4K3 w ---- -");
    let expected = reference(&board, Color::White, 4);
    let plain = minimax_single_thread(&board, &Color::White, 4, Some(&stop));
    let parallel = minimax_multithreaded(&board, &Color::White, 4, Some(&stop));
    match (plain, parallel) {
        (Search::Done(Some(first), a), Search::Done(Some(last), b)) => {
            assert_eq!(a, expected);
            assert_eq!(b, expected);
            let moves = player_moves(&Color::White, &board);
            let mut scores: Vec<i32> = Vec::new();
            for m in moves.iter() {
                match rate_reply(&board, Color::White, m, 4, Some(&stop)) {
                    Search::Done(Some(rated), score) => {
                        assert_eq!(rated, *m);
                        scores.push(score);
                    }
                    other => panic!("{:?}", other),
                }
            }
            assert_eq!(first, moves[pick_first_best(&scores)]);
            assert_eq!(last, moves[pick_last_best(&scores)]);
        }
        other => panic!("{:?}", other),
    }
}

#[test]
fn a_search_without_a_signal_always_comes_through() {
    let board = Board::new();
    assert_eq!(
        minimax_single_thread(&board, &Color::White, 1, None),
        Search::Done(Some(mv("b1c3")), 50)
    );
    let expected = reference(&board, Color::White, 2);
    match minimax_multithreaded(&board, &Color::White, 2, None) {
        Search::Done(Some(_), score) => assert_eq!(score, expected),
        other => panic!("{:?}", other),
    }
    let small = board_of("4k3/4p3/8/8/8/8/3PP3/4K3 w ---- -");
    let expected = reference(&small, Color::White, 4);
    match minimax_multithreaded(&small, &Color::White, 4, None) {
        Search::Done(Some(_), score) => assert_eq!(score, expected),
        other => panic!("{:?}", other),
    }
}

#[test]
fn a_set_stop_signal_cancels_every_search() {
    let stop = AtomicBool::new(true);
    let board = Board::new();
    for depth in 0..6u8 {
        assert_eq!(minimax_single_thread(&board, &Color::White, depth, Some(&stop)), Search::Cancelled);
        assert_eq!(minimax_multithreaded(&board, &Color::White, depth, Some(&stop)), Search::Cancelled);
    }
    assert_eq!(rate_reply(&board, Color::White, &mv("e2e4"), 3, Some(&stop)), Search::Cancelled);
}

#[test]
fn a_search_without_time_still_answers_with_a_legal_move() {
    let stop = AtomicBool::new(true);
    let board = Board::new();
    let found = get_move(&board, &Color::White, &stop);
    assert!(player_moves(&Color::White, &board).contains(&found));
    assert_eq!(found, mv("b1c3"));
    assert!(stop.load(Ordering::SeqCst));
    let black = board_of("4k3/8/8/8/4r3/8/4R3/4K3 b ---- -");
    let found = get_move(&black, &Color::Black, &stop);
    assert!(player_moves(&Color::Black, &black).contains(&found));
}

#[test]
fn a_position_without_moves_in_reach_is_reported() {
    let stop = AtomicBool::new(false);
    let mate = board_of("7k/5KQ1/8/8/8/8/8/8 b ---- -");
    assert_eq!(minimax_single_thread(&mate, &Color::Black, 1, Some(&stop)), Search::NoMoves);
    assert_eq!(minimax_multithreaded(&mate, &Color::Black, 4, Some(&stop)), Search::NoMoves);
    assert_eq!(
        minimax_single_thread(&mate, &Color::Black, 0, Some(&stop)),
        Search::Done(None, mate.eval() * -1)
    );
    let before = board_of("7k/5K2/8/6Q1/8/8/8/8 w ---- -");
    assert_eq!(minimax_single_thread(&before, &Color::White, 2, Some(&stop)), Search::NoMoves);
    match minimax_single_thread(&before, &Color::White, 1, Some(&stop)) {
        Search::Done(Some(_), _) => {}
        other => panic!("{:?}", other),
    }
}

#[test]
fn search_stops_deepening_where_a_line_ends_and_keeps_its_last_choice() {
    let stop = AtomicBool::new(false);
    let before = board_of("7k/5K2/8/6Q1/8/8/8/8 w ---- -");
    let found = get_move(&before, &Color::White, &stop);
    assert_eq!(found, best_reply(&before, &Color::White));
    assert!(player_moves(&Color::White, &before).contains(&found));
}
