//! What the engine does with a command: the decisions of the command
//! loop, free of input and output.

use vstd::prelude::*;
use vstd::slice::slice_to_vec;
use std::sync::atomic::AtomicBool;
use crate::board::Board;
use crate::board::Color;
use crate::board::Position;
use crate::book::Book;
use crate::book::Move;
use crate::book::known_move;
use crate::fen::FENString;
use crate::fen::fields_of;
use crate::fen::position_of;
use crate::moves::child;
use crate::moves::get_move;
use crate::moves::is_legal;
use crate::moves::legal_moves_for;
use crate::moves::parallel_choice;
use crate::moves::searchable;
use crate::moves::DEPTH_CEILING;
use crate::moves::player_moves;
use crate::text::number;
use crate::text::same_bytes;
use crate::text::spec_number;
use crate::text::split_whitespace;
use crate::text::views;
use crate::text::whitespace_tokens;

verus! {

/// The word `debug_quality`.
pub const WORD_QUALITY: [u8; 13] = [
    0x64, 0x65, 0x62, 0x75, 0x67, 0x5f, 0x71, 0x75, 0x61, 0x6c, 0x69, 0x74, 0x79,
];

/// The word `position`.
pub const WORD_POSITION: [u8; 8] = [0x70, 0x6f, 0x73, 0x69, 0x74, 0x69, 0x6f, 0x6e];

/// The word `go`.
pub const WORD_GO: [u8; 2] = [0x67, 0x6f];

/// The word `fen`.
pub const WORD_FEN: [u8; 3] = [0x66, 0x65, 0x6e];

/// The word `startpos`.
pub const WORD_STARTPOS: [u8; 8] = [0x73, 0x74, 0x61, 0x72, 0x74, 0x70, 0x6f, 0x73];

/// The word `moves`.
pub const WORD_MOVES: [u8; 5] = [0x6d, 0x6f, 0x76, 0x65, 0x73];

/// The word `wtime`.
pub const WORD_WTIME: [u8; 5] = [0x77, 0x74, 0x69, 0x6d, 0x65];

/// The word `btime`.
pub const WORD_BTIME: [u8; 5] = [0x62, 0x74, 0x69, 0x6d, 0x65];

/// The time for a search, in milliseconds, where the command gives none.
pub const DEFAULT_BUDGET: u64 = 8000;

/// What is wrong with a `position` command.
#[derive(Copy, Clone, PartialEq, Eq, Debug, Structural)]
pub enum CommandError {
    /// A second position is given, after `fen` or `startpos`.
    MalformedPosition,
    /// The position description is cut short or malformed.
    MalformedFen,
    /// A move is malformed or starts from an empty square.
    InvalidMove,
}

impl CommandError {
    /// The diagnostic to show.
    pub fn message(&self) -> (text: &'static str)
        ensures
            text@ == match self {
                CommandError::MalformedPosition => "Error: Malformed `position` command string."@,
                CommandError::MalformedFen => "Error: Malformed fenstring."@,
                CommandError::InvalidMove => "Invalid move in `position` command string."@,
            },
    {
        match self {
            CommandError::MalformedPosition => "Error: Malformed `position` command string.",
            CommandError::MalformedFen => "Error: Malformed fenstring.",
            CommandError::InvalidMove => "Invalid move in `position` command string.",
        }
    }
}

/// The position after the moves from the `i`-th token on are played in
/// turn, each followed by a change of turn. A token that is no move, or
/// a move from an empty square, is an error.
pub open spec fn replay(tokens: Seq<Seq<u8>>, i: int, p: Position) -> Result<
    Position,
    CommandError,
>
    decreases tokens.len() - i,
{
    if i < 0 || i >= tokens.len() {
        Ok(p)
    } else {
        match Move::spec_parse(tokens[i]) {
            None => Err(CommandError::InvalidMove),
            Some(m) => if p.piece_at(m.spec_from_field()) is None {
                Err(CommandError::InvalidMove)
            } else {
                replay(tokens, i + 1, child(p, m))
            },
        }
    }
}

/// The position that a `position` command sets up, read from its
/// `i`-th token on, where `p` is the position so far and `placed` says
/// whether the command has given a position already. `startpos` gives
/// the starting position; `fen` gives the position that the next four
/// tokens describe; `moves` has all tokens after it played as moves;
/// any other token is passed over.
pub open spec fn set_up(tokens: Seq<Seq<u8>>, i: int, p: Position, placed: bool) -> Result<
    Position,
    CommandError,
>
    decreases tokens.len() - i,
{
    if i < 0 || i >= tokens.len() {
        Ok(p)
    } else if tokens[i] == WORD_FEN@ {
        if placed {
            Err(CommandError::MalformedPosition)
        } else if i + 4 >= tokens.len() {
            Err(CommandError::MalformedFen)
        } else {
            match fields_of(tokens.subrange(i + 1, i + 5)) {
                None => Err(CommandError::MalformedFen),
                Some(fields) => match position_of(fields) {
                    None => Err(CommandError::MalformedFen),
                    Some(described) => set_up(tokens, i + 5, described, true),
                },
            }
        }
    } else if tokens[i] == WORD_STARTPOS@ {
        if placed {
            Err(CommandError::MalformedPosition)
        } else {
            set_up(tokens, i + 1, Position::start(), true)
        }
    } else if tokens[i] == WORD_MOVES@ {
        replay(tokens, i + 1, p)
    } else {
        set_up(tokens, i + 1, p, placed)
    }
}

/// The time for the search that a `go` command gives to the side
/// `turn`, read from its `i`-th token on, where `budget` is the time so
/// far: the number after `wtime` for white and after `btime` for black.
/// Reading ends where that word comes last or no number follows it.
pub open spec fn budget_from(tokens: Seq<Seq<u8>>, turn: Color, i: int, budget: u64) -> u64
    decreases tokens.len() - i,
{
    if i < 0 || i >= tokens.len() {
        budget
    } else if tokens[i] == clock_word(turn) {
        if i + 1 >= tokens.len() {
            budget
        } else {
            match spec_number(tokens[i + 1]) {
                Some(time) => budget_from(tokens, turn, i + 1, time),
                None => budget,
            }
        }
    } else {
        budget_from(tokens, turn, i + 1, budget)
    }
}

/// The word before the time that is left to `turn`.
pub open spec fn clock_word(turn: Color) -> Seq<u8> {
    match turn {
        Color::White => WORD_WTIME@,
        Color::Black => WORD_BTIME@,
    }
}

/// What the command loop is to do after a command.
#[derive(Copy, Clone, PartialEq, Eq, Debug, Structural)]
pub enum Action {
    /// Nothing to show.
    Nothing,
    /// Show the static evaluation.
    Quality(i32),
    /// Show the diagnostic; the position is as it was.
    Problem(CommandError),
    /// Start a search with this time, in milliseconds.
    Search(u64),
    /// The command is none that the engine knows.
    Unknown,
}

/// The position after a command and what is to be done: `debug_quality`
/// asks for the evaluation, `position` sets the position up or, where it
/// is malformed, leaves it as it was, and `go` asks for a search.
pub open spec fn outcome(p: Position, tokens: Seq<Seq<u8>>) -> (Position, Action) {
    if tokens.len() == 0 {
        (p, Action::Unknown)
    } else if tokens[0] == WORD_QUALITY@ {
        (p, Action::Quality(p.spec_eval() as i32))
    } else if tokens[0] == WORD_POSITION@ {
        match set_up(tokens, 1, p, false) {
            Ok(q) => (q, Action::Nothing),
            Err(e) => (p, Action::Problem(e)),
        }
    } else if tokens[0] == WORD_GO@ {
        (p, Action::Search(budget_from(tokens, p.turn, 1, DEFAULT_BUDGET)))
    } else {
        (p, Action::Unknown)
    }
}

/// Plays the moves from the token at `start` on.
fn replay_moves(tokens: &Vec<Vec<u8>>, start: usize, board: Board) -> (r: Result<
    Board,
    CommandError,
>)
    ensures
        match r {
            Ok(after) => replay(views(tokens@), start as int, board@) == Ok::<
                Position,
                CommandError,
            >(after@),
            Err(e) => replay(views(tokens@), start as int, board@) == Err::<
                Position,
                CommandError,
            >(e),
        },
{
    let mut current = board;
    let mut i: usize = start;
    while i < tokens.len()
        invariant
            replay(views(tokens@), i as int, current@) == replay(
                views(tokens@),
                start as int,
                board@,
            ),
        decreases tokens@.len() - i,
    {
        let mv = match Move::parse(tokens[i].as_slice()) {
            Some(mv) => mv,
            None => {
                return Err(CommandError::InvalidMove);
            },
        };
        let from = mv.from_field();
        if current.field_content(&from).is_none() {
            return Err(CommandError::InvalidMove);
        }
        current.apply_unchecked(&mv);
        current.next_turn();
        i += 1;
    }
    Ok(current)
}

/// The position that the four tokens after the one at `at` describe.
fn described(tokens: &Vec<Vec<u8>>, at: usize) -> (r: Option<Board>)
    requires
        at + 4 < tokens@.len(),
    ensures
        match r {
            Some(board) => fields_of(views(tokens@).subrange(at + 1, at + 5)) matches Some(fields)
                && position_of(fields) == Some(board@),
            None => match fields_of(views(tokens@).subrange(at + 1, at + 5)) {
                Some(fields) => position_of(fields) is None,
                None => true,
            },
        },
{
    let count: usize = tokens.len();
    let mut four: Vec<Vec<u8>> = Vec::with_capacity(4);
    four.push(slice_to_vec(tokens[at + 1].as_slice()));
    four.push(slice_to_vec(tokens[at + 2].as_slice()));
    four.push(slice_to_vec(tokens[at + 3].as_slice()));
    four.push(slice_to_vec(tokens[at + 4].as_slice()));
    proof {
        assert(views(four@) =~= views(tokens@).subrange(at + 1, at + 5));
    }
    let fen = match FENString::from_tokens(&four) {
        Ok(fen) => fen,
        Err(_) => {
            return None;
        },
    };
    match Board::try_from(fen) {
        Ok(board) => Some(board),
        Err(_) => None,
    }
}

/// Sets up the position that a `position` command, given as its tokens,
/// asks for, starting from `board`. A malformed command gives its error
/// and no position.
pub fn position_command(board: &Board, tokens: &Vec<Vec<u8>>) -> (r: Result<Board, CommandError>)
    ensures
        match r {
            Ok(after) => set_up(views(tokens@), 1, board@, false) == Ok::<Position, CommandError>(
                after@,
            ),
            Err(e) => set_up(views(tokens@), 1, board@, false) == Err::<Position, CommandError>(e),
        },
{
    let mut current = *board;
    let mut placed: bool = false;
    let mut i: usize = 1;
    while i < tokens.len()
        invariant
            set_up(views(tokens@), i as int, current@, placed) == set_up(
                views(tokens@),
                1,
                board@,
                false,
            ),
        decreases tokens@.len() - i,
    {
        let token = tokens[i].as_slice();
        if same_bytes(token, WORD_FEN.as_slice()) {
            if placed {
                return Err(CommandError::MalformedPosition);
            }
            if tokens.len() - i <= 4 {
                return Err(CommandError::MalformedFen);
            }
            current = match described(tokens, i) {
                Some(found) => found,
                None => {
                    return Err(CommandError::MalformedFen);
                },
            };
            placed = true;
            i += 5;
        } else if same_bytes(token, WORD_STARTPOS.as_slice()) {
            if placed {
                return Err(CommandError::MalformedPosition);
            }
            current = Board::new();
            placed = true;
            i += 1;
        } else if same_bytes(token, WORD_MOVES.as_slice()) {
            return replay_moves(tokens, i + 1, current);
        } else {
            i += 1;
        }
    }
    Ok(current)
}

/// The time, in milliseconds, that a `go` command, given as its tokens,
/// allows the side `turn` for its search.
pub fn go_budget(tokens: &Vec<Vec<u8>>, turn: Color) -> (budget: u64)
    ensures
        budget == budget_from(views(tokens@), turn, 1, DEFAULT_BUDGET),
{
    let mut budget: u64 = DEFAULT_BUDGET;
    let mut i: usize = 1;
    while i < tokens.len()
        invariant
            budget_from(views(tokens@), turn, i as int, budget) == budget_from(
                views(tokens@),
                turn,
                1,
                DEFAULT_BUDGET,
            ),
        decreases tokens@.len() - i,
    {
        let token = tokens[i].as_slice();
        let mine: bool = match turn {
            Color::White => same_bytes(token, WORD_WTIME.as_slice()),
            Color::Black => same_bytes(token, WORD_BTIME.as_slice()),
        };
        if mine {
            if tokens.len() - i == 1 {
                return budget;
            }
            match number(tokens[i + 1].as_slice()) {
                Some(time) => {
                    budget = time;
                },
                None => {
                    return budget;
                },
            }
        }
        i += 1;
    }
    budget
}

/// Carries out a command given as its tokens: changes the position where
/// the command asks for it, and says what the command loop is to do.
pub fn execute(board: &mut Board, tokens: &Vec<Vec<u8>>) -> (action: Action)
    ensures
        (final(board)@, action) == outcome(old(board)@, views(tokens@)),
{
    if tokens.len() == 0 {
        return Action::Unknown;
    }
    let word = tokens[0].as_slice();
    if same_bytes(word, WORD_QUALITY.as_slice()) {
        Action::Quality(board.eval())
    } else if same_bytes(word, WORD_POSITION.as_slice()) {
        match position_command(board, tokens) {
            Ok(after) => {
                *board = after;
                Action::Nothing
            },
            Err(e) => Action::Problem(e),
        }
    } else if same_bytes(word, WORD_GO.as_slice()) {
        Action::Search(go_budget(tokens, board.which_turn()))
    } else {
        Action::Unknown
    }
}

/// Carries out a command line.
pub fn execute_line(board: &mut Board, line: &str) -> (action: Action)
    ensures
        (final(board)@, action) == outcome(old(board)@, whitespace_tokens(line@)),
{
    let tokens = split_whitespace(line);
    execute(board, &tokens)
}

/// The move to answer a `go` command with: the move that the book
/// gives for the position, and where it gives none, a move found by
/// search. Nothing where the book gives no move and the side to move has
/// no legal move.
pub fn answer(board: &Board, book: &Book, stop: &AtomicBool) -> (mv: Option<Move>)
    ensures
        match known_move(book@, board@.spec_hash()) {
            Some(known) => mv == Some(known),
            None => match mv {
                Some(found) => {
                    &&& is_legal(board@, board@.turn, found)
                    &&& exists|depth: nat|
                        1 <= depth < DEPTH_CEILING && searchable(board@, board@.turn, depth)
                            && #[trigger] parallel_choice(board@, board@.turn, depth) == Some(
                            found,
                        )
                },
                None => legal_moves_for(board@, board@.turn).len() == 0,
            },
        },
{
    match book.lookup(board.hash()) {
        Some(known) => Some(known),
        None => {
            let turn = board.which_turn();
            let moves = player_moves(&turn, board);
            if moves.len() == 0 {
                None
            } else {
                Some(get_move(board, &turn, stop))
            }
        },
    }
}

} // verus!
