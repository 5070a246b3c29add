use vstd::prelude::*;

use crate::board::BoardView;
use crate::fen::fen_decode;
use crate::game::{classify_move, fix_move, Game};
use crate::moves::{parse_move_text, Move};
use crate::text::{chars_of, push_char, push_chars, split_words, words};

verus! {

/// A command of the line protocol that drives the engine.
#[derive(Clone, Debug)]
pub enum UciInput {
    UciFirst,
    Debug(bool),
    IsReady,
    UciNewGame,
    Position(Game),
    Stop,
    Quit,
}

/// Why a command line was refused.
#[derive(Clone, Copy, Debug, PartialEq, Eq, Structural)]
pub enum UciError {
    /// The line holds no word.
    NoCommand,
    /// `debug` takes `on` or `off`.
    InvalidDebug,
    /// `position` takes `startpos`, or `fen` and six fields.
    InvalidPosition,
    /// What follows the position is not `moves`.
    InvalidOption,
    /// The six fields do not describe a position.
    InvalidFen,
    /// A move text cannot be read, or the move cannot be applied.
    InvalidMove,
    /// `go`: searching is not implemented.
    Unsupported,
    /// Any other line.
    InvalidCommand,
}

/// The value of a command line, with the position that a `position` command sets up.
pub enum UciCommand {
    UciFirst,
    Debug(bool),
    IsReady,
    UciNewGame,
    Position(BoardView),
    Stop,
    Quit,
}

/// One move text applied to `b`: read, given the kind that the position shows, and applied if
/// `make_move` accepts it.
pub open spec fn replay_step(b: BoardView, t: Seq<char>) -> Option<BoardView> {
    match parse_move_text(t) {
        Some(m) => match classify_move(b, m) {
            Some(mv) => if b.valid_move(mv) {
                Some(b.after_move(mv))
            } else {
                None
            },
            None => None,
        },
        None => None,
    }
}

/// The position after applying the move texts `ts` in order to `b`, if every one applies.
pub open spec fn replay(b: BoardView, ts: Seq<Seq<char>>) -> Option<BoardView>
    decreases ts.len(),
{
    if ts.len() == 0 {
        Some(b)
    } else {
        match replay_step(b, ts[0]) {
            Some(next) => replay(next, ts.drop_first()),
            None => None,
        }
    }
}

/// The words `ts` joined by single spaces.
pub open spec fn join_words(ts: Seq<Seq<char>>) -> Seq<char>
    decreases ts.len(),
{
    if ts.len() == 0 {
        Seq::empty()
    } else if ts.len() == 1 {
        ts[0]
    } else {
        join_words(ts.drop_last()) + seq![' '] + ts.last()
    }
}

/// The position that the arguments of a `position` command set up: `startpos` or `fen` with
/// six fields, then optionally `moves` and the move texts to apply.
pub open spec fn position_of(args: Seq<Seq<char>>) -> Result<BoardView, UciError> {
    let start: Result<(BoardView, int), UciError> = if args.len() >= 1 && args[0] == "startpos"@ {
        Ok((BoardView::start(), 1))
    } else if args.len() >= 7 && args[0] == "fen"@ {
        match fen_decode(join_words(args.subrange(1, 7))) {
            Some(b) => Ok((b, 7)),
            None => Err(UciError::InvalidFen),
        }
    } else {
        Err(UciError::InvalidPosition)
    };
    match start {
        Err(e) => Err(e),
        Ok((b, k)) => {
            let rest = args.skip(k);
            if rest.len() == 0 {
                Ok(b)
            } else if rest[0] != "moves"@ {
                Err(UciError::InvalidOption)
            } else {
                match replay(b, rest.drop_first()) {
                    Some(after) => Ok(after),
                    None => Err(UciError::InvalidMove),
                }
            }
        },
    }
}

/// The command that a line stands for.
pub open spec fn command_of(line: Seq<char>) -> Result<UciCommand, UciError> {
    let w = words(line);
    if w.len() == 0 {
        Err(UciError::NoCommand)
    } else {
        let first = w[0];
        let n = w.len() - 1;
        if n == 0 && first == "uci"@ {
            Ok(UciCommand::UciFirst)
        } else if n == 0 && first == "isready"@ {
            Ok(UciCommand::IsReady)
        } else if n == 0 && first == "ucinewgame"@ {
            Ok(UciCommand::UciNewGame)
        } else if n == 0 && first == "stop"@ {
            Ok(UciCommand::Stop)
        } else if n == 0 && first == "quit"@ {
            Ok(UciCommand::Quit)
        } else if n == 1 && first == "debug"@ {
            if w[1] == "on"@ {
                Ok(UciCommand::Debug(true))
            } else if w[1] == "off"@ {
                Ok(UciCommand::Debug(false))
            } else {
                Err(UciError::InvalidDebug)
            }
        } else if n >= 1 && first == "position"@ {
            match position_of(w.drop_first()) {
                Ok(b) => Ok(UciCommand::Position(b)),
                Err(e) => Err(e),
            }
        } else if first == "go"@ {
            Err(UciError::Unsupported)
        } else {
            Err(UciError::InvalidCommand)
        }
    }
}

/// Whether a parsed command is the command value `c`; a game stands for its position, with
/// records that lead to it.
pub open spec fn input_is(r: UciInput, c: UciCommand) -> bool {
    match (r, c) {
        (UciInput::UciFirst, UciCommand::UciFirst) => true,
        (UciInput::Debug(a), UciCommand::Debug(b)) => a == b,
        (UciInput::IsReady, UciCommand::IsReady) => true,
        (UciInput::UciNewGame, UciCommand::UciNewGame) => true,
        (UciInput::Position(g), UciCommand::Position(b)) => g.position() == b && g.wf(),
        (UciInput::Stop, UciCommand::Stop) => true,
        (UciInput::Quit, UciCommand::Quit) => true,
        _ => false,
    }
}

/// Whether the characters `w` spell `lit`.
fn word_is(w: &[char], lit: &str) -> (r: bool)
    ensures
        r == (w@ == lit@),
{
    let l = chars_of(lit);
    if w.len() != l.len() {
        return false;
    }
    let mut i: usize = 0;
    while i < w.len()
        invariant
            i <= w.len(),
            w.len() == l.len(),
            l@ == lit@,
            forall|j: int| 0 <= j < i ==> w@[j] == l@[j],
        decreases w.len() - i,
    {
        if w[i] != l[i] {
            return false;
        }
        i = i + 1;
    }
    assert(w@ =~= l@);
    true
}

/// Sets up the game that the arguments of a `position` command describe.
pub fn gen_game_from_uci(args: &[Vec<char>]) -> (r: Result<Game, UciError>)
    ensures
        match position_of(args@.map_values(|a: Vec<char>| a@)) {
            Ok(b) => r matches Ok(g) && g.position() == b && g.wf(),
            Err(e) => r == Err::<Game, UciError>(e),
        },
{
    let ghost a = args@.map_values(|v: Vec<char>| v@);
    assert(args.len() >= 1 ==> a[0] == args@[0]@);
    let (mut game, k): (Game, usize) = if args.len() >= 1 && word_is(args[0].as_slice(), "startpos") {
        (Game::default(), 1)
    } else if args.len() >= 7 && word_is(args[0].as_slice(), "fen") {
        let fen = join_args(args, 1, 7);
        match Game::from_fen(fen.as_str()) {
            Ok(g) => (g, 7),
            Err(_) => return Err(UciError::InvalidFen),
        }
    } else {
        return Err(UciError::InvalidPosition);
    };
    let ghost start = game.position();
    if k == args.len() {
        assert(a.skip(k as int).len() == 0);
        return Ok(game);
    }
    assert(a.skip(k as int)[0] == args@[k as int]@);
    if !word_is(args[k].as_slice(), "moves") {
        return Err(UciError::InvalidOption);
    }
    let mut i: usize = k + 1;
    assert(a.skip(k as int).drop_first() =~= a.skip(i as int));
    assert(position_of(a) == (match replay(start, a.skip(k + 1)) {
        Some(b) => Ok(b),
        None => Err(UciError::InvalidMove),
    }));
    while i < args.len()
        invariant
            k < i <= args.len(),
            a == args@.map_values(|v: Vec<char>| v@),
            position_of(a) == (match replay(start, a.skip(k + 1)) {
                Some(b) => Ok(b),
                None => Err(UciError::InvalidMove),
            }),
            game.wf(),
            replay(game.position(), a.skip(i as int)) == replay(start, a.skip(k + 1)),
        decreases args.len() - i,
    {
        let ghost before = game.position();
        assert(a.skip(i as int)[0] == args@[i as int]@);
        assert(a.skip(i as int).drop_first() =~= a.skip(i + 1));
        let mv = match Move::from_chars(args[i].as_slice()) {
            Ok(m) => m,
            Err(_) => {
                assert(replay_step(before, a.skip(i as int)[0]) is None);
                return Err(UciError::InvalidMove);
            },
        };
        let mv = match fix_move(&game, mv) {
            Ok(m) => m,
            Err(_) => {
                assert(replay_step(before, a.skip(i as int)[0]) is None);
                return Err(UciError::InvalidMove);
            },
        };
        if !game.is_valid_move(mv) {
            return Err(UciError::InvalidMove);
        }
        game.make_move(mv);
        i = i + 1;
    }
    assert(a.skip(i as int) =~= Seq::<Seq<char>>::empty());
    Ok(game)
}

/// The arguments `lo..hi` joined by single spaces.
fn join_args(args: &[Vec<char>], lo: usize, hi: usize) -> (r: String)
    requires
        lo < hi <= args.len(),
    ensures
        r@ == join_words(args@.map_values(|a: Vec<char>| a@).subrange(lo as int, hi as int)),
{
    let ghost a = args@.map_values(|v: Vec<char>| v@);
    let mut s = String::new();
    push_chars(&mut s, args[lo].as_slice());
    assert(a.subrange(lo as int, lo + 1) =~= seq![a[lo as int]]);
    let mut i: usize = lo + 1;
    while i < hi
        invariant
            lo < i <= hi,
            hi <= args.len(),
            a == args@.map_values(|v: Vec<char>| v@),
            s@ == join_words(a.subrange(lo as int, i as int)),
        decreases hi - i,
    {
        push_char(&mut s, ' ');
        push_chars(&mut s, args[i].as_slice());
        assert(a.subrange(lo as int, i + 1).drop_last() =~= a.subrange(lo as int, i as int));
        i = i + 1;
    }
    s
}

impl UciInput {
    /// Reads a command line.
    pub fn from_str(input: &str) -> (r: Result<UciInput, UciError>)
        ensures
            match (r, command_of(input@)) {
                (Ok(x), Ok(c)) => input_is(x, c),
                (Err(e), Err(f)) => e == f,
                _ => false,
            },
    {
        let cs = chars_of(input);
        let w = split_words(cs.as_slice());
        let ghost ws = words(input@);
        if w.len() == 0 {
            return Err(UciError::NoCommand);
        }
        let first = w[0].as_slice();
        let n = w.len() - 1;
        if n == 0 && word_is(first, "uci") {
            Ok(UciInput::UciFirst)
        } else if n == 0 && word_is(first, "isready") {
            Ok(UciInput::IsReady)
        } else if n == 0 && word_is(first, "ucinewgame") {
            Ok(UciInput::UciNewGame)
        } else if n == 0 && word_is(first, "stop") {
            Ok(UciInput::Stop)
        } else if n == 0 && word_is(first, "quit") {
            Ok(UciInput::Quit)
        } else if n == 1 && word_is(first, "debug") {
            if word_is(w[1].as_slice(), "on") {
                Ok(UciInput::Debug(true))
            } else if word_is(w[1].as_slice(), "off") {
                Ok(UciInput::Debug(false))
            } else {
                Err(UciError::InvalidDebug)
            }
        } else if n >= 1 && word_is(first, "position") {
            let args = &w.as_slice()[1..w.len()];
            assert(args@.map_values(|a: Vec<char>| a@) =~= ws.drop_first());
            match gen_game_from_uci(args) {
                Ok(game) => Ok(UciInput::Position(game)),
                Err(e) => Err(e),
            }
        } else if word_is(first, "go") {
            Err(UciError::Unsupported)
        } else {
            Err(UciError::InvalidCommand)
        }
    }
}

} // verus!
