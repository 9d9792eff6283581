//! The course of one game, as a state machine.
//!
//! The caller prompts the player and reads a line; [`Game::submit`] validates
//! and scores the line, moves the game on and says what to tell the player. A
//! line that is no guess changes nothing. A guess that matches the secret in
//! every position wins the game and is not counted. Every other guess is
//! counted, and the game is lost with the guess that brings the count to the
//! limit.

use crate::score::{check_guess, guess_score, lemma_all_positions_match, normalized};
use crate::secret::{draw_secret, is_sample_of, CODE_LENGTH};
use crate::validate::{tokens, validate_input, validation, InputError, Rejection};
use vstd::prelude::*;

verus! {

/// The number of guesses that a player has by default.
pub const MAX_TURNS: u32 = 10;

/// Where a game stands.
#[derive(Clone, Copy, PartialEq, Eq, Structural, Debug)]
pub enum Status {
    /// The game waits for the next line.
    Prompting,
    /// The secret was guessed.
    Won,
    /// The guesses are used up.
    Lost,
}

/// What came of one line of input.
#[derive(Debug, PartialEq, Eq)]
pub enum Turn {
    /// The line is no guess, for the reason given.
    Rejected(InputError),
    /// The guess matches the secret in every position.
    Won,
    /// The guess was scored, and the game goes on.
    Scored { colour_matches: i32, position_matches: i32 },
    /// The guess was scored, and it was the last one allowed.
    Lost { colour_matches: i32, position_matches: i32 },
    /// The game was over before the line came.
    Finished,
}

/// The mathematical content of a [`Turn`].
pub enum Outcome {
    /// The line is no guess, for the reason given.
    Rejected(Rejection),
    /// The guess matches the secret in every position.
    Won,
    /// The guess was scored, and the game goes on.
    Scored { colour_matches: nat, position_matches: nat },
    /// The guess was scored, and it was the last one allowed.
    Lost { colour_matches: nat, position_matches: nat },
    /// The game was over before the line came.
    Finished,
}

impl View for Turn {
    type V = Outcome;

    open spec fn view(&self) -> Outcome {
        match self {
            Turn::Rejected(e) => Outcome::Rejected(e@),
            Turn::Won => Outcome::Won,
            Turn::Scored { colour_matches, position_matches } => Outcome::Scored {
                colour_matches: *colour_matches as nat,
                position_matches: *position_matches as nat,
            },
            Turn::Lost { colour_matches, position_matches } => Outcome::Lost {
                colour_matches: *colour_matches as nat,
                position_matches: *position_matches as nat,
            },
            Turn::Finished => Outcome::Finished,
        }
    }
}

/// The state of a game.
pub struct State {
    /// The colours that a guess may name.
    pub palette: Seq<Seq<char>>,
    /// The symbols to be guessed.
    pub secret: Seq<Seq<char>>,
    /// The number of counted guesses with which the game is lost.
    pub max_turns: nat,
    /// The number of guesses counted so far.
    pub turns: nat,
    /// Where the game stands.
    pub status: Status,
}

impl State {
    /// The state of a game that has just begun. With no guess allowed, it is
    /// lost from the start.
    pub open spec fn initial(palette: Seq<Seq<char>>, secret: Seq<Seq<char>>, max_turns: nat) -> State {
        State {
            palette,
            secret,
            max_turns,
            turns: 0,
            status: if max_turns == 0 {
                Status::Lost
            } else {
                Status::Prompting
            },
        }
    }

    /// The states that a game can be in: a game that goes on, or was won, has
    /// guesses left; a lost game has none. The last clause keeps the score of
    /// a guess within the range of its type.
    pub open spec fn wf(self) -> bool {
        &&& self.turns <= self.max_turns
        &&& self.status != Status::Lost ==> self.turns < self.max_turns
        &&& self.status == Status::Lost ==> self.turns == self.max_turns
        &&& self.secret.len() * self.secret.len() <= i32::MAX
    }

    /// The state after `line` was handed in, and what came of the line.
    pub open spec fn next(self, line: Seq<char>) -> (State, Outcome) {
        if self.status != Status::Prompting {
            (self, Outcome::Finished)
        } else {
            match validation(line, self.secret.len(), self.palette) {
                Err(e) => (self, Outcome::Rejected(e)),
                Ok(guess) => {
                    let (colour_matches, position_matches) = guess_score(guess, self.secret);
                    if position_matches == self.secret.len() {
                        (State { status: Status::Won, ..self }, Outcome::Won)
                    } else if self.turns + 1 >= self.max_turns {
                        (
                            State { status: Status::Lost, turns: self.turns + 1, ..self },
                            Outcome::Lost { colour_matches, position_matches },
                        )
                    } else {
                        (
                            State { turns: self.turns + 1, ..self },
                            Outcome::Scored { colour_matches, position_matches },
                        )
                    }
                },
            }
        }
    }
}

/// Whatever line comes, a game stays in a state that it can be in: palette,
/// secret and limit stay as they are, and the count of guesses never falls,
/// rises by one at most and never passes the limit.
pub proof fn lemma_next_keeps_wf(state: State, line: Seq<char>)
    requires
        state.wf(),
    ensures
        state.next(line).0.wf(),
        state.next(line).0.palette == state.palette,
        state.next(line).0.secret == state.secret,
        state.next(line).0.max_turns == state.max_turns,
        state.turns <= state.next(line).0.turns <= state.turns + 1,
{
}

/// A line that is no guess leaves the game as it was, and so does any line
/// that comes after the game is over.
pub proof fn lemma_only_guesses_count(state: State, line: Seq<char>)
    ensures
        state.next(line).1 is Rejected || state.next(line).1 is Finished ==> state.next(line).0
            == state,
        state.next(line).1 is Finished <==> state.status != Status::Prompting,
        state.next(line).1 is Rejected ==> validation(
            line,
            state.secret.len(),
            state.palette,
        ) is Err,
        state.next(line).1 is Scored ==> state.next(line).0.turns == state.turns + 1
            && state.next(line).0.status == Status::Prompting,
{
}

/// A game that waits for a line is won with it exactly when the line is a
/// guess whose upper-case form is the secret. It is lost with it exactly when
/// the line is any other guess and the count of guesses reaches the limit.
pub proof fn lemma_how_a_game_ends(state: State, line: Seq<char>)
    requires
        state.wf(),
        state.status == Status::Prompting,
    ensures
        state.next(line).0.status == Status::Won <==> validation(
            line,
            state.secret.len(),
            state.palette,
        ) is Ok && normalized(tokens(line)) == state.secret,
        state.next(line).0.status == Status::Lost <==> validation(
            line,
            state.secret.len(),
            state.palette,
        ) is Ok && normalized(tokens(line)) != state.secret && state.turns + 1
            == state.max_turns,
{
    if validation(line, state.secret.len(), state.palette) is Ok {
        lemma_all_positions_match(normalized(tokens(line)), state.secret);
    }
}

/// How far the player has come. Count and status change together.
#[derive(Clone, Copy)]
struct Progress {
    turns: u32,
    status: Status,
}

/// One game: the palette, the secret, and how far the player has come.
pub struct Game {
    palette: Vec<String>,
    secret: Vec<String>,
    max_turns: u32,
    progress: Progress,
}

impl View for Game {
    type V = State;

    closed spec fn view(&self) -> State {
        State {
            palette: self.palette.deep_view(),
            secret: self.secret.deep_view(),
            max_turns: self.max_turns as nat,
            turns: self.progress.turns as nat,
            status: self.progress.status,
        }
    }
}

impl Game {
    #[verifier::type_invariant]
    spec fn inv(&self) -> bool {
        self@.wf()
    }

    /// Starts a game on `secret`, to be guessed with the colours of `palette`
    /// in at most `max_turns` guesses.
    pub fn new(palette: Vec<String>, secret: Vec<String>, max_turns: u32) -> (game: Game)
        requires
            secret.len() * secret.len() <= i32::MAX,
        ensures
            game@ == State::initial(palette.deep_view(), secret.deep_view(), max_turns as nat),
            game@.wf(),
    {
        let status = if max_turns == 0 {
            Status::Lost
        } else {
            Status::Prompting
        };
        Game { palette, secret, max_turns, progress: Progress { turns: 0, status } }
    }

    /// Starts a game on a secret drawn at random from `palette`, to be
    /// guessed in at most `max_turns` guesses.
    pub fn start(palette: Vec<String>, max_turns: u32) -> (game: Game)
        ensures
            is_sample_of(game@.secret, palette.deep_view(), CODE_LENGTH as nat),
            game@ == State::initial(palette.deep_view(), game@.secret, max_turns as nat),
            game@.wf(),
    {
        let secret = draw_secret(palette.as_slice());
        assert(secret.len() * secret.len() <= 16) by (nonlinear_arith)
            requires
                secret.len() <= 4,
        ;
        Game::new(palette, secret, max_turns)
    }

    /// Where the game stands.
    pub fn status(&self) -> (status: Status)
        ensures
            status == self@.status,
            self@.wf(),
    {
        proof {
            use_type_invariant(self);
        }
        self.progress.status
    }

    /// The number of guesses counted so far.
    pub fn turns(&self) -> (turns: u32)
        ensures
            turns == self@.turns,
            self@.wf(),
    {
        proof {
            use_type_invariant(self);
        }
        self.progress.turns
    }

    /// Takes one line from the player: validates it, scores it where it is a
    /// guess, and moves the game on.
    pub fn submit(&mut self, line: String) -> (turn: Turn)
        ensures
            (final(self)@, turn@) == old(self)@.next(line@),
            final(self)@.wf(),
    {
        proof {
            use_type_invariant(&*self);
        }
        let turns = self.progress.turns;
        match self.progress.status {
            Status::Prompting => {},
            _ => {
                return Turn::Finished;
            },
        }
        match validate_input(line, self.secret.len(), self.palette.as_slice()) {
            Err(e) => Turn::Rejected(e),
            Ok(guess) => {
                let (colour_matches, position_matches) = check_guess(
                    guess.as_slice(),
                    self.secret.as_slice(),
                );
                if position_matches as usize == self.secret.len() {
                    self.progress = Progress { turns, status: Status::Won };
                    Turn::Won
                } else if turns + 1 >= self.max_turns {
                    self.progress = Progress { turns: turns + 1, status: Status::Lost };
                    Turn::Lost { colour_matches, position_matches }
                } else {
                    self.progress = Progress { turns: turns + 1, status: Status::Prompting };
                    Turn::Scored { colour_matches, position_matches }
                }
            },
        }
    }
}

} // verus!
