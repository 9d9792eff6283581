//! Mastermind: a secret of four distinct colours, drawn from a palette of six,
//! is to be found in a limited number of guesses. Each guess is answered with
//! two numbers: how many of its colours stand in the right place, and how
//! many occur in the secret in another place.
//!
//! The crate holds the rules of the game. Prompting the player and reading
//! the lines is left to the caller.

pub mod game;
pub mod palette;
pub mod score;
pub mod secret;
pub mod text;
pub mod validate;

pub use game::{Game, Status, Turn, MAX_TURNS};
pub use palette::{colours, is_palette};
pub use score::check_guess;
pub use secret::{draw_secret, get_secret, CODE_LENGTH};
pub use validate::{is_unique_arr, validate_input, InputError};
