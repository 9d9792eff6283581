//! Drawing the secret: a random choice of distinct colours from the palette.
//!
//! The choice is made by the crate `rand`. What it returns is taken on trust,
//! and only what holds of every draw is stated: nothing here says how likely
//! a draw is.

use crate::palette::{colours, is_playable, lemma_standard_palette, standard_palette};
use crate::score::{guess_score, lemma_secret_scores_itself, normalized};
use crate::text::uppercase;
use rand::seq::IndexedRandom;
use vstd::prelude::*;

verus! {

/// The number of symbols in a secret, and so in a guess.
pub const CODE_LENGTH: usize = 4;

/// `rand::rngs::ThreadRng`, the handle to the random number generator of the
/// current thread. Nothing is known of what it holds.
#[verifier::external_type_specification]
#[verifier::external_body]
pub struct ExThreadRng(rand::rngs::ThreadRng);

/// Trusted: `rand::rng` hands out the generator of the current thread.
/// Nothing is stated of it. The first call on a thread seeds the generator
/// from the operating system, and fails only where that source is not to be
/// had.
pub assume_specification[ rand::rng ]() -> (r: rand::rngs::ThreadRng)
;

/// Whether `picked` holds the symbols of `pool` at the positions `at`, each
/// position taken once at most.
pub open spec fn drawn_at(picked: Seq<Seq<char>>, pool: Seq<Seq<char>>, at: Seq<int>) -> bool {
    &&& at.len() == picked.len()
    &&& at.no_duplicates()
    &&& forall|k: int|
        0 <= k < at.len() ==> 0 <= #[trigger] at[k] < pool.len() && picked[k] == pool[at[k]]
}

/// Whether `picked` is a draw of `amount` symbols from `pool` without
/// replacement: as many as asked for, or the whole pool where it is smaller,
/// taken from positions of the pool that all differ.
pub open spec fn is_sample_of(picked: Seq<Seq<char>>, pool: Seq<Seq<char>>, amount: nat) -> bool {
    &&& picked.len() == if amount <= pool.len() {
        amount
    } else {
        pool.len()
    }
    &&& exists|at: Seq<int>| drawn_at(picked, pool, at)
}

/// Trusted: `IndexedRandom::choose_multiple` on a slice, its items cloned
/// into a vector. The crate samples `min(amount, len)` distinct indices of
/// the slice and yields the elements at them, in the order sampled. Which
/// indices come, and in which order, depends on the generator: only what
/// holds of every draw is stated. For a slice too long for 32-bit indices the
/// crate samples by rejection, which it means for draws smaller than the
/// slice.
#[verifier::external_body]
fn choose_multiple(pool: &[String], rng: &mut rand::rngs::ThreadRng, amount: usize) -> (picked:
    Vec<String>)
    requires
        pool.len() <= u32::MAX || amount < pool.len(),
    ensures
        is_sample_of(picked.deep_view(), pool.deep_view(), amount as nat),
{
    pool.choose_multiple(rng, amount).cloned().collect()
}

/// A draw without replacement holds only symbols of the pool, and where the
/// pool names no symbol twice, neither does the draw.
pub proof fn lemma_sample_is_code(picked: Seq<Seq<char>>, pool: Seq<Seq<char>>, amount: nat)
    requires
        is_sample_of(picked, pool, amount),
    ensures
        forall|k: int| 0 <= k < picked.len() ==> pool.contains(#[trigger] picked[k]),
        pool.no_duplicates() ==> picked.no_duplicates(),
{
    let at = choose|at: Seq<int>| drawn_at(picked, pool, at);
    assert forall|k: int| 0 <= k < picked.len() implies pool.contains(#[trigger] picked[k]) by {
        assert(picked[k] == pool[at[k]]);
    }
    if pool.no_duplicates() {
        assert forall|i: int, j: int|
            0 <= i < picked.len() && 0 <= j < picked.len() && i != j implies picked[i]
            != picked[j] by {
            assert(picked[i] == pool[at[i]]);
            assert(picked[j] == pool[at[j]]);
        }
    }
}

/// A secret drawn from a palette that can be played with is itself without
/// repetition and in upper case. Handed in as a guess, it scores a position
/// match for every symbol and no colour match.
pub proof fn lemma_secret_of_palette(secret: Seq<Seq<char>>, palette: Seq<Seq<char>>, amount: nat)
    requires
        is_sample_of(secret, palette, amount),
        is_playable(palette),
    ensures
        is_playable(secret),
        guess_score(secret, secret) == (0nat, secret.len()),
{
    lemma_sample_is_code(secret, palette, amount);
    let at = choose|at: Seq<int>| drawn_at(secret, palette, at);
    assert forall|k: int| 0 <= k < secret.len() implies uppercase(#[trigger] secret[k])
        == secret[k] by {
        assert(secret[k] == palette[at[k]]);
    }
    assert(normalized(secret) =~= secret);
    lemma_secret_scores_itself(secret);
}

/// Draws a secret from `palette`: [`CODE_LENGTH`] of its colours, chosen at
/// random without replacement and in random order, or all of them where the
/// palette holds fewer. From a palette of distinct colours the secret holds
/// no colour twice.
pub fn draw_secret(palette: &[String]) -> (secret: Vec<String>)
    ensures
        is_sample_of(secret.deep_view(), palette.deep_view(), CODE_LENGTH as nat),
        secret.len() <= CODE_LENGTH,
        palette.len() >= CODE_LENGTH ==> secret.len() == CODE_LENGTH,
        forall|k: int|
            0 <= k < secret.len() ==> palette.deep_view().contains(#[trigger] secret.deep_view()[k]),
        palette.deep_view().no_duplicates() ==> secret.deep_view().no_duplicates(),
{
    let mut rng = rand::rng();
    let secret = choose_multiple(palette, &mut rng, CODE_LENGTH);
    proof {
        lemma_sample_is_code(secret.deep_view(), palette.deep_view(), CODE_LENGTH as nat);
    }
    secret
}

/// Draws the secret of a game: [`CODE_LENGTH`] colours of the standard
/// palette, all different, chosen at random and in random order.
pub fn get_secret() -> (secret: Vec<String>)
    ensures
        is_sample_of(secret.deep_view(), standard_palette(), CODE_LENGTH as nat),
        secret.len() == CODE_LENGTH,
        forall|k: int|
            0 <= k < secret.len() ==> standard_palette().contains(#[trigger] secret.deep_view()[k]),
        secret.deep_view().no_duplicates(),
{
    let palette = colours();
    proof {
        lemma_standard_palette();
    }
    draw_secret(palette.as_slice())
}

} // verus!
