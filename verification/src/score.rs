//! Scoring a guess against the secret.
//!
//! Every position of the guess is compared with every position of the secret.
//! A pair of positions that hold the same symbol is a position match when the
//! two positions are the same, and a colour match when they differ. Nothing
//! guards against counting a symbol more than once: where the secret repeats a
//! symbol, one symbol of the guess can score several colour matches.

use crate::text::uppercase;
use vstd::prelude::*;

verus! {

/// The guess with every token in upper case, which is how it is scored.
pub open spec fn normalized(guess: Seq<Seq<char>>) -> Seq<Seq<char>> {
    Seq::new(guess.len(), |i: int| uppercase(guess[i]))
}

/// The pairs of a position of the guess and a position of the secret that
/// hold the same symbol: those of equal positions when `aligned`, those of
/// different positions when not.
pub open spec fn matching_pairs(
    guess: Seq<Seq<char>>,
    secret: Seq<Seq<char>>,
    aligned: bool,
) -> Set<(int, int)> {
    Set::new(
        |p: (int, int)|
            {
                &&& 0 <= p.0 < guess.len()
                &&& 0 <= p.1 < secret.len()
                &&& guess[p.0] == secret[p.1]
                &&& (p.0 == p.1) == aligned
            },
    )
}

/// The number of places at which guess and secret hold the same symbol.
pub open spec fn position_matches(guess: Seq<Seq<char>>, secret: Seq<Seq<char>>) -> nat {
    matching_pairs(guess, secret, true).len()
}

/// The number of times that a symbol of the guess is found in the secret at
/// another place than its own.
pub open spec fn colour_matches(guess: Seq<Seq<char>>, secret: Seq<Seq<char>>) -> nat {
    matching_pairs(guess, secret, false).len()
}

/// The score of a guess as the player wrote it: the colour matches, then the
/// position matches, of its upper-case form.
pub open spec fn guess_score(guess: Seq<Seq<char>>, secret: Seq<Seq<char>>) -> (nat, nat) {
    (colour_matches(normalized(guess), secret), position_matches(normalized(guess), secret))
}

/// How many of the first `n` positions of `secret` hold `symbol`, counting the
/// position `row` alone when `aligned`, and every position but `row` when not.
pub open spec fn row_count(symbol: Seq<char>, row: int, secret: Seq<Seq<char>>, n: nat, aligned: bool) -> nat
    decreases n,
{
    if n == 0 {
        0
    } else {
        let j = n - 1;
        let hit: nat = if secret[j] == symbol && (j == row) == aligned {
            1
        } else {
            0
        };
        row_count(symbol, row, secret, j as nat, aligned) + hit
    }
}

/// The matches of the first `m` symbols of `guess` with the whole secret,
/// counted row by row.
pub open spec fn count_upto(guess: Seq<Seq<char>>, secret: Seq<Seq<char>>, m: nat, aligned: bool) -> nat
    decreases m,
{
    if m == 0 {
        0
    } else {
        let i = m - 1;
        count_upto(guess, secret, i as nat, aligned) + row_count(
            guess[i],
            i,
            secret,
            secret.len(),
            aligned,
        )
    }
}

/// The matching pairs of one position of the guess with the first `n`
/// positions of the secret.
spec fn row_pairs(
    guess: Seq<Seq<char>>,
    secret: Seq<Seq<char>>,
    row: int,
    n: nat,
    aligned: bool,
) -> Set<(int, int)> {
    Set::new(
        |p: (int, int)|
            {
                &&& p.0 == row
                &&& 0 <= p.1 < n
                &&& guess[row] == secret[p.1]
                &&& (row == p.1) == aligned
            },
    )
}

/// The matching pairs of the first `m` positions of the guess.
spec fn pairs_upto(
    guess: Seq<Seq<char>>,
    secret: Seq<Seq<char>>,
    m: nat,
    aligned: bool,
) -> Set<(int, int)> {
    Set::new(
        |p: (int, int)|
            {
                &&& 0 <= p.0 < m
                &&& 0 <= p.1 < secret.len()
                &&& guess[p.0] == secret[p.1]
                &&& (p.0 == p.1) == aligned
            },
    )
}

proof fn lemma_row_pairs(
    guess: Seq<Seq<char>>,
    secret: Seq<Seq<char>>,
    row: int,
    n: nat,
    aligned: bool,
)
    ensures
        row_pairs(guess, secret, row, n, aligned).finite(),
        row_pairs(guess, secret, row, n, aligned).len() == row_count(
            guess[row],
            row,
            secret,
            n,
            aligned,
        ),
    decreases n,
{
    let pairs = row_pairs(guess, secret, row, n, aligned);
    if n == 0 {
        assert(pairs =~= Set::empty());
    } else {
        let j = n - 1;
        let before = row_pairs(guess, secret, row, j as nat, aligned);
        lemma_row_pairs(guess, secret, row, j as nat, aligned);
        if secret[j] == guess[row] && (j == row) == aligned {
            assert(pairs =~= before.insert((row, j)));
        } else {
            assert(pairs =~= before);
        }
    }
}

proof fn lemma_pairs_upto(guess: Seq<Seq<char>>, secret: Seq<Seq<char>>, m: nat, aligned: bool)
    ensures
        pairs_upto(guess, secret, m, aligned).finite(),
        pairs_upto(guess, secret, m, aligned).len() == count_upto(guess, secret, m, aligned),
    decreases m,
{
    let pairs = pairs_upto(guess, secret, m, aligned);
    if m == 0 {
        assert(pairs =~= Set::empty());
    } else {
        let i = m - 1;
        let before = pairs_upto(guess, secret, i as nat, aligned);
        let row = row_pairs(guess, secret, i, secret.len(), aligned);
        lemma_pairs_upto(guess, secret, i as nat, aligned);
        lemma_row_pairs(guess, secret, i, secret.len(), aligned);
        assert(pairs =~= before + row);
        vstd::set_lib::lemma_set_disjoint_lens(before, row);
    }
}

/// The matches can be counted row by row: each symbol of the guess in turn,
/// against each position of the secret in turn.
pub proof fn lemma_matches_are_counted(guess: Seq<Seq<char>>, secret: Seq<Seq<char>>)
    ensures
        position_matches(guess, secret) == count_upto(guess, secret, guess.len(), true),
        colour_matches(guess, secret) == count_upto(guess, secret, guess.len(), false),
{
    lemma_pairs_upto(guess, secret, guess.len(), true);
    lemma_pairs_upto(guess, secret, guess.len(), false);
    assert(matching_pairs(guess, secret, true) =~= pairs_upto(guess, secret, guess.len(), true));
    assert(matching_pairs(guess, secret, false) =~= pairs_upto(
        guess,
        secret,
        guess.len(),
        false,
    ));
}

proof fn lemma_row_count_bound(symbol: Seq<char>, row: int, secret: Seq<Seq<char>>, n: nat)
    ensures
        row_count(symbol, row, secret, n, true) + row_count(symbol, row, secret, n, false) <= n,
    decreases n,
{
    if n > 0 {
        lemma_row_count_bound(symbol, row, secret, (n - 1) as nat);
    }
}

proof fn lemma_count_upto_bound(guess: Seq<Seq<char>>, secret: Seq<Seq<char>>, m: nat)
    ensures
        count_upto(guess, secret, m, true) + count_upto(guess, secret, m, false) <= m
            * secret.len(),
    decreases m,
{
    if m > 0 {
        let i = (m - 1) as nat;
        lemma_count_upto_bound(guess, secret, i);
        lemma_row_count_bound(guess[i as int], i as int, secret, secret.len());
        assert(i * secret.len() + secret.len() == m * secret.len()) by (nonlinear_arith)
            requires
                m == i + 1,
        ;
    }
}

/// Against a secret without repeated symbols, a symbol of the guess matches
/// at most one position, and it matches one exactly when the secret holds it
/// among the positions compared.
proof fn lemma_row_count_distinct(symbol: Seq<char>, row: int, secret: Seq<Seq<char>>, n: nat)
    requires
        secret.no_duplicates(),
        n <= secret.len(),
    ensures
        row_count(symbol, row, secret, n, true) + row_count(symbol, row, secret, n, false) <= 1,
        row_count(symbol, row, secret, n, true) + row_count(symbol, row, secret, n, false) == 1
            <==> exists|j: int| 0 <= j < n && secret[j] == symbol,
    decreases n,
{
    if n > 0 {
        let last = n - 1;
        lemma_row_count_distinct(symbol, row, secret, last as nat);
        if secret[last] != symbol {
            assert forall|j: int| 0 <= j < n && secret[j] == symbol implies 0 <= j < last by {}
        }
    }
}

proof fn lemma_count_upto_distinct(guess: Seq<Seq<char>>, secret: Seq<Seq<char>>, m: nat)
    requires
        secret.no_duplicates(),
        m <= guess.len(),
    ensures
        count_upto(guess, secret, m, true) + count_upto(guess, secret, m, false) <= m,
        count_upto(guess, secret, m, true) + count_upto(guess, secret, m, false) == m
            <==> forall|i: int| 0 <= i < m ==> secret.contains(#[trigger] guess[i]),
    decreases m,
{
    if m > 0 {
        let last = m - 1;
        lemma_count_upto_distinct(guess, secret, last as nat);
        lemma_row_count_distinct(guess[last], last, secret, secret.len());
        let earlier = count_upto(guess, secret, last as nat, true) + count_upto(
            guess,
            secret,
            last as nat,
            false,
        );
        let row = row_count(guess[last], last, secret, secret.len(), true) + row_count(
            guess[last],
            last,
            secret,
            secret.len(),
            false,
        );
        if earlier + row == m {
            assert(earlier == last && row == 1);
            assert(secret.contains(guess[last]));
        }
        if forall|i: int| 0 <= i < m ==> secret.contains(#[trigger] guess[i]) {
            assert(secret.contains(guess[last]));
            assert(row == 1);
        }
    }
}

proof fn lemma_aligned_row(symbol: Seq<char>, row: int, secret: Seq<Seq<char>>, n: nat)
    requires
        n <= secret.len(),
    ensures
        row_count(symbol, row, secret, n, true) == (if 0 <= row < n && secret[row] == symbol {
            1nat
        } else {
            0nat
        }),
    decreases n,
{
    if n > 0 {
        lemma_aligned_row(symbol, row, secret, (n - 1) as nat);
    }
}

proof fn lemma_aligned_upto(guess: Seq<Seq<char>>, secret: Seq<Seq<char>>, m: nat)
    requires
        m <= guess.len(),
    ensures
        count_upto(guess, secret, m, true) <= m,
        count_upto(guess, secret, m, true) == m <==> forall|i: int|
            0 <= i < m ==> i < secret.len() && #[trigger] guess[i] == secret[i],
    decreases m,
{
    if m > 0 {
        let last = m - 1;
        lemma_aligned_upto(guess, secret, last as nat);
        lemma_aligned_row(guess[last], last, secret, secret.len());
        if count_upto(guess, secret, m, true) == m {
            assert forall|i: int| 0 <= i < m implies i < secret.len() && #[trigger] guess[i]
                == secret[i] by {}
        }
    }
}

/// All matches together never exceed the number of pairs compared.
pub proof fn lemma_matches_bounded(guess: Seq<Seq<char>>, secret: Seq<Seq<char>>)
    ensures
        position_matches(guess, secret) + colour_matches(guess, secret) <= guess.len()
            * secret.len(),
        position_matches(guess, secret) <= guess.len(),
{
    lemma_matches_are_counted(guess, secret);
    lemma_count_upto_bound(guess, secret, guess.len());
    lemma_aligned_upto(guess, secret, guess.len());
}

/// A secret without repeated symbols, matched against itself, matches in
/// every position and in no other way.
pub proof fn lemma_secret_matches_itself(secret: Seq<Seq<char>>)
    requires
        secret.no_duplicates(),
    ensures
        position_matches(secret, secret) == secret.len(),
        colour_matches(secret, secret) == 0,
{
    lemma_matches_are_counted(secret, secret);
    lemma_count_upto_distinct(secret, secret, secret.len());
    lemma_aligned_upto(secret, secret, secret.len());
    assert forall|i: int| 0 <= i < secret.len() implies secret.contains(#[trigger] secret[i]) by {}
}

/// A secret without repeated symbols, each in its upper-case form, handed in
/// as a guess, scores a position match for every symbol and no colour match.
pub proof fn lemma_secret_scores_itself(secret: Seq<Seq<char>>)
    requires
        secret.no_duplicates(),
        normalized(secret) == secret,
    ensures
        guess_score(secret, secret) == (0nat, secret.len()),
{
    lemma_secret_matches_itself(secret);
}

/// Against a secret without repeated symbols, the position matches and the
/// colour matches of a guess together never exceed its length, and reach it
/// exactly when every symbol of the guess occurs somewhere in the secret.
pub proof fn lemma_matches_at_most_length(guess: Seq<Seq<char>>, secret: Seq<Seq<char>>)
    requires
        secret.no_duplicates(),
    ensures
        position_matches(guess, secret) + colour_matches(guess, secret) <= guess.len(),
        position_matches(guess, secret) + colour_matches(guess, secret) == guess.len()
            <==> forall|i: int| 0 <= i < guess.len() ==> secret.contains(#[trigger] guess[i]),
{
    lemma_matches_are_counted(guess, secret);
    lemma_count_upto_distinct(guess, secret, guess.len());
}

/// Against a secret without repeated symbols, the two numbers of a score
/// together never exceed the length of the guess, and reach it exactly when
/// the upper-case form of every token occurs somewhere in the secret.
pub proof fn lemma_score_at_most_length(guess: Seq<Seq<char>>, secret: Seq<Seq<char>>)
    requires
        secret.no_duplicates(),
    ensures
        guess_score(guess, secret).0 + guess_score(guess, secret).1 <= guess.len(),
        guess_score(guess, secret).0 + guess_score(guess, secret).1 == guess.len()
            <==> forall|i: int|
            0 <= i < guess.len() ==> secret.contains(uppercase(#[trigger] guess[i])),
{
    let upper = normalized(guess);
    lemma_matches_at_most_length(upper, secret);
    if forall|i: int| 0 <= i < guess.len() ==> secret.contains(uppercase(#[trigger] guess[i])) {
        assert forall|i: int| 0 <= i < upper.len() implies secret.contains(
            #[trigger] upper[i],
        ) by {
            assert(upper[i] == uppercase(guess[i]));
        }
    }
    if forall|i: int| 0 <= i < upper.len() ==> secret.contains(#[trigger] upper[i]) {
        assert forall|i: int| 0 <= i < guess.len() implies secret.contains(
            uppercase(#[trigger] guess[i]),
        ) by {
            assert(upper[i] == uppercase(guess[i]));
        }
    }
}

/// A guess as long as the secret matches it in every position exactly when
/// the two are the same sequence of symbols.
pub proof fn lemma_all_positions_match(guess: Seq<Seq<char>>, secret: Seq<Seq<char>>)
    requires
        guess.len() == secret.len(),
    ensures
        position_matches(guess, secret) <= secret.len(),
        position_matches(guess, secret) == secret.len() <==> guess == secret,
{
    lemma_matches_are_counted(guess, secret);
    lemma_aligned_upto(guess, secret, guess.len());
    if position_matches(guess, secret) == secret.len() {
        assert(guess =~= secret);
    }
}

/// Puts every token of the guess in upper case.
pub fn normalize(guess: &[String]) -> (r: Vec<String>)
    ensures
        r.deep_view() == normalized(guess.deep_view()),
        r.len() == guess.len(),
{
    let ghost g = guess.deep_view();
    let mut r: Vec<String> = Vec::new();
    let mut i: usize = 0;
    while i < guess.len()
        invariant
            i <= guess.len(),
            g == guess.deep_view(),
            r.deep_view() == normalized(g.take(i as int)),
        decreases guess.len() - i,
    {
        let ghost before = r.deep_view();
        let upper = guess[i].to_uppercase();
        r.push(upper);
        assert(before.push(upper@) == normalized(g.take(i + 1)));
        i += 1;
    }
    r
}

/// Scores a guess that is already in upper case: the colour matches, then the
/// position matches.
pub fn score(guess: &[String], secret: &[String]) -> (r: (i32, i32))
    requires
        guess.len() * secret.len() <= i32::MAX,
    ensures
        r.0 == colour_matches(guess.deep_view(), secret.deep_view()),
        r.1 == position_matches(guess.deep_view(), secret.deep_view()),
{
    let ghost g = guess.deep_view();
    let ghost s = secret.deep_view();
    let mut is_match: i32 = 0;
    let mut is_match_position: i32 = 0;
    let mut i: usize = 0;
    while i < guess.len()
        invariant
            i <= guess.len(),
            g == guess.deep_view(),
            s == secret.deep_view(),
            guess.len() * secret.len() <= i32::MAX,
            is_match == count_upto(g, s, i as nat, false),
            is_match_position == count_upto(g, s, i as nat, true),
        decreases guess.len() - i,
    {
        let ghost base_colour = is_match;
        let ghost base_position = is_match_position;
        proof {
            lemma_count_upto_bound(g, s, i as nat);
            assert((i + 1) * secret.len() <= guess.len() * secret.len()) by (nonlinear_arith)
                requires
                    i + 1 <= guess.len(),
            ;
            assert((i + 1) * secret.len() == i * secret.len() + secret.len())
                by (nonlinear_arith);
        }
        let mut j: usize = 0;
        while j < secret.len()
            invariant
                j <= secret.len(),
                i < guess.len(),
                g == guess.deep_view(),
                s == secret.deep_view(),
                is_match == base_colour + row_count(g[i as int], i as int, s, j as nat, false),
                is_match_position == base_position + row_count(
                    g[i as int],
                    i as int,
                    s,
                    j as nat,
                    true,
                ),
                base_colour + base_position + secret.len() <= i32::MAX,
                0 <= base_colour,
                0 <= base_position,
            decreases secret.len() - j,
        {
            proof {
                lemma_row_count_bound(g[i as int], i as int, s, j as nat);
            }
            if guess[i] == secret[j] {
                if i == j {
                    is_match_position += 1;
                } else {
                    is_match += 1;
                }
            }
            j += 1;
        }
        i += 1;
    }
    proof {
        lemma_matches_are_counted(g, s);
    }
    (is_match, is_match_position)
}

/// Scores a guess as the player wrote it: the colour matches, then the
/// position matches, of its upper-case form against the secret.
pub fn check_guess(guess: &[String], secret: &[String]) -> (r: (i32, i32))
    requires
        guess.len() * secret.len() <= i32::MAX,
    ensures
        (r.0 as nat, r.1 as nat) == guess_score(guess.deep_view(), secret.deep_view()),
        0 <= r.0 && 0 <= r.1,
        secret.deep_view().no_duplicates() ==> r.0 + r.1 <= guess.len(),
        secret.deep_view().no_duplicates() ==> (r.0 + r.1 == guess.len() <==> forall|i: int|
            0 <= i < guess.len() ==> secret.deep_view().contains(
                uppercase(#[trigger] guess.deep_view()[i]),
            )),
{
    let upper = normalize(guess);
    proof {
        if secret.deep_view().no_duplicates() {
            lemma_score_at_most_length(guess.deep_view(), secret.deep_view());
        }
    }
    score(upper.as_slice(), secret)
}

} // verus!
