//! Validation of one line of player input against a palette.

use crate::text::{
    debug_list, decimal, format_list, split, split_on, to_decimal, trim_end, trimmed_end, uppercase,
};
use vstd::prelude::*;

verus! {

/// Why a line of input is not a guess.
#[derive(Debug, PartialEq, Eq)]
pub enum InputError {
    /// The line holds the first number of tokens where the second is needed.
    NotEnoughColours(usize, usize),
    /// The token, as the player wrote it, names no colour of the palette.
    IllegalChoice(String),
    /// Some token occurs twice.
    ChoicesShouldBeUnique(),
}

/// The mathematical content of an [`InputError`].
pub enum Rejection {
    /// The line holds `given` tokens where `expected` are needed.
    WrongCount { given: nat, expected: nat },
    /// The token, as written, whose upper-case form is no colour of the palette.
    InvalidSymbol(Seq<char>),
    /// Two tokens are the same.
    DuplicateSymbol,
}

/// What validation makes of a line: the guess, or the reason why it is none.
pub type Verdict = Result<Seq<Seq<char>>, Rejection>;

impl View for InputError {
    type V = Rejection;

    open spec fn view(&self) -> Rejection {
        match self {
            InputError::NotEnoughColours(given, expected) => Rejection::WrongCount {
                given: *given as nat,
                expected: *expected as nat,
            },
            InputError::IllegalChoice(token) => Rejection::InvalidSymbol(token@),
            InputError::ChoicesShouldBeUnique() => Rejection::DuplicateSymbol,
        }
    }
}

/// The sentence that tells the player of a rejection. `palette` is the list of
/// colours that the sentence for an invalid symbol offers.
pub open spec fn message_text(e: Rejection, palette: Seq<Seq<char>>) -> Seq<char> {
    match e {
        Rejection::WrongCount { given, expected } => {
            "Incorrect number of chosen colours, given "@ + decimal(given) + ", need "@ + decimal(
                expected,
            )
        },
        Rejection::InvalidSymbol(token) => {
            "Incorrect choice "@ + token + ", please use any of "@ + debug_list(palette)
        },
        Rejection::DuplicateSymbol => "Choose unique colours please"@,
    }
}

impl InputError {
    /// The sentence that tells the player what was wrong with the line.
    pub fn message(&self, palette: &[String]) -> (text: String)
        ensures
            text@ == message_text(self@, palette.deep_view()),
    {
        match self {
            InputError::NotEnoughColours(given, expected) => {
                let mut text = "Incorrect number of chosen colours, given ".to_owned();
                text.append(to_decimal(*given).as_str());
                text.append(", need ");
                text.append(to_decimal(*expected).as_str());
                text
            },
            InputError::IllegalChoice(choice) => {
                let mut text = "Incorrect choice ".to_owned();
                text.append(choice.as_str());
                text.append(", please use any of ");
                text.append(format_list(palette).as_str());
                text
            },
            InputError::ChoicesShouldBeUnique() => "Choose unique colours please".to_owned(),
        }
    }
}

/// The tokens of a line: trailing white space is dropped, then the line is cut
/// at every single space. Two spaces in a row enclose an empty token.
pub open spec fn tokens(line: Seq<char>) -> Seq<Seq<char>> {
    split_on(trimmed_end(line), ' ')
}

/// A token is legal when its upper-case form is a colour of the palette.
pub open spec fn is_legal(token: Seq<char>, palette: Seq<Seq<char>>) -> bool {
    palette.contains(uppercase(token))
}

/// Whether `i` is the position of the first token that is not legal.
pub open spec fn is_first_illegal(toks: Seq<Seq<char>>, palette: Seq<Seq<char>>, i: int) -> bool {
    &&& 0 <= i < toks.len()
    &&& !is_legal(toks[i], palette)
    &&& forall|j: int| 0 <= j < i ==> is_legal(#[trigger] toks[j], palette)
}

/// What validation makes of a line. The checks run in a fixed order and the
/// first that fails decides: the number of tokens, then the legality of each
/// token from left to right, then their distinctness. Tokens are compared for
/// distinctness as written, so `r` and `R` are two different tokens.
pub open spec fn validation(line: Seq<char>, expected: nat, palette: Seq<Seq<char>>) -> Verdict {
    let toks = tokens(line);
    if toks.len() != expected {
        Err(Rejection::WrongCount { given: toks.len(), expected })
    } else if exists|i: int| is_first_illegal(toks, palette, i) {
        Err(Rejection::InvalidSymbol(toks[choose|i: int| is_first_illegal(toks, palette, i)]))
    } else if !toks.no_duplicates() {
        Err(Rejection::DuplicateSymbol)
    } else {
        Ok(toks)
    }
}

/// Where some token is not legal, there is a first one.
proof fn lemma_first_illegal_exists(toks: Seq<Seq<char>>, palette: Seq<Seq<char>>, i: int)
    requires
        0 <= i < toks.len(),
        !is_legal(toks[i], palette),
    ensures
        exists|k: int| 0 <= k <= i && is_first_illegal(toks, palette, k),
    decreases i,
{
    if forall|j: int| 0 <= j < i ==> is_legal(#[trigger] toks[j], palette) {
        assert(is_first_illegal(toks, palette, i));
    } else {
        let j = choose|j: int| 0 <= j < i && !is_legal(#[trigger] toks[j], palette);
        lemma_first_illegal_exists(toks, palette, j);
    }
}

/// A line is accepted exactly when it holds the expected number of tokens, all
/// of them legal and no two the same; the guess is then the tokens as written.
pub proof fn lemma_accepted(line: Seq<char>, expected: nat, palette: Seq<Seq<char>>)
    ensures
        validation(line, expected, palette) is Ok <==> {
            &&& tokens(line).len() == expected
            &&& forall|i: int|
                0 <= i < tokens(line).len() ==> is_legal(#[trigger] tokens(line)[i], palette)
            &&& tokens(line).no_duplicates()
        },
        validation(line, expected, palette) is Ok ==> validation(line, expected, palette)
            == Verdict::Ok(tokens(line)),
{
    let toks = tokens(line);
    if exists|i: int| 0 <= i < toks.len() && !is_legal(#[trigger] toks[i], palette) {
        let i = choose|i: int| 0 <= i < toks.len() && !is_legal(#[trigger] toks[i], palette);
        lemma_first_illegal_exists(toks, palette, i);
    }
}

/// A line with another number of tokens than expected is rejected, whatever
/// else it holds, and the error reports both numbers.
pub proof fn lemma_wrong_count_is_rejected(
    line: Seq<char>,
    expected: nat,
    palette: Seq<Seq<char>>,
)
    requires
        tokens(line).len() != expected,
    ensures
        validation(line, expected, palette) == Verdict::Err(
            Rejection::WrongCount { given: tokens(line).len(), expected },
        ),
{
}

/// A line with a token that is not legal is rejected. Where the number of
/// tokens is right, the error names the first such token as it was written.
pub proof fn lemma_illegal_token_is_rejected(
    line: Seq<char>,
    expected: nat,
    palette: Seq<Seq<char>>,
    i: int,
)
    requires
        0 <= i < tokens(line).len(),
        !is_legal(tokens(line)[i], palette),
    ensures
        validation(line, expected, palette) is Err,
        tokens(line).len() == expected ==> exists|k: int|
            0 <= k <= i && is_first_illegal(tokens(line), palette, k) && validation(
                line,
                expected,
                palette,
            ) == Verdict::Err(Rejection::InvalidSymbol(tokens(line)[k])),
{
    let toks = tokens(line);
    lemma_first_illegal_exists(toks, palette, i);
    if toks.len() == expected {
        let k = choose|k: int| 0 <= k <= i && is_first_illegal(toks, palette, k);
        let first = choose|f: int| is_first_illegal(toks, palette, f);
        assert(first == k);
    }
}

/// A line in which a token occurs twice is rejected. Where the number of tokens
/// is right and every token is legal, the error says that tokens must differ.
pub proof fn lemma_repeated_token_is_rejected(
    line: Seq<char>,
    expected: nat,
    palette: Seq<Seq<char>>,
)
    requires
        !tokens(line).no_duplicates(),
    ensures
        validation(line, expected, palette) is Err,
        tokens(line).len() == expected && (forall|i: int|
            0 <= i < tokens(line).len() ==> is_legal(#[trigger] tokens(line)[i], palette))
            ==> validation(line, expected, palette) == Verdict::Err(Rejection::DuplicateSymbol),
{
}

/// Whether `symbol` is one of `palette`.
pub fn is_member(palette: &[String], symbol: &String) -> (found: bool)
    ensures
        found == palette.deep_view().contains(symbol@),
{
    let mut k: usize = 0;
    while k < palette.len()
        invariant
            k <= palette.len(),
            forall|j: int| 0 <= j < k ==> palette.deep_view()[j] != symbol@,
        decreases palette.len() - k,
    {
        if palette[k] == *symbol {
            assert(palette.deep_view()[k as int] == symbol@);
            return true;
        }
        k += 1;
    }
    false
}

/// Whether no two elements of `vec` are the same text.
pub fn is_unique_arr(vec: &[String]) -> (unique: bool)
    ensures
        unique == vec.deep_view().no_duplicates(),
{
    let mut i: usize = 0;
    while i < vec.len()
        invariant
            i <= vec.len(),
            forall|a: int, b: int|
                0 <= a < i && 0 <= b < vec.len() && a != b ==> vec.deep_view()[a]
                    != vec.deep_view()[b],
        decreases vec.len() - i,
    {
        let mut j: usize = i + 1;
        while j < vec.len()
            invariant
                i < j <= vec.len(),
                forall|b: int| i < b < j ==> vec.deep_view()[i as int] != vec.deep_view()[b],
            decreases vec.len() - j,
        {
            if vec[i] == vec[j] {
                assert(vec.deep_view()[i as int] == vec.deep_view()[j as int]);
                return false;
            }
            j += 1;
        }
        i += 1;
    }
    true
}

/// Validates a line of input: `Ok` with the tokens as the player wrote them,
/// or the first reason why the line is no guess.
pub fn validate_input(input: String, expected: usize, palette: &[String]) -> (r: Result<
    Vec<String>,
    InputError,
>)
    ensures
        match r {
            Ok(guess) => validation(input@, expected as nat, palette.deep_view()) == Verdict::Ok(
                guess.deep_view(),
            ),
            Err(e) => validation(input@, expected as nat, palette.deep_view()) == Verdict::Err(e@),
        },
        r matches Ok(guess) ==> guess.len() == expected,
{
    let cleaned = trim_end(input.as_str());
    let parts = split(cleaned.as_str(), ' ');
    let ghost toks = parts.deep_view();
    let ghost pal = palette.deep_view();
    if parts.len() != expected {
        return Err(InputError::NotEnoughColours(parts.len(), expected));
    }
    let mut k: usize = 0;
    while k < parts.len()
        invariant
            k <= parts.len(),
            toks == parts.deep_view(),
            toks == tokens(input@),
            toks.len() == expected,
            pal == palette.deep_view(),
            forall|j: int| 0 <= j < k ==> is_legal(#[trigger] toks[j], pal),
        decreases parts.len() - k,
    {
        let upper = parts[k].to_uppercase();
        if !is_member(palette, &upper) {
            let token = parts[k].clone();
            proof {
                assert(is_first_illegal(toks, pal, k as int));
                let first = choose|i: int| is_first_illegal(toks, pal, i);
                assert(first == k);
            }
            return Err(InputError::IllegalChoice(token));
        }
        k += 1;
    }
    if !is_unique_arr(parts.as_slice()) {
        return Err(InputError::ChoicesShouldBeUnique());
    }
    Ok(parts)
}

} // verus!
