//! The colours of the game.

use crate::text::uppercase;
use crate::validate::is_unique_arr;
use vstd::prelude::*;

verus! {

/// Whether a list of colours can serve as a palette: no colour occurs twice,
/// and each is written in its upper-case form, which is the form in which a
/// token is looked up.
pub open spec fn is_playable(palette: Seq<Seq<char>>) -> bool {
    &&& palette.no_duplicates()
    &&& forall|i: int| 0 <= i < palette.len() ==> uppercase(#[trigger] palette[i]) == palette[i]
}

/// Tests whether a list of colours can serve as a palette.
pub fn is_palette(colours: &[String]) -> (ok: bool)
    ensures
        ok == is_playable(colours.deep_view()),
{
    let mut i: usize = 0;
    while i < colours.len()
        invariant
            i <= colours.len(),
            forall|k: int|
                0 <= k < i ==> uppercase(#[trigger] colours.deep_view()[k])
                    == colours.deep_view()[k],
        decreases colours.len() - i,
    {
        let upper = colours[i].to_uppercase();
        if upper != colours[i] {
            assert(uppercase(colours.deep_view()[i as int]) != colours.deep_view()[i as int]);
            return false;
        }
        i += 1;
    }
    is_unique_arr(colours)
}

/// The six colours, by their one-letter codes and in their fixed order:
/// yellow, blue, red, purple, green, white.
pub open spec fn standard_palette() -> Seq<Seq<char>> {
    seq![seq!['Y'], seq!['B'], seq!['R'], seq!['P'], seq!['G'], seq!['W']]
}

/// The standard palette holds six colours, no two the same.
pub proof fn lemma_standard_palette()
    ensures
        standard_palette().len() == 6,
        standard_palette().no_duplicates(),
{
    let p = standard_palette();
    assert forall|i: int, j: int| 0 <= i < p.len() && 0 <= j < p.len() && i != j implies p[i]
        != p[j] by {
        assert(p[i][0] != p[j][0]);
    }
}

/// The standard palette.
pub fn colours() -> (palette: Vec<String>)
    ensures
        palette.deep_view() == standard_palette(),
        palette.len() == 6,
{
    proof {
        reveal_strlit("Y");
        reveal_strlit("B");
        reveal_strlit("R");
        reveal_strlit("P");
        reveal_strlit("G");
        reveal_strlit("W");
    }
    let mut palette: Vec<String> = Vec::new();
    palette.push("Y".to_owned());
    palette.push("B".to_owned());
    palette.push("R".to_owned());
    palette.push("P".to_owned());
    palette.push("G".to_owned());
    palette.push("W".to_owned());
    proof {
        let p = palette.deep_view();
        assert(p[0] =~= seq!['Y']);
        assert(p[1] =~= seq!['B']);
        assert(p[2] =~= seq!['R']);
        assert(p[3] =~= seq!['P']);
        assert(p[4] =~= seq!['G']);
        assert(p[5] =~= seq!['W']);
    }
    palette
}

} // verus!
