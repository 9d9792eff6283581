//! Text handling for one line of input: trimming, splitting on a separator,
//! case normalisation and the writing of numbers and lists, each with its
//! mathematical meaning over `Seq<char>`.
//!
//! Four functions of the standard library are taken on trust here, as their
//! documentation describes them: `str::to_uppercase`, `char::is_whitespace`,
//! `String::push` and the `Debug` form of a slice of strings. All else in
//! this module is proved.

use vstd::prelude::*;

verus! {

/// The upper-case form of a text, as `str::to_uppercase` computes it.
///
/// The mapping follows the Unicode tables of the standard library; nothing is
/// stated here about its value on any particular text.
pub uninterp spec fn uppercase(s: Seq<char>) -> Seq<char>;

/// Trusted: `str::to_uppercase` returns a new `String` that holds the
/// upper-case form of the text, which depends on the text alone.
pub assume_specification[ str::to_uppercase ](s: &str) -> (r: String)
    ensures
        r@ == uppercase(s@),
;

/// Trusted: `String::push` appends the character to the end of the string
/// and leaves the rest as it was.
pub assume_specification[ String::push ](s: &mut String, c: char)
    ensures
        final(s)@ == old(s)@.push(c),
;

/// Whether a character has the Unicode property `White_Space`, as
/// `char::is_whitespace` decides it.
pub uninterp spec fn is_white_space(c: char) -> bool;

/// Trusted: `char::is_whitespace` says whether the character is white space,
/// which depends on the character alone.
pub assume_specification[ char::is_whitespace ](c: char) -> (b: bool)
    ensures
        b == is_white_space(c),
;

/// The text without the white space at its end.
pub open spec fn trimmed_end(s: Seq<char>) -> Seq<char>
    decreases s.len(),
{
    if s.len() > 0 && is_white_space(s.last()) {
        trimmed_end(s.drop_last())
    } else {
        s
    }
}

/// Removes trailing white space.
pub fn trim_end(s: &str) -> (r: String)
    ensures
        r@ == trimmed_end(s@),
{
    let mut kept = String::new();
    let mut pending = String::new();
    for c in it: s.chars()
        invariant
            it.seq() == s@,
            kept@ == trimmed_end(s@.take(it.index())),
            kept@ + pending@ == s@.take(it.index()),
    {
        assert(s@.take(it.index() + 1).drop_last() == s@.take(it.index()));
        if c.is_whitespace() {
            pending.push(c);
        } else {
            kept.append(pending.as_str());
            kept.push(c);
            pending = String::new();
        }
    }
    assert(s@.take(s@.len() as int) == s@);
    kept
}

/// What is trimmed is white space and nothing else: the result is the start
/// of the text, all that follows it is white space, and the result does not
/// end in white space.
pub proof fn lemma_trimmed_end(s: Seq<char>)
    ensures
        trimmed_end(s).len() <= s.len(),
        trimmed_end(s) == s.take(trimmed_end(s).len() as int),
        forall|k: int| trimmed_end(s).len() <= k < s.len() ==> is_white_space(#[trigger] s[k]),
        trimmed_end(s).len() > 0 ==> !is_white_space(trimmed_end(s).last()),
    decreases s.len(),
{
    if s.len() > 0 && is_white_space(s.last()) {
        let rest = s.drop_last();
        lemma_trimmed_end(rest);
        let n = trimmed_end(rest).len() as int;
        assert forall|k: int| n <= k < s.len() implies is_white_space(#[trigger] s[k]) by {
            if k < rest.len() {
                assert(rest[k] == s[k]);
            }
        }
    }
}

/// The fields of a text: the stretches between occurrences of `sep`, in order.
/// A text without `sep` is one field; separators that touch each other, or
/// the ends of the text, bound empty fields. The definition goes through the
/// text from its start: a separator opens a new field, any other character
/// is added to the last one.
pub open spec fn split_on(s: Seq<char>, sep: char) -> Seq<Seq<char>>
    decreases s.len(),
{
    if s.len() == 0 {
        seq![Seq::<char>::empty()]
    } else {
        let before = split_on(s.drop_last(), sep);
        if s.last() == sep {
            before.push(Seq::<char>::empty())
        } else {
            before.drop_last().push(before.last().push(s.last()))
        }
    }
}

/// The fields put together again, with `sep` between neighbours.
pub open spec fn joined(fields: Seq<Seq<char>>, sep: char) -> Seq<char>
    decreases fields.len(),
{
    if fields.len() == 0 {
        Seq::<char>::empty()
    } else if fields.len() == 1 {
        fields[0]
    } else {
        joined(fields.drop_last(), sep).push(sep) + fields.last()
    }
}

/// Splits a text at every occurrence of `sep`.
pub fn split(s: &str, sep: char) -> (parts: Vec<String>)
    ensures
        parts.deep_view() == split_on(s@, sep),
{
    let mut parts: Vec<String> = Vec::new();
    let mut field = String::new();
    for c in it: s.chars()
        invariant
            it.seq() == s@,
            parts.deep_view().push(field@) == split_on(s@.take(it.index()), sep),
    {
        assert(s@.take(it.index() + 1).drop_last() == s@.take(it.index()));
        if c == sep {
            parts.push(field);
            field = String::new();
        } else {
            field.push(c);
        }
    }
    assert(s@.take(s@.len() as int) == s@);
    parts.push(field);
    parts
}

/// Splitting loses nothing and cuts at every separator: there is at least one
/// field, no field holds the separator, and the fields joined by the
/// separator are the text.
pub proof fn lemma_split_on(s: Seq<char>, sep: char)
    ensures
        split_on(s, sep).len() >= 1,
        forall|i: int|
            0 <= i < split_on(s, sep).len() ==> !(#[trigger] split_on(s, sep)[i]).contains(sep),
        joined(split_on(s, sep), sep) == s,
    decreases s.len(),
{
    let fields = split_on(s, sep);
    if s.len() > 0 {
        let rest = s.drop_last();
        let before = split_on(rest, sep);
        lemma_split_on(rest, sep);
        if s.last() == sep {
            assert(fields.drop_last() == before);
        } else {
            let grown = before.last().push(s.last());
            assert(fields.drop_last() == before.drop_last());
            assert(rest.push(s.last()) == s);
            assert(!grown.contains(sep)) by {
                if grown.contains(sep) {
                    let k = choose|k: int| 0 <= k < grown.len() && grown[k] == sep;
                    assert(before.last().contains(sep));
                }
            }
        }
    }
}

/// Splitting is the only way to cut a text into fields without the
/// separator: whatever fields, none of them holding the separator, give the
/// text when joined by it, they are the fields that splitting finds.
pub proof fn lemma_split_on_is_unique(fields: Seq<Seq<char>>, s: Seq<char>, sep: char)
    requires
        fields.len() >= 1,
        forall|i: int| 0 <= i < fields.len() ==> !(#[trigger] fields[i]).contains(sep),
        joined(fields, sep) == s,
    ensures
        fields == split_on(s, sep),
    decreases s.len(),
{
    let front = fields.drop_last();
    if fields.last().len() == 0 {
        assert(fields.last() =~= Seq::<char>::empty());
        if fields.len() > 1 {
            assert(s.drop_last() =~= joined(front, sep));
            lemma_split_on_is_unique(front, s.drop_last(), sep);
        }
    } else {
        let tail = fields.last();
        let shorter = front.push(tail.drop_last());
        assert(shorter.drop_last() =~= front);
        assert(joined(shorter, sep) =~= s.drop_last());
        assert(!tail.drop_last().contains(sep)) by {
            if tail.drop_last().contains(sep) {
                let k = choose|k: int|
                    0 <= k < tail.drop_last().len() && tail.drop_last()[k] == sep;
                assert(tail[k] == sep);
            }
        }
        lemma_split_on_is_unique(shorter, s.drop_last(), sep);
        assert(tail.drop_last().push(tail.last()) =~= tail);
    }
}

/// The decimal digit that stands for `d`, for `d` below ten.
pub open spec fn digit(d: nat) -> char {
    seq!['0', '1', '2', '3', '4', '5', '6', '7', '8', '9'][d as int]
}

/// A number written in decimal, without leading zeros.
pub open spec fn decimal(n: nat) -> Seq<char>
    decreases n,
{
    if n < 10 {
        seq![digit(n)]
    } else {
        decimal(n / 10).push(digit(n % 10))
    }
}

/// The digit for a number below ten.
fn digit_of(d: usize) -> (c: char)
    requires
        d < 10,
    ensures
        c == digit(d as nat),
{
    match d {
        0 => '0',
        1 => '1',
        2 => '2',
        3 => '3',
        4 => '4',
        5 => '5',
        6 => '6',
        7 => '7',
        8 => '8',
        _ => '9',
    }
}

/// Writes a number in decimal.
pub fn to_decimal(n: usize) -> (r: String)
    ensures
        r@ == decimal(n as nat),
    decreases n,
{
    let mut r = if n < 10 {
        String::new()
    } else {
        to_decimal(n / 10)
    };
    r.push(digit_of(n % 10));
    r
}

/// The text that `{:?}` prints for a list of strings: the items between
/// square brackets, each quoted and escaped as the standard library does it.
pub uninterp spec fn debug_list(items: Seq<Seq<char>>) -> Seq<char>;

/// Trusted: `format!` with `{:?}` on a slice of strings gives the `Debug`
/// form of the slice, which depends on the texts alone.
#[verifier::external_body]
pub(crate) fn format_list(items: &[String]) -> (r: String)
    ensures
        r@ == debug_list(items.deep_view()),
{
    format!("{:?}", items)
}

} // verus!
