use mastermind::text::{split, to_decimal, trim_end};

#[test]
fn split_cuts_at_every_space() {
    assert_eq!(split("R G B Y", ' '), vec!["R", "G", "B", "Y"]);
    assert_eq!(split("", ' '), vec![""]);
    assert_eq!(split(" ", ' '), vec!["", ""]);
    assert_eq!(split("a  b", ' '), vec!["a", "", "b"]);
    assert_eq!(split(" a b ", ' '), vec!["", "a", "b", ""]);
    assert_eq!(split("abc", ' '), vec!["abc"]);
}

#[test]
fn split_agrees_with_the_standard_library() {
    let samples = [
        "", " ", "  ", "R G B Y", " R", "R ", "a  b   c", "x,y z", "ß é  ü", "\tR G\n",
        "one two three four five six",
    ];
    for s in samples {
        for sep in [' ', ',', 'R', 'é'] {
            let expected: Vec<String> = s.split(sep).map(str::to_string).collect();
            assert_eq!(split(s, sep), expected);
        }
    }
}

#[test]
fn trim_end_drops_trailing_white_space_only() {
    assert_eq!(trim_end("R G B Y\n"), "R G B Y");
    assert_eq!(trim_end("R G B Y \r\n"), "R G B Y");
    assert_eq!(trim_end("  R G  "), "  R G");
    assert_eq!(trim_end(""), "");
    assert_eq!(trim_end(" \t\n"), "");
    assert_eq!(trim_end("abc"), "abc");
}

#[test]
fn trim_end_agrees_with_the_standard_library() {
    let samples = [
        "", " ", "\n", "a", "a ", " a", "a b \t\r\n", "a\u{3000}", "a\u{a0}\u{2003}", "a\u{200b}",
        "é \u{85}", "x\u{1680}y\u{1680}", "\u{feff}",
    ];
    for s in samples {
        assert_eq!(trim_end(s), s.trim_end());
    }
}

#[test]
fn decimal_of_small_and_large_numbers() {
    assert_eq!(to_decimal(0), "0");
    assert_eq!(to_decimal(7), "7");
    assert_eq!(to_decimal(10), "10");
    assert_eq!(to_decimal(407), "407");
    assert_eq!(to_decimal(1234567890), "1234567890");
    assert_eq!(to_decimal(usize::MAX), format!("{}", usize::MAX));
}

#[test]
fn decimal_agrees_with_the_standard_library() {
    let mut n: usize = 0;
    while n < 2000 {
        assert_eq!(to_decimal(n), format!("{}", n));
        n += 1;
    }
    let mut n: usize = 1;
    while n < usize::MAX / 7 {
        assert_eq!(to_decimal(n), format!("{}", n));
        assert_eq!(to_decimal(n - 1), format!("{}", n - 1));
        n *= 7;
    }
}
