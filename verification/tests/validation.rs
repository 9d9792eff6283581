use mastermind::{colours, is_palette, is_unique_arr, validate_input, InputError};

fn words(items: &[&str]) -> Vec<String> {
    items.iter().map(|s| s.to_string()).collect()
}

#[test]
fn accepts_four_distinct_colours() {
    let r = validate_input(String::from("R G B Y"), 4, &colours());
    assert_eq!(r, Ok(words(&["R", "G", "B", "Y"])));
}

#[test]
fn strips_the_end_of_the_line() {
    let palette = colours();
    assert_eq!(
        validate_input(String::from("R G B Y\n"), 4, &palette),
        Ok(words(&["R", "G", "B", "Y"]))
    );
    assert_eq!(
        validate_input(String::from("R G B Y\r\n"), 4, &palette),
        Ok(words(&["R", "G", "B", "Y"]))
    );
    assert_eq!(
        validate_input(String::from("R G B Y  \t \n"), 4, &palette),
        Ok(words(&["R", "G", "B", "Y"]))
    );
}

#[test]
fn keeps_the_tokens_as_written() {
    let r = validate_input(String::from("r g B y"), 4, &colours());
    assert_eq!(r, Ok(words(&["r", "g", "B", "y"])));
}

#[test]
fn three_tokens_are_the_wrong_count() {
    let r = validate_input(String::from("R G B"), 4, &colours());
    assert_eq!(r, Err(InputError::NotEnoughColours(3, 4)));
}

#[test]
fn five_tokens_are_the_wrong_count() {
    let r = validate_input(String::from("R G B Y W"), 4, &colours());
    assert_eq!(r, Err(InputError::NotEnoughColours(5, 4)));
}

#[test]
fn an_empty_line_is_one_empty_token() {
    let palette = colours();
    assert_eq!(
        validate_input(String::new(), 4, &palette),
        Err(InputError::NotEnoughColours(1, 4))
    );
    assert_eq!(
        validate_input(String::from("\n"), 4, &palette),
        Err(InputError::NotEnoughColours(1, 4))
    );
    assert_eq!(
        validate_input(String::from("   \n"), 4, &palette),
        Err(InputError::NotEnoughColours(1, 4))
    );
}

#[test]
fn a_leading_space_makes_an_empty_token() {
    let palette = colours();
    assert_eq!(
        validate_input(String::from(" R G B Y"), 4, &palette),
        Err(InputError::NotEnoughColours(5, 4))
    );
    assert_eq!(
        validate_input(String::from(" R G B"), 4, &palette),
        Err(InputError::IllegalChoice(String::new()))
    );
}

#[test]
fn two_spaces_in_a_row_make_an_empty_token() {
    let r = validate_input(String::from("R  G B"), 4, &colours());
    assert_eq!(r, Err(InputError::IllegalChoice(String::new())));
}

#[test]
fn a_tab_does_not_separate() {
    let r = validate_input(String::from("R\tG B Y W"), 4, &colours());
    assert_eq!(r, Err(InputError::IllegalChoice(String::from("R\tG"))));
}

#[test]
fn an_unknown_colour_is_cited() {
    let r = validate_input(String::from("R G B X"), 4, &colours());
    assert_eq!(r, Err(InputError::IllegalChoice(String::from("X"))));
}

#[test]
fn an_unknown_colour_is_cited_as_written() {
    let r = validate_input(String::from("R g x B"), 4, &colours());
    assert_eq!(r, Err(InputError::IllegalChoice(String::from("x"))));
}

#[test]
fn the_first_unknown_colour_is_cited() {
    let r = validate_input(String::from("R Q B X"), 4, &colours());
    assert_eq!(r, Err(InputError::IllegalChoice(String::from("Q"))));
}

#[test]
fn a_longer_token_is_no_colour() {
    let r = validate_input(String::from("RR G B Y"), 4, &colours());
    assert_eq!(r, Err(InputError::IllegalChoice(String::from("RR"))));
}

#[test]
fn a_repeated_colour_is_rejected() {
    let r = validate_input(String::from("R R G B"), 4, &colours());
    assert_eq!(r, Err(InputError::ChoicesShouldBeUnique()));
}

#[test]
fn a_repeated_colour_is_rejected_in_lower_case() {
    let r = validate_input(String::from("g b y g"), 4, &colours());
    assert_eq!(r, Err(InputError::ChoicesShouldBeUnique()));
}

#[test]
fn tokens_that_differ_in_case_are_not_repeated() {
    let r = validate_input(String::from("r R G B"), 4, &colours());
    assert_eq!(r, Ok(words(&["r", "R", "G", "B"])));
}

#[test]
fn the_count_is_checked_before_the_colours() {
    let r = validate_input(String::from("X X X"), 4, &colours());
    assert_eq!(r, Err(InputError::NotEnoughColours(3, 4)));
}

#[test]
fn the_colours_are_checked_before_repetition() {
    let r = validate_input(String::from("R R G X"), 4, &colours());
    assert_eq!(r, Err(InputError::IllegalChoice(String::from("X"))));
}

#[test]
fn another_palette_and_length() {
    let palette = words(&["ONE", "TWO", "THREE"]);
    assert_eq!(
        validate_input(String::from("two one"), 2, &palette),
        Ok(words(&["two", "one"]))
    );
    assert_eq!(
        validate_input(String::from("two R"), 2, &palette),
        Err(InputError::IllegalChoice(String::from("R")))
    );
    assert_eq!(
        validate_input(String::from("two one three"), 2, &palette),
        Err(InputError::NotEnoughColours(3, 2))
    );
}

#[test]
fn a_palette_in_lower_case_accepts_nothing() {
    let palette = words(&["y", "b", "r", "p", "g", "w"]);
    assert_eq!(
        validate_input(String::from("r g b y"), 4, &palette),
        Err(InputError::IllegalChoice(String::from("r")))
    );
}

#[test]
fn upper_case_can_be_longer_than_the_token() {
    let palette = words(&["SS", "A"]);
    assert_eq!(
        validate_input(String::from("ß a"), 2, &palette),
        Ok(words(&["ß", "a"]))
    );
}

#[test]
fn unique_arr_finds_repetitions() {
    assert!(is_unique_arr(&words(&[])));
    assert!(is_unique_arr(&words(&["R"])));
    assert!(is_unique_arr(&words(&["R", "G", "B", "Y"])));
    assert!(is_unique_arr(&words(&["R", "r"])));
    assert!(is_unique_arr(&words(&["", "R"])));
    assert!(!is_unique_arr(&words(&["R", "R"])));
    assert!(!is_unique_arr(&words(&["R", "G", "B", "R"])));
    assert!(!is_unique_arr(&words(&["G", "B", "B", "R"])));
    assert!(!is_unique_arr(&words(&["", "R", ""])));
}

#[test]
fn the_standard_palette() {
    assert_eq!(colours(), words(&["Y", "B", "R", "P", "G", "W"]));
    assert!(is_unique_arr(&colours()));
}

#[test]
fn message_for_a_wrong_count() {
    let e = InputError::NotEnoughColours(3, 4);
    assert_eq!(
        e.message(&colours()),
        "Incorrect number of chosen colours, given 3, need 4"
    );
    let e = InputError::NotEnoughColours(12, 4);
    assert_eq!(
        e.message(&colours()),
        "Incorrect number of chosen colours, given 12, need 4"
    );
}

#[test]
fn message_for_an_unknown_colour() {
    let e = InputError::IllegalChoice(String::from("X"));
    assert_eq!(
        e.message(&colours()),
        "Incorrect choice X, please use any of [\"Y\", \"B\", \"R\", \"P\", \"G\", \"W\"]"
    );
}

#[test]
fn message_for_a_repeated_colour() {
    let e = InputError::ChoicesShouldBeUnique();
    assert_eq!(e.message(&colours()), "Choose unique colours please");
}

#[test]
fn messages_of_validation() {
    let palette = colours();
    let text = |line: &str| match validate_input(String::from(line), 4, &palette) {
        Ok(_) => String::from("accepted"),
        Err(e) => e.message(&palette),
    };
    assert_eq!(text("R G B"), "Incorrect number of chosen colours, given 3, need 4");
    assert_eq!(
        text("R G B X"),
        "Incorrect choice X, please use any of [\"Y\", \"B\", \"R\", \"P\", \"G\", \"W\"]"
    );
    assert_eq!(text("R R G B"), "Choose unique colours please");
    assert_eq!(text("R G B Y"), "accepted");
}

#[test]
fn palettes_that_can_be_played_with() {
    assert!(is_palette(&colours()));
    assert!(is_palette(&words(&[])));
    assert!(is_palette(&words(&["RED", "GREEN", "1", "É"])));
    assert!(!is_palette(&words(&["Y", "B", "R", "P", "G", "y"])));
    assert!(!is_palette(&words(&["Y", "B", "R", "P", "G", "Y"])));
    assert!(!is_palette(&words(&["y", "b", "r", "p", "g", "w"])));
    assert!(!is_palette(&words(&["Red"])));
    assert!(!is_palette(&words(&["ß"])));
}
