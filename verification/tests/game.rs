use mastermind::{colours, Game, InputError, Status, Turn, MAX_TURNS};

fn words(items: &[&str]) -> Vec<String> {
    items.iter().map(|s| s.to_string()).collect()
}

fn game(max_turns: u32) -> Game {
    Game::new(colours(), words(&["R", "G", "B", "Y"]), max_turns)
}

#[test]
fn the_default_limit_is_ten() {
    assert_eq!(MAX_TURNS, 10);
}

#[test]
fn a_new_game_waits_for_a_line() {
    let g = game(MAX_TURNS);
    assert_eq!(g.status(), Status::Prompting);
    assert_eq!(g.turns(), 0);
}

#[test]
fn the_right_guess_wins() {
    let mut g = game(MAX_TURNS);
    assert_eq!(g.submit(String::from("R G B Y\n")), Turn::Won);
    assert_eq!(g.status(), Status::Won);
    assert_eq!(g.turns(), 0);
}

#[test]
fn the_right_guess_wins_in_lower_case() {
    let mut g = game(MAX_TURNS);
    assert_eq!(g.submit(String::from("r g b y\n")), Turn::Won);
    assert_eq!(g.status(), Status::Won);
}

#[test]
fn a_shuffled_guess_is_scored_and_counted() {
    let mut g = game(MAX_TURNS);
    assert_eq!(
        g.submit(String::from("G R Y B\n")),
        Turn::Scored { colour_matches: 4, position_matches: 0 }
    );
    assert_eq!(g.status(), Status::Prompting);
    assert_eq!(g.turns(), 1);
}

#[test]
fn a_line_with_three_tokens_changes_nothing() {
    let mut g = game(MAX_TURNS);
    assert_eq!(
        g.submit(String::from("R G B\n")),
        Turn::Rejected(InputError::NotEnoughColours(3, 4))
    );
    assert_eq!(g.status(), Status::Prompting);
    assert_eq!(g.turns(), 0);
    assert_eq!(g.submit(String::from("R G B Y\n")), Turn::Won);
}

#[test]
fn rejected_lines_are_not_counted() {
    let mut g = game(2);
    assert_eq!(
        g.submit(String::from("R G B X\n")),
        Turn::Rejected(InputError::IllegalChoice(String::from("X")))
    );
    assert_eq!(
        g.submit(String::from("R R G B\n")),
        Turn::Rejected(InputError::ChoicesShouldBeUnique())
    );
    assert_eq!(
        g.submit(String::new()),
        Turn::Rejected(InputError::NotEnoughColours(1, 4))
    );
    assert_eq!(g.turns(), 0);
    assert_eq!(g.status(), Status::Prompting);
}

#[test]
fn the_last_guess_loses() {
    let mut g = game(3);
    assert_eq!(
        g.submit(String::from("R B P W")),
        Turn::Scored { colour_matches: 1, position_matches: 1 }
    );
    assert_eq!(
        g.submit(String::from("P W R G")),
        Turn::Scored { colour_matches: 2, position_matches: 0 }
    );
    assert_eq!(g.turns(), 2);
    assert_eq!(
        g.submit(String::from("R G Y B")),
        Turn::Lost { colour_matches: 2, position_matches: 2 }
    );
    assert_eq!(g.status(), Status::Lost);
    assert_eq!(g.turns(), 3);
}

#[test]
fn the_last_guess_can_still_win() {
    let mut g = game(2);
    assert_eq!(
        g.submit(String::from("Y B G R")),
        Turn::Scored { colour_matches: 4, position_matches: 0 }
    );
    assert_eq!(g.submit(String::from("R G B Y")), Turn::Won);
    assert_eq!(g.status(), Status::Won);
    assert_eq!(g.turns(), 1);
}

#[test]
fn ten_guesses_by_default() {
    let mut g = game(MAX_TURNS);
    for n in 1..10 {
        assert_eq!(
            g.submit(String::from("W P Y B")),
            Turn::Scored { colour_matches: 2, position_matches: 0 }
        );
        assert_eq!(g.turns(), n);
        assert_eq!(g.status(), Status::Prompting);
    }
    assert_eq!(
        g.submit(String::from("W P Y B")),
        Turn::Lost { colour_matches: 2, position_matches: 0 }
    );
    assert_eq!(g.turns(), 10);
    assert_eq!(g.status(), Status::Lost);
}

#[test]
fn nothing_happens_after_the_end() {
    let mut g = game(1);
    assert_eq!(
        g.submit(String::from("W P Y B")),
        Turn::Lost { colour_matches: 2, position_matches: 0 }
    );
    assert_eq!(g.submit(String::from("R G B Y")), Turn::Finished);
    assert_eq!(g.submit(String::from("nonsense")), Turn::Finished);
    assert_eq!(g.status(), Status::Lost);
    assert_eq!(g.turns(), 1);

    let mut g = game(5);
    assert_eq!(g.submit(String::from("R G B Y")), Turn::Won);
    assert_eq!(g.submit(String::from("W P Y B")), Turn::Finished);
    assert_eq!(g.status(), Status::Won);
    assert_eq!(g.turns(), 0);
}

#[test]
fn a_game_without_guesses_is_lost_at_once() {
    let mut g = game(0);
    assert_eq!(g.status(), Status::Lost);
    assert_eq!(g.submit(String::from("R G B Y")), Turn::Finished);
    assert_eq!(g.turns(), 0);
}

#[test]
fn the_length_of_the_secret_is_the_length_of_a_guess() {
    let mut g = Game::new(colours(), words(&["W", "P"]), 3);
    assert_eq!(
        g.submit(String::from("R G B Y")),
        Turn::Rejected(InputError::NotEnoughColours(4, 2))
    );
    assert_eq!(
        g.submit(String::from("P W")),
        Turn::Scored { colour_matches: 2, position_matches: 0 }
    );
    assert_eq!(g.submit(String::from("w p")), Turn::Won);
}

#[test]
fn a_started_game_has_a_secret_to_find() {
    let palette = colours();
    let mut g = Game::start(palette.clone(), 1000);
    assert_eq!(g.status(), Status::Prompting);
    assert_eq!(g.turns(), 0);
    // Some arrangement of four of the six colours is the secret.
    let mut won = false;
    'search: for a in &palette {
        for b in &palette {
            for c in &palette {
                for d in &palette {
                    if a == b || a == c || a == d || b == c || b == d || c == d {
                        continue;
                    }
                    let line = format!("{} {} {} {}", a, b, c, d);
                    match g.submit(line) {
                        Turn::Won => {
                            won = true;
                            break 'search;
                        }
                        Turn::Scored { colour_matches, position_matches } => {
                            assert!(colour_matches + position_matches >= 2);
                            assert!(colour_matches + position_matches <= 4);
                            assert!(position_matches < 4);
                        }
                        other => panic!("unexpected turn: {:?}", other),
                    }
                }
            }
        }
    }
    assert!(won);
    assert_eq!(g.status(), Status::Won);
}
