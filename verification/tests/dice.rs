use beacon_rand::dice::parse_dice;
use beacon_rand::dice::parse_modifier;
use beacon_rand::dice::parse_term;
use beacon_rand::dice::split_notation;
use beacon_rand::dice::Dice;
use beacon_rand::dice::Term;

#[test]
fn parse_dice_accepts_count_d_faces() {
    assert_eq!(parse_dice("2d6"), Some(Dice { face: 6, count: 2 }));
    assert_eq!(parse_dice("2D6"), Some(Dice { face: 6, count: 2 }));
    assert_eq!(parse_dice("1d20"), Some(Dice { face: 20, count: 1 }));
    assert_eq!(parse_dice("10d100"), Some(Dice { face: 100, count: 10 }));
}

#[test]
fn parse_dice_normalizes_like_a_decimal_parse() {
    assert_eq!(parse_dice(" 2D6 "), Some(Dice { face: 6, count: 2 }));
    assert_eq!(parse_dice("\t1d8\n"), Some(Dice { face: 8, count: 1 }));
    assert_eq!(parse_dice(" 2d6"), parse_dice("2d6"));
    assert_eq!(parse_dice("+2d6"), Some(Dice { face: 6, count: 2 }));
    assert_eq!(parse_dice("2d+6"), Some(Dice { face: 6, count: 2 }));
    assert_eq!(parse_dice("2d-6"), None);
    assert_eq!(parse_dice("   "), None);
    assert_eq!(parse_dice("2 d6"), None);
}

#[test]
fn parse_dice_rejects_malformed_terms() {
    assert_eq!(parse_dice(""), None);
    assert_eq!(parse_dice("3"), None);
    assert_eq!(parse_dice("d6"), None);
    assert_eq!(parse_dice("2d"), None);
    assert_eq!(parse_dice("2d6d8"), None);
    assert_eq!(parse_dice("0d6"), None);
    assert_eq!(parse_dice("2d0"), None);
    assert_eq!(parse_dice("2x6"), None);
    assert_eq!(parse_dice("-2d6"), None);
}

#[test]
fn split_notation_cuts_at_signs() {
    let terms = split_notation("2d6+3-1");
    assert_eq!(terms, vec!["2d6", "+3", "-1"]);
    assert_eq!(split_notation(""), Vec::<String>::new());
    assert_eq!(split_notation("4d8"), vec!["4d8"]);
    assert_eq!(split_notation("+3"), vec!["", "+3"]);
    assert_eq!(split_notation("1d4+-2"), vec!["1d4", "+", "-2"]);
}

#[test]
fn parse_modifier_handles_signs() {
    assert_eq!(parse_modifier("12"), Some(12));
    assert_eq!(parse_modifier("+3"), Some(3));
    assert_eq!(parse_modifier("-4"), Some(-4));
    assert_eq!(parse_modifier(""), None);
    assert_eq!(parse_modifier("-"), None);
    assert_eq!(parse_modifier("2d6"), None);
}

#[test]
fn parse_term_classifies() {
    assert_eq!(parse_term("3"), Term::Modifier(3));
    assert_eq!(parse_term("-2"), Term::Modifier(-2));
    assert_eq!(parse_term("2d6"), Term::Die(Dice { face: 6, count: 2 }));
    assert_eq!(parse_term("nonsense"), Term::Invalid);
}
