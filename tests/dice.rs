use dice_roller::parse::{split_dice_string, split_die, split_on_char};
use dice_roller::roll::{roll_dice, roll_expression, term_total, total_roll, DiceError, TermRoll};

#[test]
fn splits_modifiers_and_die_terms_in_order() {
    let (modifiers, terms) = split_dice_string("1d6+3+2d4+5");
    assert_eq!(modifiers, vec![3, 5]);
    assert_eq!(terms, vec!["1d6", "2d4"]);
}

#[test]
fn negative_and_signed_modifiers() {
    let (modifiers, terms) = split_dice_string("-4+2d6+007");
    assert_eq!(modifiers, vec![-4, 7]);
    assert_eq!(terms, vec!["2d6"]);
}

#[test]
fn empty_pieces_are_die_terms() {
    let (modifiers, terms) = split_dice_string("+1d6++2");
    assert_eq!(modifiers, vec![2]);
    assert_eq!(terms, vec!["", "1d6", ""]);
    let (modifiers, terms) = split_dice_string("");
    assert!(modifiers.is_empty());
    assert_eq!(terms, vec![""]);
}

#[test]
fn out_of_range_modifier_is_a_die_term() {
    let (modifiers, terms) = split_dice_string("2147483648+2147483647+-2147483648");
    assert_eq!(modifiers, vec![2147483647, -2147483648]);
    assert_eq!(terms, vec!["2147483648"]);
}

#[test]
fn splits_on_every_separator() {
    assert_eq!(split_on_char("a+b++c+", '+'), vec!["a", "b", "", "c", ""]);
    assert_eq!(split_on_char("abc", '+'), vec!["abc"]);
    assert_eq!(split_on_char("é+ü", '+'), vec!["é", "ü"]);
}

#[test]
fn split_die_reads_count_and_size() {
    assert_eq!(split_die("3d8"), Some((3, 8)));
    assert_eq!(split_die("1d20"), Some((1, 20)));
    assert_eq!(split_die("-2d0"), Some((-2, 0)));
    assert_eq!(split_die("2d6d8"), Some((2, 6)));
}

#[test]
fn split_die_rejects_malformed_terms() {
    assert_eq!(split_die("2x6"), None);
    assert_eq!(split_die("d6"), None);
    assert_eq!(split_die("2d"), None);
    assert_eq!(split_die(""), None);
    assert_eq!(split_die("2d 6"), None);
}

#[test]
fn single_die_rolls_in_range() {
    for size in 1..=20 {
        let rolls = roll_dice(1, size);
        assert_eq!(rolls.len(), 1);
        assert!(1 <= rolls[0] && rolls[0] <= size);
    }
    assert_eq!(roll_dice(1, 1), vec![1]);
}

#[test]
fn multi_die_rolls_in_range() {
    let rolls = roll_dice(50, 6);
    assert_eq!(rolls.len(), 50);
    assert!(rolls.iter().all(|r| 1 <= *r && *r <= 6));
    assert_eq!(roll_dice(4, 1), vec![1, 1, 1, 1]);
}

#[test]
fn counts_below_two_roll_one_die() {
    assert_eq!(roll_dice(0, 1), vec![1]);
    assert_eq!(roll_dice(-3, 4).len(), 1);
}

#[test]
fn term_total_adds_rolls() {
    assert_eq!(term_total(&vec![3, 5, 6]), 14);
    assert_eq!(term_total(&vec![]), 0);
    assert_eq!(term_total(&vec![i32::MAX, i32::MAX]), 2 * i32::MAX as i64);
}

#[test]
fn total_roll_adds_dice_and_modifiers() {
    let terms = vec![
        TermRoll { count: 2, size: 6, rolls: vec![4, 6] },
        TermRoll { count: 1, size: 20, rolls: vec![17] },
    ];
    assert_eq!(total_roll(&terms, &vec![3, -5]), 25);
    assert_eq!(total_roll(&vec![], &vec![]), 0);
    assert_eq!(total_roll(&vec![], &vec![i32::MIN, i32::MIN]), 2 * i32::MIN as i128);
}

#[test]
fn total_equals_printed_rolls_plus_modifiers() {
    let roll = roll_expression("3d6+1d20+4+-2+2d1").unwrap();
    assert_eq!(roll.modifiers, vec![4, -2]);
    assert_eq!(roll.terms.len(), 3);
    let sizes: Vec<(i32, i32)> = roll.terms.iter().map(|t| (t.count, t.size)).collect();
    assert_eq!(sizes, vec![(3, 6), (1, 20), (2, 1)]);
    let dice: i128 = roll.terms.iter().flat_map(|t| t.rolls.iter()).map(|r| *r as i128).sum();
    assert_eq!(roll.total, dice + 2);
    assert_eq!(roll.terms[2].rolls, vec![1, 1]);
}

#[test]
fn every_roll_of_an_expression_is_in_range() {
    let roll = roll_expression("10d4+1d8+0d3").unwrap();
    for term in &roll.terms {
        assert!(term.rolls.iter().all(|r| 1 <= *r && *r <= term.size));
    }
    assert_eq!(roll.terms[0].rolls.len(), 10);
    assert_eq!(roll.terms[1].rolls.len(), 1);
    assert_eq!(roll.terms[2].rolls.len(), 1);
}

#[test]
fn modifiers_only_total() {
    let roll = roll_expression("5+3").unwrap();
    assert_eq!(roll.total, 8);
    assert!(roll.terms.is_empty());
}

#[test]
fn one_sided_dice_total_is_exact() {
    let roll = roll_expression("3d1+1d1+10").unwrap();
    assert_eq!(roll.total, 14);
}

#[test]
fn malformed_die_term_is_an_error() {
    assert_eq!(roll_expression("2x6").err(), Some(DiceError::MalformedDieTerm));
    assert_eq!(roll_expression("1d6++2").err(), Some(DiceError::MalformedDieTerm));
    assert_eq!(roll_expression("").err(), Some(DiceError::MalformedDieTerm));
}

#[test]
fn non_positive_die_size_is_an_error() {
    assert_eq!(roll_expression("1d0").err(), Some(DiceError::NonPositiveDieSize));
    assert_eq!(roll_expression("2d-6+3").err(), Some(DiceError::NonPositiveDieSize));
}

#[test]
fn first_bad_term_decides_the_error() {
    assert_eq!(roll_expression("1d6+1d0+2x6").err(), Some(DiceError::NonPositiveDieSize));
    assert_eq!(roll_expression("2x6+1d0").err(), Some(DiceError::MalformedDieTerm));
}
