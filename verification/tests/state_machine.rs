use dice_roll::parsing::{parse_roll_with_state_machine, Error};
use rand::Rng;

fn get_distribution_samples(die_size: i32, sample_count: i32) -> Vec<i32> {
    let mut rng = rand::thread_rng();
    (0..sample_count).map(|_| rng.gen_range(1..=die_size)).collect::<Vec<i32>>()
}

fn parse_error(input: &str) -> String {
    match parse_roll_with_state_machine(input) {
        Err(Error::ParseError(message)) => message,
        other => panic!("expected a parse error, got {:?}", other),
    }
}

#[test]
fn state_machine_parse_basic_roll_works() {
    let sample_count = 1000;
    let xs = get_distribution_samples(20, sample_count);
    let ys = (0..sample_count)
        .map(|_| parse_roll_with_state_machine("d20").unwrap())
        .collect::<Vec<i32>>();
    let confidence = 0.99;

    let result = kolmogorov_smirnov::test(&xs, &ys, confidence);

    assert!(
        !result.is_rejected,
        "Cannot say the two distributions are different with {}% confidence",
        confidence * 100.0
    );
}

#[test]
fn single_die_stays_in_range() {
    for _ in 0..2000 {
        let roll = parse_roll_with_state_machine("d20").unwrap();
        assert!(1 <= roll && roll <= 20);
    }
}

#[test]
fn single_die_shows_every_face() {
    let mut seen = [false; 6];
    for _ in 0..2000 {
        let roll = parse_roll_with_state_machine("d6").unwrap();
        seen[(roll - 1) as usize] = true;
    }
    assert!(seen.iter().all(|face| *face));
}

#[test]
fn mixed_expression_stays_in_range() {
    for _ in 0..2000 {
        let roll = parse_roll_with_state_machine("2d10 + 1d8 - 1d4 + 3").unwrap();
        assert!(2 <= roll && roll <= 30);
    }
}

#[test]
fn no_dice_give_zero() {
    assert_eq!(parse_roll_with_state_machine("0d6").unwrap(), 0);
    assert_eq!(parse_roll_with_state_machine("0d6 + 4").unwrap(), 4);
}

#[test]
fn die_without_sides_is_refused() {
    match parse_roll_with_state_machine("d0") {
        Err(Error::DieSideCountError(message)) => {
            assert_eq!(message, "Die side-count should be at least 1. Instead, it was 0")
        }
        other => panic!("expected a side count error, got {:?}", other),
    }
    assert!(matches!(parse_roll_with_state_machine("3d000 + 1"), Err(Error::DieSideCountError(_))));
}

#[test]
fn malformed_text_is_refused() {
    assert_eq!(parse_error("3x4"), "Unexpected character when parsing number: x");
    assert_eq!(parse_error("d"), "Failed to parse die type: ");
    assert_eq!(parse_error("1d"), "Failed to parse die type: ");
    assert_eq!(parse_error("x"), "Unexpected character when looking for a new term: x");
    assert_eq!(parse_error("2d3d4"), "Unexpected character when parsing die type: d");
    assert_eq!(parse_error("2d6*2"), "Unexpected character when parsing die type: *");
    assert_eq!(parse_error("5 + (3)"), "Unexpected character when looking for a new term: (");
}

#[test]
fn whitespace_is_ignored() {
    for _ in 0..500 {
        let roll = parse_roll_with_state_machine("d 2 0 + 5").unwrap();
        assert!(6 <= roll && roll <= 25);
        let roll = parse_roll_with_state_machine("d20+5").unwrap();
        assert!(6 <= roll && roll <= 25);
    }
    assert_eq!(parse_roll_with_state_machine(" 1 2\t+\n3\u{a0}").unwrap(), 15);
    assert_eq!(parse_roll_with_state_machine("4 d 1").unwrap(), 4);
}

#[test]
fn nothing_is_zero() {
    assert_eq!(parse_roll_with_state_machine("").unwrap(), 0);
    assert_eq!(parse_roll_with_state_machine("   ").unwrap(), 0);
    assert_eq!(parse_roll_with_state_machine("+").unwrap(), 0);
}

#[test]
fn scalars_are_summed_with_their_signs() {
    assert_eq!(parse_roll_with_state_machine("5").unwrap(), 5);
    assert_eq!(parse_roll_with_state_machine("007").unwrap(), 7);
    assert_eq!(parse_roll_with_state_machine("+5").unwrap(), 5);
    assert_eq!(parse_roll_with_state_machine("-5").unwrap(), -5);
    assert_eq!(parse_roll_with_state_machine("10 - 3 + 2").unwrap(), 9);
    assert_eq!(parse_roll_with_state_machine("1 - 2 - 3").unwrap(), -4);
}

#[test]
fn last_operator_wins() {
    assert_eq!(parse_roll_with_state_machine("+-5").unwrap(), -5);
    assert_eq!(parse_roll_with_state_machine("-+5").unwrap(), 5);
    assert_eq!(parse_roll_with_state_machine("3 -- 2").unwrap(), 1);
    assert_eq!(parse_roll_with_state_machine("3 + 2 -").unwrap(), 5);
}

#[test]
fn sign_applies_to_the_whole_die_term() {
    assert_eq!(parse_roll_with_state_machine("3d1").unwrap(), 3);
    assert_eq!(parse_roll_with_state_machine("-3d1 + 10").unwrap(), 7);
    assert_eq!(parse_roll_with_state_machine("10 - 2d1 - d1").unwrap(), 7);
    for _ in 0..500 {
        let roll = parse_roll_with_state_machine("-2d6").unwrap();
        assert!(-12 <= roll && roll <= -2);
    }
}

#[test]
fn numbers_too_large_are_refused() {
    assert_eq!(parse_roll_with_state_machine("2147483647").unwrap(), 2147483647);
    assert_eq!(parse_roll_with_state_machine("0000000000002147483647").unwrap(), 2147483647);
    assert_eq!(parse_error("2147483648"), "Failed to parse number: 2147483648");
    assert_eq!(parse_error("99999999999d6"), "Failed to parse multiplier: 99999999999");
    assert_eq!(parse_error("d99999999999"), "Failed to parse die type: 99999999999");
}

#[test]
fn totals_out_of_range_are_refused() {
    assert_eq!(parse_error("2147483647 + 1"), "The total does not fit in 32 bits");
    assert_eq!(parse_error("-2147483647 - 2"), "The total does not fit in 32 bits");
    assert_eq!(parse_error("2147483647 + d1"), "The total does not fit in 32 bits");
    assert_eq!(parse_roll_with_state_machine("-2147483647 - 1").unwrap(), i32::MIN);
    assert_eq!(parse_roll_with_state_machine("2147483647 - 1d1 + 1").unwrap(), 2147483647);
}

#[test]
fn validity_is_the_same_on_every_parse() {
    for input in ["d20", "2d10 + 1d8 - 1d4 + 3", "0d6", "12", ""] {
        for _ in 0..50 {
            assert!(parse_roll_with_state_machine(input).is_ok());
        }
    }
    for input in ["d0", "3x4", "d", "2d", "4d6 + x"] {
        for _ in 0..50 {
            assert!(parse_roll_with_state_machine(input).is_err());
        }
    }
}

#[test]
fn first_fault_is_reported() {
    assert!(matches!(parse_roll_with_state_machine("d0 + x"), Err(Error::DieSideCountError(_))));
    assert_eq!(parse_error("x + d0"), "Unexpected character when looking for a new term: x");
}
