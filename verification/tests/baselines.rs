use dice_roll::machine::Operation;
use dice_roll::cover::{
    covers_text, found_at, group_at, joined, only_digits, same_text, skip_operators, term_of_match,
    text_of_match,
};
use dice_roll::parsing::{
    parse_roll_with_regex, parse_roll_with_state_machine, parse_roll_with_string_splits,
    roll_matches, to_text, Error,
};
use dice_roll::pattern::{roll_capture, roll_captures, term_pattern};
use dice_roll::splits::{
    copy_range, operation_behind_piece, roll_piece, roll_pieces, split_behind_operators,
};
use dice_roll::terms::{add_dice, add_scalar, add_value};
use rand::Rng;

fn get_distribution_samples(die_size: i32, sample_count: i32) -> Vec<i32> {
    let mut rng = rand::thread_rng();
    (0..sample_count).map(|_| rng.gen_range(1..=die_size)).collect::<Vec<i32>>()
}

fn chars(text: &str) -> Vec<char> {
    text.chars().collect()
}

fn parse_error(r: Result<i32, Error>) -> String {
    match r {
        Err(Error::ParseError(message)) => message,
        other => panic!("expected a parse error, got {:?}", other),
    }
}

#[test]
fn regex_parse_basic_roll_works() {
    let sample_count = 1000;
    let xs = get_distribution_samples(20, sample_count);
    let ys = (0..sample_count)
        .map(|_| parse_roll_with_regex("d20").unwrap())
        .collect::<Vec<i32>>();
    let confidence = 0.99;

    let result = kolmogorov_smirnov::test(&xs, &ys, confidence);

    assert!(
        !result.is_rejected,
        "Cannot say the two distributions are different with {}% confidence",
        confidence * 100.0
    );
}

#[test]
fn string_split_parse_basic_roll_works() {
    let sample_count = 1000;
    let xs = get_distribution_samples(20, sample_count);
    let ys = (0..sample_count)
        .map(|_| parse_roll_with_string_splits("d20").unwrap())
        .collect::<Vec<i32>>();
    let confidence = 0.99;

    let result = kolmogorov_smirnov::test(&xs, &ys, confidence);

    assert!(
        !result.is_rejected,
        "Cannot say the two distributions are the same with {}% confidence",
        confidence * 100.0
    );
}

#[test]
fn three_parsers_draw_from_one_distribution() {
    let sample_count = 1000;
    let input = "2d10 + 1d8 - 1d4 + 3";
    let core = (0..sample_count)
        .map(|_| parse_roll_with_state_machine(input).unwrap())
        .collect::<Vec<i32>>();
    let by_pattern =
        (0..sample_count).map(|_| parse_roll_with_regex(input).unwrap()).collect::<Vec<i32>>();
    let by_splits = (0..sample_count)
        .map(|_| parse_roll_with_string_splits(input).unwrap())
        .collect::<Vec<i32>>();
    let confidence = 0.999;

    assert!(!kolmogorov_smirnov::test(&core, &by_pattern, confidence).is_rejected);
    assert!(!kolmogorov_smirnov::test(&core, &by_splits, confidence).is_rejected);
}

#[test]
fn all_parsers_agree_where_no_die_has_two_faces() {
    for (input, total) in [
        ("", 0),
        ("5", 5),
        ("-5", -5),
        ("+5", 5),
        ("+-5", -5),
        ("5 + 3", 8),
        ("10 - 3 + 2", 9),
        ("3d1", 3),
        ("-3d1 + 10", 7),
        ("0d6", 0),
        ("d1 + d1 - 4d1", -2),
        (" 1 2\t+\n3", 15),
        ("2147483647", 2147483647),
    ] {
        assert_eq!(parse_roll_with_state_machine(input).unwrap(), total, "{:?}", input);
        assert_eq!(parse_roll_with_regex(input).unwrap(), total, "{:?}", input);
        assert_eq!(parse_roll_with_string_splits(input).unwrap(), total, "{:?}", input);
    }
}

#[test]
fn all_parsers_stay_in_range() {
    for _ in 0..500 {
        for roll in [
            parse_roll_with_regex("2d10 + 1d8 - 1d4 + 3").unwrap(),
            parse_roll_with_string_splits("2d10 + 1d8 - 1d4 + 3").unwrap(),
        ] {
            assert!(2 <= roll && roll <= 30);
        }
        for roll in [
            parse_roll_with_regex("d 2 0 + 5").unwrap(),
            parse_roll_with_string_splits("d 2 0 + 5").unwrap(),
        ] {
            assert!(6 <= roll && roll <= 25);
        }
    }
}

#[test]
fn pattern_rolls_every_die_of_a_term() {
    let mut odd = false;
    for _ in 0..500 {
        let roll = parse_roll_with_regex("2d6").unwrap();
        assert!(2 <= roll && roll <= 12);
        odd = odd || roll % 2 == 1;
    }
    assert!(odd);
}

#[test]
fn all_parsers_refuse_a_die_without_sides() {
    assert!(matches!(parse_roll_with_regex("d0"), Err(Error::DieSideCountError(_))));
    assert!(matches!(parse_roll_with_string_splits("d0"), Err(Error::DieSideCountError(_))));
    assert!(matches!(parse_roll_with_string_splits("2 + 3d0 - 1"), Err(Error::DieSideCountError(_))));
}

#[test]
fn pattern_refuses_what_is_no_expression() {
    for input in ["3x4", "d", "hello", "5 * -2", "2d3d4", "3d", "12x", "x12", "1 + x", "d6d", "3 4d"] {
        assert_eq!(
            parse_error(parse_roll_with_regex(input)),
            "The text is no dice notation",
            "{:?}",
            input
        );
        assert!(matches!(parse_roll_with_state_machine(input), Err(Error::ParseError(_))));
    }
    assert!(matches!(parse_roll_with_regex("d0"), Err(Error::DieSideCountError(_))));
    assert!(matches!(parse_roll_with_regex("d0 + 2"), Err(Error::DieSideCountError(_))));
    assert_eq!(parse_error(parse_roll_with_regex("d0 + x")), "The text is no dice notation");
}

#[test]
fn pattern_takes_operators_where_the_scanner_does() {
    for (input, total) in
        [("3+", 3), ("++3", 3), ("+-5", -5), ("3-+2", 5), ("3--2", 1), ("-", 0), ("3+2-", 5), ("-d1--d1", -2)]
    {
        assert_eq!(parse_roll_with_regex(input).unwrap(), total, "{:?}", input);
        assert_eq!(parse_roll_with_state_machine(input).unwrap(), total, "{:?}", input);
        assert_eq!(parse_roll_with_string_splits(input).unwrap(), total, "{:?}", input);
    }
}

#[test]
fn matches_are_held_against_the_text() {
    let term = |op: Option<&str>, scalar: &str| {
        vec![None, op.map(chars), None, None, None, Some(chars(scalar))]
    };
    assert_eq!(roll_matches(&chars("3+4"), &vec![term(None, "3"), term(Some("+"), "4")]).unwrap(), 7);
    assert_eq!(
        parse_error(roll_matches(&chars("3x4"), &vec![term(None, "3"), term(None, "4")])),
        "The text is no dice notation"
    );
    assert_eq!(parse_error(roll_matches(&chars("d"), &vec![])), "The text is no dice notation");
    assert_eq!(
        parse_error(roll_matches(&chars("13+4"), &vec![term(None, "3"), term(Some("+"), "4")])),
        "The text is no dice notation"
    );
    assert_eq!(
        parse_error(roll_matches(&chars("3+45"), &vec![term(None, "3"), term(Some("+"), "4")])),
        "The text is no dice notation"
    );
    assert_eq!(roll_matches(&chars("+-"), &vec![]).unwrap(), 0);
    assert!(covers_text(&chars("++3-"), &vec![term(Some("+"), "3")]));
    assert!(!covers_text(&chars("+3"), &vec![term(None, "3")]));
    assert_eq!(skip_operators(&chars("ab+-+c"), 2), 5);
    assert_eq!(skip_operators(&chars("ab"), 7), 7);
    assert!(found_at(&chars("hello"), 1, &chars("ell")));
    assert!(!found_at(&chars("hello"), 3, &chars("low")));
    assert!(only_digits(&chars("0129")) && !only_digits(&chars("12a")));
    assert!(same_text(&chars("ab"), &chars("ab")) && !same_text(&chars("ab"), &chars("abc")));
    assert_eq!(joined(&chars("ab"), &chars("cd")), chars("abcd"));
    assert_eq!(group_at(&term(Some("-"), "7"), 1), Some(&chars("-")));
    assert_eq!(group_at(&term(Some("-"), "7"), 9), None);
    assert_eq!(term_of_match(&term(Some("-"), "7")), Some(chars("7")));
    assert_eq!(text_of_match(&term(Some("-"), "7")), Some(chars("-7")));
    assert_eq!(text_of_match(&term(Some("-"), "")), None);
}

#[test]
fn pattern_refuses_numbers_it_cannot_read() {
    assert_eq!(parse_error(parse_roll_with_regex("2147483648")), "Failed to parse number: 2147483648");
    assert_eq!(
        parse_error(parse_roll_with_regex("99999999999d6")),
        "Failed to parse multiplier: 99999999999"
    );
    assert_eq!(parse_error(parse_roll_with_regex("d\u{663}")), "The text is no dice notation");
    assert_eq!(
        parse_error(parse_roll_with_regex("2147483647 + 1")),
        "The total does not fit in 32 bits"
    );
}

#[test]
fn splits_refuse_malformed_terms() {
    assert_eq!(parse_error(parse_roll_with_string_splits("3x4")), "Failed to parse number: 3x4");
    assert_eq!(parse_error(parse_roll_with_string_splits("d")), "Failed to parse die type: ");
    assert_eq!(parse_error(parse_roll_with_string_splits("2d3d4")), "Failed to parse die type: 3d4");
    assert_eq!(parse_error(parse_roll_with_string_splits("xd4")), "Failed to parse multiplier: x");
    assert_eq!(
        parse_error(parse_roll_with_string_splits("2147483647 + 1")),
        "The total does not fit in 32 bits"
    );
    assert_eq!(parse_error(parse_roll_with_string_splits("1 + x + d0")), "Failed to parse number: x");
}

#[test]
fn text_is_cut_behind_operators() {
    for text in ["2d10+1d8-1d4+3", "", "+", "+-5", "5+", "abc", "--", "1-2-"] {
        let expected: Vec<Vec<char>> =
            text.split_inclusive(['+', '-']).map(|piece| piece.chars().collect()).collect();
        assert_eq!(split_behind_operators(&chars(text)), expected, "{:?}", text);
    }
    assert_eq!(
        split_behind_operators(&chars("2d10+1d8-3")),
        vec![chars("2d10+"), chars("1d8-"), chars("3")]
    );
}

#[test]
fn ranges_are_copied() {
    assert_eq!(copy_range(&chars("hello"), 1, 3), chars("el"));
    assert_eq!(copy_range(&chars("hello"), 0, 5), chars("hello"));
    assert_eq!(copy_range(&chars("hello"), 2, 2), chars(""));
}

#[test]
fn pieces_are_rolled() {
    assert_eq!(roll_piece(10, Operation::Subtract, &chars("4+")).unwrap(), 6);
    assert_eq!(roll_piece(10, Operation::Add, &chars("3d1-")).unwrap(), 13);
    assert_eq!(roll_piece(10, Operation::Add, &chars("d1")).unwrap(), 11);
    assert_eq!(roll_piece(10, Operation::Add, &chars("+")).unwrap(), 10);
    assert_eq!(roll_piece(10, Operation::Add, &chars("")).unwrap(), 10);
    assert_eq!(operation_behind_piece(Operation::Add, &chars("4-")), Operation::Subtract);
    assert_eq!(operation_behind_piece(Operation::Subtract, &chars("4+")), Operation::Add);
    assert_eq!(operation_behind_piece(Operation::Subtract, &chars("4")), Operation::Subtract);
    assert_eq!(operation_behind_piece(Operation::Subtract, &chars("")), Operation::Subtract);
    assert_eq!(roll_pieces(&vec![chars("5-"), chars("2d1+"), chars("1")]).unwrap(), 4);
    assert_eq!(roll_pieces(&vec![]).unwrap(), 0);
}

#[test]
fn captures_are_rolled() {
    let term = |op: Option<&str>, multiplier: Option<&str>, die: Option<&str>, scalar: Option<&str>| {
        vec![None, op.map(chars), None, multiplier.map(chars), die.map(chars), scalar.map(chars)]
    };
    assert_eq!(roll_capture(10, &term(Some("-"), None, None, Some("4"))).unwrap(), 6);
    assert_eq!(roll_capture(10, &term(Some("+"), Some("3"), Some("1"), None)).unwrap(), 13);
    assert_eq!(roll_capture(10, &term(None, Some(""), Some("1"), None)).unwrap(), 11);
    assert_eq!(roll_capture(10, &term(Some("-"), Some("2"), Some("1"), Some("5"))).unwrap(), 3);
    assert_eq!(roll_capture(10, &term(None, Some("7"), None, None)).unwrap(), 10);
    assert_eq!(roll_capture(10, &vec![]).unwrap(), 10);
    assert_eq!(roll_capture(10, &vec![None, Some(chars("-"))]).unwrap(), 10);
    assert!(matches!(
        roll_capture(10, &term(None, None, Some("0"), Some("x"))),
        Err(Error::DieSideCountError(_))
    ));
    assert_eq!(
        roll_captures(&vec![
            term(None, None, None, Some("5")),
            term(Some("-"), Some("2"), Some("1"), None)
        ])
        .unwrap(),
        3
    );
    assert_eq!(roll_captures(&vec![]).unwrap(), 0);
}

#[test]
fn term_pattern_names_its_groups() {
    let compiled = regex::Regex::new(term_pattern()).unwrap();
    let names: Vec<Option<&str>> = compiled.capture_names().collect();
    assert_eq!(
        names,
        vec![None, Some("op"), None, Some("multiplier"), Some("die"), Some("scalar")]
    );
}

#[test]
fn terms_are_entered() {
    assert_eq!(add_value(1, Operation::Add, 2).unwrap(), 3);
    assert_eq!(
        parse_error(add_value(i32::MAX, Operation::Add, 1)),
        "The total does not fit in 32 bits"
    );
    assert_eq!(add_scalar(1, Operation::Subtract, &chars("12")).unwrap(), -11);
    assert_eq!(parse_error(add_scalar(1, Operation::Add, &chars(""))), "Failed to parse number: ");
    assert_eq!(add_dice(1, Operation::Add, &chars(""), &chars("1")).unwrap(), 2);
    assert_eq!(add_dice(1, Operation::Subtract, &chars("4"), &chars("1")).unwrap(), -3);
    assert_eq!(add_dice(1, Operation::Add, &chars("0"), &chars("6")).unwrap(), 1);
    assert_eq!(
        parse_error(add_dice(1, Operation::Add, &chars("a"), &chars("0"))),
        "Failed to parse multiplier: a"
    );
    assert!(matches!(
        add_dice(1, Operation::Add, &chars("2"), &chars("0")),
        Err(Error::DieSideCountError(_))
    ));
}

#[test]
fn characters_become_text() {
    assert_eq!(to_text(&chars("d20+5")), "d20+5");
    assert_eq!(to_text(&chars("")), "");
}
