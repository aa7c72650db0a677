use dice_roll::dice::roll_dice;
use dice_roll::machine::{apply_term, operation_after, settle_term, Operation, Scanner, State};
use dice_roll::number::parse_number;
use dice_roll::parsing::{note, note_buffer, note_char, scan, Error};
use dice_roll::text::{is_decimal_digit, is_whitespace, strip_whitespace};

fn chars(text: &str) -> Vec<char> {
    text.chars().collect()
}

#[test]
fn whitespace_is_what_std_calls_whitespace() {
    for code in 0..=0x10FFFFu32 {
        if let Some(c) = char::from_u32(code) {
            assert_eq!(is_whitespace(c), c.is_whitespace(), "code point {}", code);
        }
    }
}

#[test]
fn digits_are_the_ascii_digits() {
    for code in 0..=0x10FFFFu32 {
        if let Some(c) = char::from_u32(code) {
            assert_eq!(is_decimal_digit(c), c.is_ascii_digit());
        }
    }
}

#[test]
fn stripping_keeps_the_rest_in_order() {
    assert_eq!(strip_whitespace(" d 2 0\t+\n5 "), chars("d20+5"));
    assert_eq!(strip_whitespace(""), chars(""));
    assert_eq!(strip_whitespace("\u{2003}\u{3000}"), chars(""));
    assert_eq!(strip_whitespace("a\u{e9}b"), chars("a\u{e9}b"));
}

#[test]
fn digit_buffers_are_read_as_std_reads_them() {
    for text in ["0", "7", "42", "007", "2147483647", "2147483648", "4294967296", "99999999999999999999", ""] {
        assert_eq!(parse_number(&chars(text)), text.parse::<i32>().ok(), "buffer {:?}", text);
    }
    assert_eq!(parse_number(&chars("12")), Some(12));
    assert_eq!(parse_number(&chars("")), None);
}

#[test]
fn signs_and_letters_are_no_digits() {
    assert_eq!(parse_number(&chars("+5")), None);
    assert_eq!(parse_number(&chars("-5")), None);
    assert_eq!(parse_number(&chars("1a")), None);
    assert_eq!(parse_number(&chars("99999999999x")), None);
}

#[test]
fn dice_are_summed() {
    assert_eq!(roll_dice(0, 6), 0);
    assert_eq!(roll_dice(-3, 6), 0);
    assert_eq!(roll_dice(5, 1), 5);
    for _ in 0..500 {
        let value = roll_dice(3, 6);
        assert!(3 <= value && value <= 18);
    }
}

#[test]
fn dice_do_not_always_show_their_highest_face() {
    let mut low = false;
    for _ in 0..500 {
        low = low || roll_dice(1, 20) < 20;
    }
    assert!(low);
}

#[test]
fn terms_enter_the_total_if_it_fits() {
    assert_eq!(apply_term(10, Operation::Add, 5), Some(15));
    assert_eq!(apply_term(10, Operation::Subtract, 15), Some(-5));
    assert_eq!(apply_term(i32::MAX, Operation::Add, 1), None);
    assert_eq!(apply_term(i32::MIN, Operation::Subtract, 1), None);
    assert_eq!(apply_term(-1, Operation::Add, 2147483648), Some(i32::MAX));
    assert_eq!(apply_term(0, Operation::Subtract, 2147483648), Some(i32::MIN));
    assert_eq!(apply_term(0, Operation::Add, i64::MAX), None);
    assert_eq!(apply_term(-1, Operation::Subtract, i64::MIN), None);
}

#[test]
fn operators_set_the_pending_operation() {
    assert_eq!(operation_after(Operation::Subtract, '+'), Operation::Add);
    assert_eq!(operation_after(Operation::Add, '-'), Operation::Subtract);
    assert_eq!(operation_after(Operation::Subtract, ' '), Operation::Subtract);
    assert_eq!(operation_after(Operation::Add, ' '), Operation::Add);
}

#[test]
fn settled_term_starts_a_new_term() {
    let next = settle_term(Operation::Subtract, 10, 4, '+').unwrap();
    assert!(matches!(next.state, State::NewTerm));
    assert_eq!(next.operation, Operation::Add);
    assert_eq!(next.total, 6);
    assert!(matches!(settle_term(Operation::Add, i32::MAX, 1, ' '), Err(Error::ParseError(_))));
}

#[test]
fn scanner_follows_the_transitions() {
    let scanner = Scanner::new();
    assert!(matches!(scanner.state, State::NewTerm));
    assert_eq!(scanner.operation, Operation::Add);
    assert_eq!(scanner.total, 0);

    let scanner = scanner.feed('-').unwrap();
    assert_eq!(scanner.operation, Operation::Subtract);
    let scanner = scanner.feed('1').unwrap();
    let scanner = scanner.feed('2').unwrap();
    match &scanner.state {
        State::ParsingNumber(buffer) => assert_eq!(buffer, &vec!['1', '2']),
        other => panic!("unexpected state {:?}", other),
    }
    let scanner = scanner.feed('d').unwrap();
    match &scanner.state {
        State::ParsingDieSideCount(count, buffer) => {
            assert_eq!(*count, 12);
            assert!(buffer.is_empty());
        }
        other => panic!("unexpected state {:?}", other),
    }
    assert_eq!(scanner.total, 0);
    let scanner = scanner.feed('1').unwrap();
    let scanner = scanner.feed('+').unwrap();
    assert!(matches!(scanner.state, State::NewTerm));
    assert_eq!(scanner.operation, Operation::Add);
    assert_eq!(scanner.total, -12);
}

#[test]
fn bare_die_has_a_count_of_one() {
    let scanner = Scanner::new().feed('d').unwrap();
    match &scanner.state {
        State::ParsingDieSideCount(count, buffer) => {
            assert_eq!(*count, 1);
            assert!(buffer.is_empty());
        }
        other => panic!("unexpected state {:?}", other),
    }
}

#[test]
fn scanner_refuses_other_whitespace_than_the_blank() {
    assert!(matches!(Scanner::new().feed('\t'), Err(Error::ParseError(_))));
    assert!(Scanner::new().feed(' ').is_ok());
}

#[test]
fn scan_without_a_closing_blank_keeps_the_last_term_open() {
    let scanner = scan(&chars("1+2")).unwrap();
    assert_eq!(scanner.total, 1);
    assert!(matches!(scanner.state, State::ParsingNumber(_)));
    let scanner = scan(&chars("1+2 ")).unwrap();
    assert_eq!(scanner.total, 3);
    assert!(matches!(scanner.state, State::NewTerm));
}

#[test]
fn descriptions_are_put_together() {
    assert_eq!(note("abc"), "abc");
    assert_eq!(note_char("bad: ", 'x'), "bad: x");
    assert_eq!(note_buffer("bad: ", &chars("123")), "bad: 123");
    assert_eq!(note_buffer("bad: ", &chars("")), "bad: ");
}
