use shift_jis_reader::{parse_i32, parse_move, parse_number_from_line, MoveRecord, MoveVec, ParserContext};

fn number(line: &str, from: usize, to: usize) -> Option<i32> {
    parse_move(line, from, to).move_number()
}

#[test]
fn reads_the_move_number_column() {
    let r = parse_move("   1 \u{ff17}\u{516d}\u{6b69}(77)", 1, 4);
    assert_eq!(r.move_number(), Some(1));
    assert_eq!(r.display_text(), "   1 \u{ff17}\u{516d}\u{6b69}(77)");
    assert_eq!(number(" 123 x", 1, 4), Some(123));
    assert_eq!(number("x-12", 1, 4), Some(-12));
    assert_eq!(number("x+7 ", 1, 4), Some(7));
}

#[test]
fn short_line_is_unrecognized() {
    let r = parse_move("  1", 1, 4);
    assert!(!r.is_recorded());
    assert_eq!(r.display_text(), "NoMove");
    assert_eq!(number("", 1, 4), None);
}

#[test]
fn non_number_column_is_unrecognized() {
    assert_eq!(number("x a1 move", 1, 4), None);
    assert_eq!(number("x   move", 1, 4), None);
    assert_eq!(number("x - move", 1, 4), None);
    assert_eq!(number("x1 2move", 1, 4), None);
}

#[test]
fn column_is_trimmed_of_unicode_white_space() {
    assert_eq!(number("x\u{3000}5\tmove", 1, 4), Some(5));
}

#[test]
fn numbers_beyond_i32_are_unrecognized() {
    assert_eq!(number("2147483647", 0, 10), Some(2147483647));
    assert_eq!(number("-2147483648", 0, 11), Some(-2147483648));
    assert_eq!(number("2147483648", 0, 10), None);
    assert_eq!(number("-2147483649", 0, 11), None);
    assert_eq!(number("99999999999999", 0, 14), None);
}

#[test]
fn parse_i32_reads_sign_and_digits() {
    assert_eq!(parse_i32(&vec!['4', '2']), Some(42));
    assert_eq!(parse_i32(&vec!['-', '0']), Some(0));
    assert_eq!(parse_i32(&vec!['+']), None);
    assert_eq!(parse_i32(&vec![]), None);
    assert_eq!(parse_i32(&vec!['1', ' ']), None);
}

#[test]
fn parse_number_from_line_uses_the_context_columns() {
    let mut ctx = ParserContext::new("main");
    let line = "12 move";
    assert_eq!(parse_number_from_line(line, &ctx).move_number(), None);
    ctx.set_columns(0, 2);
    assert_eq!(parse_number_from_line(line, &ctx).move_number(), Some(12));
    match parse_number_from_line(line, &ctx) {
        MoveRecord::Recorded { raw_text, .. } => assert_eq!(raw_text, line),
        MoveRecord::Unrecognized { .. } => panic!("expected a recorded move"),
    }
}

#[test]
fn move_vec_indexes_by_move_number() {
    let mut v = MoveVec::new(vec!['a', 'b', 'c'], 5);
    assert_eq!(v.len(), 3);
    assert!(!v.is_empty());
    assert_eq!(v.start_move_number(), 5);
    assert_eq!(v.at_move(4), None);
    assert_eq!(v.at_move(5), Some(&'a'));
    assert_eq!(v.at_move(7), Some(&'c'));
    assert_eq!(v.at_move(8), None);
    assert!(v.covers_move(6));
    v.push('d');
    assert_eq!(v.at_move(8), Some(&'d'));
    let rest = v.split_at_move(7);
    assert_eq!(rest, vec!['c', 'd']);
    assert_eq!(v.as_vec(), &vec!['a', 'b']);
    assert_eq!(v.split_at_move(9), Vec::<char>::new());
    assert_eq!(v.len(), 2);
    let e: MoveVec<char> = MoveVec::new(vec![], 1);
    assert!(e.is_empty());
}
