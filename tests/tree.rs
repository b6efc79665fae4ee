use shift_jis_reader::{MoveRecord, ParserContext, TreeError, ROOT};

fn rec(n: i32, text: &str) -> MoveRecord {
    MoveRecord::Recorded { source_move_number: n, raw_text: text.to_string() }
}

fn texts(ctx: &ParserContext, id: usize) -> Vec<String> {
    ctx.moves(id).unwrap().as_vec().iter().map(|m| m.display_text()).collect()
}

fn main_line_of_four() -> ParserContext {
    let mut ctx = ParserContext::new("main");
    for (n, t) in [(1, "M1"), (2, "M2"), (3, "M3"), (4, "M4")] {
        ctx.add_move(rec(n, t));
    }
    ctx
}

#[test]
fn test_parse_number_from_line() {
    let mut context = ParserContext::new("main");
    let first = context.create_sequence(1);
    assert_eq!(first, 1);
    context.add_move(rec(1, "M1"));
    context.add_move(rec(2, "M2"));
    context.add_move(rec(3, "M3"));
    context.add_move(rec(4, "M4"));
    assert_eq!(context.moves(context.current()).unwrap().len(), 4);

    let v1 = context.add_variation(3).unwrap();
    context.add_move(rec(3, "M3v"));
    assert_eq!(texts(&context, first), vec!["M1", "M2"]);
    assert_eq!(texts(&context, v1), vec!["M3v"]);

    let v2 = context.add_variation(2).unwrap();
    context.add_move(rec(2, "M2vv"));
    context.add_move(rec(3, "M3vv"));
    context.add_move(rec(4, "M4vv"));
    assert_eq!(texts(&context, first), vec!["M1"]);
    assert_eq!(texts(&context, v2), vec!["M2vv", "M3vv", "M4vv"]);
    assert_eq!(context.get(v2).unwrap().parent(), first);
    assert_eq!(context.sequence_count(), 6);
}

#[test]
fn split_inside_a_sequence() {
    let mut ctx = main_line_of_four();
    let v = ctx.add_variation(3).unwrap();
    assert_eq!(v, 2);
    assert_eq!(texts(&ctx, ROOT), vec!["M1", "M2"]);
    assert_eq!(ctx.children(ROOT).unwrap(), &vec![1, 2]);
    let cont = ctx.get(1).unwrap();
    assert_eq!(cont.start_move_number(), 3);
    assert_eq!(cont.parent(), ROOT);
    assert_eq!(texts(&ctx, 1), vec!["M3", "M4"]);
    let var = ctx.get(2).unwrap();
    assert_eq!(var.start_move_number(), 3);
    assert_eq!(var.parent(), ROOT);
    assert!(var.moves().is_empty());
    assert_eq!(ctx.current(), 2);
}

#[test]
fn branch_right_after_the_last_move_does_not_split() {
    let mut ctx = main_line_of_four();
    let v = ctx.add_variation(5).unwrap();
    assert_eq!(v, 1);
    assert_eq!(ctx.sequence_count(), 2);
    assert_eq!(texts(&ctx, ROOT), vec!["M1", "M2", "M3", "M4"]);
    assert_eq!(ctx.children(ROOT).unwrap(), &vec![1]);
    let var = ctx.get(1).unwrap();
    assert_eq!(var.start_move_number(), 5);
    assert!(var.moves().is_empty());
}

#[test]
fn nested_variation_splits_the_ancestor() {
    let mut ctx = main_line_of_four();
    let v1 = ctx.add_variation(3).unwrap();
    ctx.add_move(rec(3, "M3v"));
    let v2 = ctx.add_variation(2).unwrap();
    // The variation at 3 does not hold move 1, so the main line is cut.
    assert_eq!(texts(&ctx, v1), vec!["M3v"]);
    assert_eq!(texts(&ctx, ROOT), vec!["M1"]);
    let cont = ctx.children(ROOT).unwrap()[0];
    assert_eq!(texts(&ctx, cont), vec!["M2"]);
    assert_eq!(ctx.get(cont).unwrap().start_move_number(), 2);
    assert_eq!(ctx.children(cont).unwrap(), &vec![1, v1]);
    assert_eq!(ctx.children(ROOT).unwrap(), &vec![cont, v2]);
    assert_eq!(ctx.get(v2).unwrap().start_move_number(), 2);
}

#[test]
fn navigation_ignores_reported_numbers() {
    let mut ctx = ParserContext::new("main");
    for t in ["a", "b", "c", "d"] {
        ctx.add_move(rec(99, t));
    }
    ctx.add_variation(3).unwrap();
    assert_eq!(texts(&ctx, ROOT), vec!["a", "b"]);
    assert_eq!(texts(&ctx, 1), vec!["c", "d"]);
    assert_eq!(ctx.moves(1).unwrap().at_move(4).unwrap().display_text(), "d");
}

#[test]
fn every_id_resolves_after_a_series_of_calls() {
    let mut ctx = main_line_of_four();
    ctx.add_variation(3).unwrap();
    ctx.add_move(rec(3, "x"));
    ctx.add_variation(2).unwrap();
    ctx.create_sequence(7);
    ctx.add_move(rec(7, "y"));
    ctx.add_variation(8).unwrap();
    ctx.add_variation(4).unwrap_err();
    for id in 0..ctx.sequence_count() {
        let seq = ctx.get(id).unwrap();
        assert!(ctx.get(seq.parent()).is_ok());
        for c in ctx.children(id).unwrap() {
            assert!(ctx.get(*c).is_ok());
        }
    }
}

#[test]
fn unrecognized_record_changes_nothing() {
    let mut ctx = main_line_of_four();
    ctx.add_move(MoveRecord::Unrecognized { raw_text: "?? move".to_string() });
    assert_eq!(ctx.moves(ROOT).unwrap().len(), 4);
    assert_eq!(ctx.sequence_count(), 1);
    assert_eq!(ctx.current(), ROOT);
}

#[test]
fn orphan_branch_point_is_reported_and_changes_nothing() {
    let mut ctx = main_line_of_four();
    assert_eq!(ctx.add_variation(9), Err(TreeError::OrphanBranchPoint(9)));
    assert_eq!(ctx.add_variation(0), Err(TreeError::OrphanBranchPoint(0)));
    assert_eq!(ctx.sequence_count(), 1);
    assert_eq!(texts(&ctx, ROOT), vec!["M1", "M2", "M3", "M4"]);
    assert!(ctx.children(ROOT).unwrap().is_empty());
}

#[test]
fn empty_root_has_no_move_to_branch_from() {
    let mut ctx = ParserContext::new("main");
    assert_eq!(ctx.add_variation(1), Err(TreeError::OrphanBranchPoint(1)));
}

#[test]
fn branch_inside_a_variation_splits_it() {
    let mut ctx = main_line_of_four();
    let v = ctx.add_variation(3).unwrap();
    ctx.add_move(rec(3, "x3"));
    ctx.add_move(rec(4, "x4"));
    let w = ctx.add_variation(4).unwrap();
    assert_eq!(texts(&ctx, v), vec!["x3"]);
    let c = ctx.children(v).unwrap()[0];
    assert_eq!(texts(&ctx, c), vec!["x4"]);
    assert_eq!(ctx.children(v).unwrap(), &vec![c, w]);
}

#[test]
fn rebranching_adds_a_sibling() {
    let mut ctx = main_line_of_four();
    ctx.add_variation(3).unwrap();
    ctx.add_move(rec(3, "a"));
    ctx.set_current(ROOT).unwrap();
    let third = ctx.add_variation(3).unwrap();
    assert_eq!(ctx.children(ROOT).unwrap(), &vec![1, 2, third]);
    assert_eq!(ctx.get(third).unwrap().start_move_number(), 3);
}

#[test]
fn continuation_takes_the_earlier_follow_ups() {
    let mut ctx = main_line_of_four();
    ctx.add_variation(4).unwrap();
    ctx.set_current(ROOT).unwrap();
    ctx.add_variation(2).unwrap();
    assert_eq!(ctx.children(ROOT).unwrap(), &vec![3, 4]);
    assert_eq!(ctx.children(3).unwrap(), &vec![1, 2]);
    assert_eq!(texts(&ctx, 3), vec!["M2", "M3"]);
    assert_eq!(texts(&ctx, 1), vec!["M4"]);
}

#[test]
fn unknown_sequence_lookups_fail() {
    let mut ctx = main_line_of_four();
    assert_eq!(ctx.get(5).err(), Some(TreeError::UnknownSequence(5)));
    assert_eq!(ctx.children(1).err(), Some(TreeError::UnknownSequence(1)));
    assert_eq!(ctx.moves(2).err(), Some(TreeError::UnknownSequence(2)));
    assert_eq!(ctx.set_current(3), Err(TreeError::UnknownSequence(3)));
    assert_eq!(ctx.current(), ROOT);
}

#[test]
fn create_sequence_hangs_under_current_without_joining() {
    let mut ctx = ParserContext::new("game");
    assert_eq!(ctx.context_name(), "game");
    let id = ctx.create_sequence(10);
    assert_eq!(id, 1);
    assert_eq!(ctx.current(), 1);
    assert_eq!(ctx.get(1).unwrap().parent(), ROOT);
    assert_eq!(ctx.get(1).unwrap().start_move_number(), 10);
    assert!(ctx.children(ROOT).unwrap().is_empty());
}

#[test]
fn find_root_walks_to_the_root() {
    let mut ctx = main_line_of_four();
    ctx.add_variation(3).unwrap();
    ctx.add_move(rec(3, "a"));
    let v = ctx.add_variation(4).unwrap();
    assert_eq!(ctx.find_root(v), ROOT);
    assert_eq!(ctx.find_root(ROOT), ROOT);
    assert_eq!(ctx.find_root(42), 42);
}

#[test]
fn new_context_holds_an_empty_root() {
    let ctx = ParserContext::new("main");
    assert_eq!(ctx.root_id(), ROOT);
    assert_eq!(ctx.sequence_count(), 1);
    assert_eq!(ctx.get(ROOT).unwrap().start_move_number(), 1);
    assert_eq!(ctx.get(ROOT).unwrap().parent(), ROOT);
    assert_eq!(ctx.columns(), (1, 4));
}
