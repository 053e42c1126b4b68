use bfem::ast::{trees_equal, Instruction, SpannedInstruction};
use bfem::errors::ParseError;
use bfem::flags::DisableFlags;
use bfem::info::{decimal_digits, produce_labeled_spans};
use bfem::parser::Parser;
use bfem::span::Span;

fn flags(aliases: bool, optimise: bool) -> DisableFlags {
    DisableFlags { disable_aliases: !aliases, disable_optimise: !optimise, disable_alloc: false }
}

fn parse_raw(src: &str) -> Vec<SpannedInstruction> {
    Parser::new(src.as_bytes().to_vec(), flags(true, false)).parse().unwrap()
}

fn parse_opt(src: &str) -> Vec<SpannedInstruction> {
    Parser::new(src.as_bytes().to_vec(), flags(true, true)).parse().unwrap()
}

#[test]
fn one_leaf_per_operator_character() {
    let tree = parse_raw("+-><.,");
    assert_eq!(tree.len(), 6);
    assert!(matches!(tree[0].instruction, Instruction::Add(1)));
    assert!(matches!(tree[1].instruction, Instruction::Subtract(1)));
    assert!(matches!(tree[2].instruction, Instruction::Right(1)));
    assert!(matches!(tree[3].instruction, Instruction::Left(1)));
    assert!(matches!(tree[4].instruction, Instruction::Output));
    assert!(matches!(tree[5].instruction, Instruction::Input));
    for (i, s) in tree.iter().enumerate() {
        assert_eq!(s.span, Span { offset: i, length: 1 });
    }
}

#[test]
fn one_loop_node_per_bracket_pair() {
    let tree = parse_raw("+[+[-]]");
    assert_eq!(tree.len(), 2);
    match &tree[1].instruction {
        Instruction::Loop(body) => {
            assert_eq!(body.len(), 2);
            assert!(matches!(body[0].instruction, Instruction::Add(1)));
            match &body[1].instruction {
                Instruction::Loop(inner) => {
                    assert_eq!(inner.len(), 1);
                    assert_eq!(inner[0].span, Span { offset: 4, length: 1 });
                }
                other => panic!("expected inner loop, got {:?}", other),
            }
        }
        other => panic!("expected loop, got {:?}", other),
    }
    assert_eq!(tree[1].span, Span { offset: 1, length: 6 });
}

#[test]
fn whitespace_is_skipped_between_tokens() {
    let tree = parse_raw("+ \t\n+");
    assert_eq!(tree.len(), 2);
    assert_eq!(tree[0].span, Span { offset: 0, length: 1 });
    assert_eq!(tree[1].span, Span { offset: 4, length: 1 });
}

#[test]
fn whitespace_kept_inside_alias_names() {
    let mut p = Parser::new(b"{a b}".to_vec(), flags(true, false));
    let tree = p.parse().unwrap();
    assert_eq!(tree.len(), 1);
    match &tree[0].instruction {
        Instruction::Goto(name) => assert_eq!(name, &b"a b".to_vec()),
        other => panic!("expected goto, got {:?}", other),
    }
}

#[test]
fn alias_names_collected_in_discovery_order() {
    let mut p = Parser::new(b"{x}+{y}{x}".to_vec(), flags(true, false));
    let tree = p.parse().unwrap();
    assert_eq!(tree.len(), 4);
    assert_eq!(p.get_aliases(), &vec![b"x".to_vec(), b"y".to_vec()]);
    assert_eq!(tree[0].span, Span { offset: 0, length: 3 });
}

#[test]
fn unbalanced_loop_error_points_at_opening_bracket() {
    let mut p = Parser::new(b"[+++".to_vec(), flags(true, true));
    assert_eq!(
        p.parse().unwrap_err(),
        ParseError::UnbalancedLoop { span: Span { offset: 0, length: 1 } }
    );
}

#[test]
fn innermost_unmatched_bracket_is_reported() {
    let mut p = Parser::new(b"[[+".to_vec(), flags(true, true));
    assert_eq!(
        p.parse().unwrap_err(),
        ParseError::UnbalancedLoop { span: Span { offset: 1, length: 1 } }
    );
}

#[test]
fn unrecognized_character_is_reported() {
    let mut p = Parser::new(b"+a".to_vec(), flags(true, true));
    assert_eq!(
        p.parse().unwrap_err(),
        ParseError::UnrecognizedToken { token: b'a', span: Span { offset: 1, length: 1 } }
    );
}

#[test]
fn stray_close_bracket_is_unrecognized() {
    let mut p = Parser::new(b"]".to_vec(), flags(true, true));
    assert_eq!(
        p.parse().unwrap_err(),
        ParseError::UnrecognizedToken { token: b']', span: Span { offset: 0, length: 1 } }
    );
}

#[test]
fn stray_close_brace_is_unrecognized() {
    let mut p = Parser::new(b"}".to_vec(), flags(true, true));
    assert_eq!(
        p.parse().unwrap_err(),
        ParseError::UnrecognizedToken { token: b'}', span: Span { offset: 0, length: 1 } }
    );
}

#[test]
fn unterminated_alias_points_at_opening_brace() {
    let mut p = Parser::new(b"+{ab".to_vec(), flags(true, true));
    assert_eq!(
        p.parse().unwrap_err(),
        ParseError::UnterminatedAlias { span: Span { offset: 1, length: 1 } }
    );
}

#[test]
fn alias_block_rejected_when_disabled() {
    let mut p = Parser::new(b"{a}".to_vec(), flags(false, true));
    assert_eq!(
        p.parse().unwrap_err(),
        ParseError::UnrecognizedToken { token: b'{', span: Span { offset: 0, length: 1 } }
    );
}

#[test]
fn trailing_run_merges_fully() {
    let tree = parse_opt("++++");
    assert_eq!(tree.len(), 1);
    assert!(matches!(tree[0].instruction, Instruction::Add(4)));
    assert_eq!(tree[0].span, Span { offset: 0, length: 1 });
}

#[test]
fn merge_stops_at_structural_boundaries() {
    let tree = parse_opt(".++>>--");
    assert_eq!(tree.len(), 4);
    assert!(matches!(tree[0].instruction, Instruction::Output));
    assert!(matches!(tree[1].instruction, Instruction::Add(2)));
    assert!(matches!(tree[2].instruction, Instruction::Right(2)));
    assert!(matches!(tree[3].instruction, Instruction::Subtract(2)));
}

#[test]
fn different_kinds_do_not_merge() {
    let tree = parse_opt("+-");
    assert_eq!(tree.len(), 2);
    assert!(matches!(tree[0].instruction, Instruction::Add(1)));
    assert!(matches!(tree[1].instruction, Instruction::Subtract(1)));
}

#[test]
fn loop_bodies_are_merged_recursively() {
    let tree = parse_opt("[++]");
    assert_eq!(tree.len(), 1);
    match &tree[0].instruction {
        Instruction::Loop(body) => {
            assert_eq!(body.len(), 1);
            assert!(matches!(body[0].instruction, Instruction::Add(2)));
        }
        other => panic!("expected loop, got {:?}", other),
    }
    // the loop's own span is kept unchanged
    assert_eq!(tree[0].span, Span { offset: 0, length: 4 });
}

#[test]
fn optimise_is_idempotent_on_a_sample() {
    let raw = parse_raw("++[>><<+]--{a}..");
    let once = Parser::optimise_consecutive(&raw);
    let twice = Parser::optimise_consecutive(&once);
    assert!(trees_equal(&once, &twice));
}

#[test]
fn consecutive_okay_distinguishes_kinds() {
    assert!(Parser::is_consecutive_okay(&Instruction::Add(1), &Instruction::Add(3)));
    assert!(!Parser::is_consecutive_okay(&Instruction::Add(1), &Instruction::Subtract(1)));
    assert!(!Parser::is_consecutive_okay(&Instruction::Output, &Instruction::Output));
    assert!(!Parser::is_consecutive_okay(
        &Instruction::Goto(b"a".to_vec()),
        &Instruction::Goto(b"a".to_vec())
    ));
}

#[test]
fn decimal_digits_render() {
    assert_eq!(decimal_digits(0), b"0".to_vec());
    assert_eq!(decimal_digits(7), b"7".to_vec());
    assert_eq!(decimal_digits(210), b"210".to_vec());
}

#[test]
fn labeled_spans_describe_leaves() {
    let tree = parse_opt("+++");
    let dump = produce_labeled_spans(&tree);
    assert_eq!(dump.len(), 1);
    assert_eq!(dump[0].0, Span { offset: 0, length: 1 });
    assert_eq!(dump[0].1, b"Add 3".to_vec());
}

#[test]
fn labeled_spans_flatten_loops_and_name_aliases() {
    let tree = parse_raw("[>]{ab},");
    let dump = produce_labeled_spans(&tree);
    assert_eq!(dump.len(), 3);
    assert_eq!(dump[0].1, b"Move right 1 spaces".to_vec());
    assert_eq!(dump[1].1, b"Go to alias ab".to_vec());
    assert_eq!(dump[2].1, b"Take input".to_vec());
}
