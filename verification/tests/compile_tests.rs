use brainfuck_interpreter::compiler::lexer::{build_token_list, Token};
use brainfuck_interpreter::compiler::parser::{Parser, SyntaxNode};
use brainfuck_interpreter::compiler::{
    AddUntilZeroArg, Compiler, Instruction, InstructionList, ParseError,
};

fn compile(source: &str) -> Result<InstructionList, ParseError> {
    Compiler::new().compile(source)
}

fn assert_well_formed(list: &InstructionList) {
    let n = list.0.len();
    assert!(n >= 1);
    assert!(matches!(list.0[n - 1], Instruction::Halt));
    for (i, inst) in list.0.iter().enumerate() {
        if i < n - 1 {
            assert!(!matches!(inst, Instruction::Halt));
        }
        match inst {
            Instruction::Jump { target } => assert!(*target < n),
            Instruction::JumpIfZero { target } => assert!(*target < n),
            _ => {}
        }
    }
}

#[test]
fn balanced_program_compiles_with_halt_and_valid_targets() {
    for source in ["", "+-<>,.", "+[.]", "[[..][,,]]+", "++[->+<].", "[][][[]]"] {
        let list = compile(source).unwrap();
        assert_well_formed(&list);
    }
}

#[test]
fn unmatched_open_reports_innermost_position() {
    assert_eq!(
        compile("[+"),
        Err(ParseError::UnmatchedOpenBracket { position: 0 })
    );
    assert_eq!(
        compile("+["),
        Err(ParseError::UnmatchedOpenBracket { position: 1 })
    );
    assert_eq!(
        compile("[[]"),
        Err(ParseError::UnmatchedOpenBracket { position: 0 })
    );
    assert_eq!(
        compile("[[]["),
        Err(ParseError::UnmatchedOpenBracket { position: 3 })
    );
}

#[test]
fn unmatched_close_reports_first_position() {
    assert_eq!(
        compile("]"),
        Err(ParseError::UnmatchedCloseBracket { position: 0 })
    );
    assert_eq!(
        compile("+]"),
        Err(ParseError::UnmatchedCloseBracket { position: 1 })
    );
    assert_eq!(
        compile("[]]]"),
        Err(ParseError::UnmatchedCloseBracket { position: 2 })
    );
}

#[test]
fn close_only_source_fails_at_position_zero() {
    assert_eq!(
        compile("]"),
        Err(ParseError::UnmatchedCloseBracket { position: 0 })
    );
}

#[test]
fn empty_and_comment_sources_compile_to_halt_only() {
    let list = compile("").unwrap();
    assert_eq!(list.0, vec![Instruction::Halt]);
    let list = compile("hello world! 123 \n\t").unwrap();
    assert_eq!(list.0, vec![Instruction::Halt]);
}

#[test]
fn comment_characters_are_skipped() {
    let plain = compile("++.").unwrap();
    let noisy = compile("a+ b+ c.\n").unwrap();
    assert_eq!(plain.0, noisy.0);
}

#[test]
fn primitives_emit_single_instructions() {
    let list = compile("+-<>,.").unwrap();
    assert_eq!(
        list.0,
        vec![
            Instruction::Add { val: 1 },
            Instruction::Add { val: -1 },
            Instruction::Seek { offset: -1 },
            Instruction::Seek { offset: 1 },
            Instruction::Input,
            Instruction::Output,
            Instruction::Halt,
        ]
    );
}

#[test]
fn all_decrement_loop_emits_clear() {
    let list = compile("[-]").unwrap();
    assert_eq!(list.0, vec![Instruction::Clear, Instruction::Halt]);
}

#[test]
fn single_offset_loop_emits_add_until_zero() {
    let list = compile("[->+<]").unwrap();
    assert_eq!(
        list.0,
        vec![
            Instruction::AddUntilZero {
                target: vec![AddUntilZeroArg { offset: 1, times: 1 }],
            },
            Instruction::Halt,
        ]
    );
}

#[test]
fn multi_offset_loop_keeps_first_visited_order() {
    let list = compile("[->++>+++<<-]").unwrap();
    // the starting cell loses one at the front and one at the back of the
    // body: net -2 per pass, so the idiom does not match
    assert!(matches!(list.0[0], Instruction::JumpIfZero { .. }));

    let list = compile("[->++>+++<<]").unwrap();
    assert_eq!(
        list.0,
        vec![
            Instruction::AddUntilZero {
                target: vec![
                    AddUntilZeroArg { offset: 1, times: 2 },
                    AddUntilZeroArg { offset: 2, times: 3 },
                ],
            },
            Instruction::Halt,
        ]
    );
}

#[test]
fn io_in_loop_body_disables_the_optimization() {
    let list = compile("[.]").unwrap();
    assert_eq!(
        list.0,
        vec![
            Instruction::JumpIfZero { target: 3 },
            Instruction::Output,
            Instruction::Jump { target: 0 },
            Instruction::Halt,
        ]
    );
}

#[test]
fn nested_loop_disables_the_optimization_outside() {
    let list = compile("[[-]]").unwrap();
    assert_eq!(
        list.0,
        vec![
            Instruction::JumpIfZero { target: 3 },
            Instruction::Clear,
            Instruction::Jump { target: 0 },
            Instruction::Halt,
        ]
    );
}

#[test]
fn net_displacement_must_be_zero() {
    let list = compile("[->+]").unwrap();
    assert!(matches!(list.0[0], Instruction::JumpIfZero { .. }));
}

#[test]
fn lexer_keeps_only_command_characters_in_order() {
    let tokens = build_token_list("a+b[-]c.<>,x");
    assert_eq!(
        tokens,
        vec![
            Token::Increment,
            Token::LoopOpen,
            Token::Decrement,
            Token::LoopClose,
            Token::Output,
            Token::MoveLeft,
            Token::MoveRight,
            Token::Input,
        ]
    );
}

#[test]
fn parser_builds_nested_annotated_loops() {
    let tokens = build_token_list("+[[-]]");
    let tree = Parser::new().parse(tokens).unwrap();
    assert_eq!(tree.0.len(), 2);
    assert!(matches!(tree.0[0], SyntaxNode::Increment));
    match &tree.0[1] {
        SyntaxNode::Loop { body, optimization } => {
            // a nested loop disqualifies the outer body
            assert!(optimization.is_none());
            assert_eq!(body.len(), 1);
            match &body[0] {
                SyntaxNode::Loop { body, optimization } => {
                    assert!(matches!(body[0], SyntaxNode::Decrement));
                    // a pure countdown summarizes to an empty list
                    assert_eq!(optimization.as_deref(), Some(&[][..]));
                }
                _ => panic!("expected the inner loop"),
            }
        }
        _ => panic!("expected the outer loop"),
    }
}
