//! The compile-time half of the crate: lexer, parser and instruction
//! emission, composed by the `Compiler` facade.

pub mod instruction;
pub mod lexer;
pub mod parser;

pub use instruction::{Instruction, InstructionList};
pub use parser::{AddUntilZeroArg, ParseError};

use vstd::prelude::*;

use crate::compiler::instruction::{compile_tree, nodes_code_len, wf_program};
use crate::compiler::lexer::{build_token_list, spec_tokens_of, Token};
use crate::compiler::parser::{
    flatten_nodes, nodes_annotated, scan_brackets, Parser, ScanOutcome, SyntaxTree,
};

verus! {

/// Whether `tree` is the syntax tree of `tokens`, correctly annotated, and
/// `prog` is its compiled form.
pub open spec fn compiles_to(tree: SyntaxTree, tokens: Seq<Token>, prog: Seq<Instruction>) -> bool {
    &&& flatten_nodes(tree.0@) == tokens
    &&& nodes_annotated(tree.0@)
    &&& prog == compile_tree(tree)
}

/// Composes lexer, parser and instruction emission into one entry point.
pub struct Compiler;

impl Compiler {
    pub fn new() -> (c: Compiler) {
        Compiler
    }

    /// Compiles source text into a complete, jump-resolved instruction list,
    /// or fails fast with the first bracket error. On success the program is
    /// well formed: it ends in its only `Halt` and every jump target is a
    /// valid index. A source without any loop token compiles if and only if
    /// it has no unmatched bracket, and a source with no command characters
    /// at all compiles to the one-instruction `Halt` program.
    pub fn compile(&self, code: &str) -> (r: Result<InstructionList, ParseError>)
        ensures
            ({
                let tokens = spec_tokens_of(code@);
                let outcome = scan_brackets(tokens, 0, Seq::empty());
                match r {
                    Ok(list) => {
                        &&& outcome is Balanced
                        &&& wf_program(list.0@)
                        &&& exists|tree: SyntaxTree| #[trigger] compiles_to(
                            tree,
                            tokens,
                            list.0@,
                        )
                        &&& (list.0@.len() == 1 <==> tokens.len() == 0)
                    },
                    Err(ParseError::UnmatchedCloseBracket { position }) => outcome
                        == ScanOutcome::UnmatchedClose(position),
                    Err(ParseError::UnmatchedOpenBracket { position }) => outcome
                        == ScanOutcome::DanglingOpen(position),
                }
            }),
    {
        let token_list = build_token_list(code);
        let parser = Parser::new();
        match parser.parse(token_list) {
            Ok(syntax_tree) => {
                let ghost tree_g = syntax_tree;
                proof {
                    crate::compiler::parser::lemma_flatten_nodes_len(tree_g.0@);
                }
                let instruction_list = InstructionList::compile(syntax_tree);
                proof {
                    assert(compiles_to(tree_g, spec_tokens_of(code@), instruction_list.0@));
                }
                Ok(instruction_list)
            },
            Err(e) => Err(e),
        }
    }
}

} // verus!
