//! Linear instruction emission: a depth-first walk of the syntax tree that
//! emits a flat instruction sequence with every jump target resolved to an
//! absolute index, terminated by a single sentinel `Halt`.

use vstd::prelude::*;

use crate::compiler::parser::{AddUntilZeroArg, SyntaxNode, SyntaxTree};

verus! {

/// One executable instruction. Jump targets are absolute indices into the
/// final instruction sequence, resolved once at compile time.
#[verifier::ext_equal]
#[derive(Debug, PartialEq, Eq)]
pub enum Instruction {
    /// Add `val` to the cell under the pointer.
    Add { val: i32 },
    /// Move the pointer by `offset`.
    Seek { offset: i32 },
    /// Zero the cell under the pointer.
    Clear,
    /// Take the current cell's value `v`, zero the cell, and add `v × times`
    /// to the cell at each `offset`; a no-op when `v` is zero.
    AddUntilZero { target: Vec<AddUntilZeroArg> },
    /// Read one value from the input stream into the cell.
    Input,
    /// Write the cell's value to the output stream.
    Output,
    /// Continue at `target`.
    Jump { target: usize },
    /// Continue at `target` when the cell under the pointer is zero.
    JumpIfZero { target: usize },
    /// The sentinel closing every compiled program.
    Halt,
}

/// An ordered instruction sequence, always ending in exactly one `Halt`.
#[derive(Debug, PartialEq, Eq)]
pub struct InstructionList(pub Vec<Instruction>);

/// How many instructions a node compiles to.
pub open spec fn node_code_len(n: SyntaxNode) -> int
    decreases n,
{
    match n {
        SyntaxNode::Loop { body, optimization: None } => 2 + nodes_code_len(body@),
        _ => 1,
    }
}

/// How many instructions a node sequence compiles to.
pub open spec fn nodes_code_len(ns: Seq<SyntaxNode>) -> int
    decreases ns,
{
    if ns.len() == 0 {
        0
    } else {
        nodes_code_len(ns.drop_last()) + node_code_len(ns.last())
    }
}

/// The instructions a node standing at position `p` compiles to.
pub open spec fn emit_node(n: SyntaxNode, p: int) -> Seq<Instruction>
    decreases n,
{
    match n {
        SyntaxNode::Increment => seq![Instruction::Add { val: 1 }],
        SyntaxNode::Decrement => seq![Instruction::Add { val: -1i32 }],
        SyntaxNode::MoveLeft => seq![Instruction::Seek { offset: -1i32 }],
        SyntaxNode::MoveRight => seq![Instruction::Seek { offset: 1 }],
        SyntaxNode::Input => seq![Instruction::Input],
        SyntaxNode::Output => seq![Instruction::Output],
        SyntaxNode::Loop { body, optimization: Some(args) } => if args@.len() == 0 {
            seq![Instruction::Clear]
        } else {
            seq![Instruction::AddUntilZero { target: args }]
        },
        SyntaxNode::Loop { body, optimization: None } => seq![
            Instruction::JumpIfZero { target: (p + nodes_code_len(body@) + 2) as usize },
        ] + emit_nodes(body@, p + 1) + seq![Instruction::Jump { target: p as usize }],
    }
}

/// The instructions a node sequence starting at position `p` compiles to.
pub open spec fn emit_nodes(ns: Seq<SyntaxNode>, p: int) -> Seq<Instruction>
    decreases ns,
{
    if ns.len() == 0 {
        Seq::empty()
    } else {
        emit_nodes(ns.drop_last(), p) + emit_node(
            ns.last(),
            p + nodes_code_len(ns.drop_last()),
        )
    }
}

/// The whole program a tree compiles to: its nodes' code and the sentinel.
pub open spec fn compile_tree(t: SyntaxTree) -> Seq<Instruction> {
    emit_nodes(t.0@, 0) + seq![Instruction::Halt]
}

/// Whether an instruction keeps its jump targets, if any, in `[lo, hi]`.
pub open spec fn instr_bounded(inst: Instruction, lo: int, hi: int) -> bool {
    match inst {
        Instruction::Jump { target } => lo <= target as int <= hi,
        Instruction::JumpIfZero { target } => lo <= target as int <= hi,
        _ => true,
    }
}

/// A well-formed program: non-empty, closed by its only `Halt`, and with
/// every jump target a valid index.
pub open spec fn wf_program(prog: Seq<Instruction>) -> bool {
    &&& prog.len() >= 1
    &&& prog.last() is Halt
    &&& forall|k: int| 0 <= k < prog.len() - 1 ==> !((#[trigger] prog[k]) is Halt)
    &&& forall|k: int|
        0 <= k < prog.len() ==> instr_bounded(#[trigger] prog[k], 0, prog.len() - 1)
}

pub proof fn lemma_node_code_len(n: SyntaxNode, p: int)
    ensures
        emit_node(n, p).len() == node_code_len(n),
        node_code_len(n) >= 1,
    decreases n,
{
    match n {
        SyntaxNode::Loop { body, optimization: None } => {
            lemma_nodes_code_len(body@, p + 1);
        },
        _ => {},
    }
}

pub proof fn lemma_nodes_code_len(ns: Seq<SyntaxNode>, p: int)
    ensures
        emit_nodes(ns, p).len() == nodes_code_len(ns),
        nodes_code_len(ns) >= 0,
    decreases ns,
{
    if ns.len() > 0 {
        lemma_nodes_code_len(ns.drop_last(), p);
        lemma_node_code_len(ns.last(), p + nodes_code_len(ns.drop_last()));
    }
}

/// Every instruction a node emits is jump-bounded by the node's own code
/// span, and none of them is a `Halt`.
pub proof fn lemma_emit_node_bounded(n: SyntaxNode, p: int)
    requires
        0 <= p,
        p + node_code_len(n) <= usize::MAX,
    ensures
        forall|k: int|
            0 <= k < emit_node(n, p).len() ==> instr_bounded(
                #[trigger] emit_node(n, p)[k],
                p,
                p + node_code_len(n),
            ) && !(emit_node(n, p)[k] is Halt),
    decreases n,
{
    lemma_node_code_len(n, p);
    match n {
        SyntaxNode::Loop { body, optimization: None } => {
            lemma_nodes_code_len(body@, p + 1);
            lemma_emit_nodes_bounded(body@, p + 1);
        },
        _ => {},
    }
}

/// Every instruction a node sequence emits is jump-bounded by the sequence's
/// own code span, and none of them is a `Halt`.
pub proof fn lemma_emit_nodes_bounded(ns: Seq<SyntaxNode>, p: int)
    requires
        0 <= p,
        p + nodes_code_len(ns) <= usize::MAX,
    ensures
        forall|k: int|
            0 <= k < emit_nodes(ns, p).len() ==> instr_bounded(
                #[trigger] emit_nodes(ns, p)[k],
                p,
                p + nodes_code_len(ns),
            ) && !(emit_nodes(ns, p)[k] is Halt),
    decreases ns,
{
    lemma_nodes_code_len(ns, p);
    if ns.len() > 0 {
        let pre = ns.drop_last();
        let q = p + nodes_code_len(pre);
        lemma_nodes_code_len(pre, p);
        lemma_node_code_len(ns.last(), q);
        lemma_emit_nodes_bounded(pre, p);
        lemma_emit_node_bounded(ns.last(), q);
    }
}

/// A compiled tree is a well-formed program.
pub proof fn lemma_compile_tree_wf(t: SyntaxTree)
    requires
        nodes_code_len(t.0@) < usize::MAX,
    ensures
        wf_program(compile_tree(t)),
        compile_tree(t).len() == nodes_code_len(t.0@) + 1,
{
    lemma_nodes_code_len(t.0@, 0);
    lemma_emit_nodes_bounded(t.0@, 0);
}

/// Emits the code of `nodes` at the end of `out`, depth first, with all
/// jump targets resolved by backpatching.
#[verifier::loop_isolation(false)]
fn emit_into(nodes: Vec<SyntaxNode>, out: &mut Vec<Instruction>)
    ensures
        final(out)@ == old(out)@ + emit_nodes(nodes@, old(out)@.len() as int),
    decreases nodes,
{
    let ghost nodes0 = nodes;
    let ghost base = old(out)@.len() as int;
    let mut rest = nodes;
    let n_total = rest.len();
    let mut k: usize = 0;
    proof {
        assert(out@ =~= old(out)@ + emit_nodes(nodes0@.take(0), base));
        assert(nodes0@.skip(0) =~= nodes0@);
    }
    while rest.len() > 0
        invariant
            0 <= k <= n_total,
            rest@ == nodes0@.skip(k as int),
            out@ == old(out)@ + emit_nodes(nodes0@.take(k as int), base),
        decreases rest@.len(),
    {
        let ghost node_g = rest@[0];
        let ghost prefix = nodes0@.take(k as int);
        let ghost pos = base + nodes_code_len(prefix);
        proof {
            lemma_nodes_code_len(prefix, base);
            assert(node_g == nodes0@[k as int]);
            assert(nodes0@.take(k + 1).drop_last() =~= prefix);
            assert(nodes0@.take(k + 1).last() == nodes0@[k as int]);
            assert(out@.len() == pos);
        }
        let node = rest.remove(0);
        match node {
            SyntaxNode::Increment => {
                out.push(Instruction::Add { val: 1 });
            },
            SyntaxNode::Decrement => {
                out.push(Instruction::Add { val: -1 });
            },
            SyntaxNode::MoveLeft => {
                out.push(Instruction::Seek { offset: -1 });
            },
            SyntaxNode::MoveRight => {
                out.push(Instruction::Seek { offset: 1 });
            },
            SyntaxNode::Input => {
                out.push(Instruction::Input);
            },
            SyntaxNode::Output => {
                out.push(Instruction::Output);
            },
            SyntaxNode::Loop { body, optimization } => {
                match optimization {
                    Some(args) => {
                        if args.len() == 0 {
                            out.push(Instruction::Clear);
                        } else {
                            out.push(Instruction::AddUntilZero { target: args });
                        }
                    },
                    None => {
                        let ghost body_g = body@;
                        proof {
                            assert(decreases_to!(nodes0 => nodes0@));
                            assert(decreases_to!(nodes0@ => nodes0@[k as int]));
                            assert(decreases_to!(node_g => body));
                        }
                        let top = out.len();
                        out.push(Instruction::JumpIfZero { target: 0 });
                        emit_into(body, out);
                        out.push(Instruction::Jump { target: top });
                        let end = out.len();
                        out[top] = Instruction::JumpIfZero { target: end };
                        proof {
                            lemma_nodes_code_len(body_g, pos + 1);
                            let pre = old(out)@ + emit_nodes(prefix, base);
                            let bl = nodes_code_len(body_g);
                            assert(pre.len() == pos);
                            assert(node_g == (SyntaxNode::Loop {
                                body: node_g->Loop_body,
                                optimization: None,
                            }));
                            assert(node_g->Loop_body@ == body_g);
                            assert(top as int == pos);
                            assert(end as int == pos + bl + 2);
                            assert(out@ =~= pre + seq![
                                Instruction::JumpIfZero { target: (pos + bl + 2) as usize },
                            ] + emit_nodes(body_g, pos + 1) + seq![
                                Instruction::Jump { target: pos as usize },
                            ]);
                            assert(out@ =~= pre + emit_node(node_g, pos));
                        }
                    },
                }
            },
        }
        proof {
            assert(nodes0@.skip(k as int).drop_first() =~= nodes0@.skip(k + 1));
            assert(out@ =~= old(out)@ + emit_nodes(prefix, base) + emit_node(node_g, pos));
            assert(emit_nodes(nodes0@.take(k + 1), base) == emit_nodes(prefix, base)
                + emit_node(node_g, pos));
            assert(out@ =~= old(out)@ + emit_nodes(nodes0@.take(k + 1), base));
        }
        k = k + 1;
    }
    proof {
        assert(nodes0@.take(k as int) =~= nodes0@);
    }
}

impl InstructionList {
    /// Compiles a syntax tree into a flat, jump-resolved instruction
    /// sequence terminated by the sentinel `Halt`.
    pub fn compile(tree: SyntaxTree) -> (r: InstructionList)
        ensures
            r.0@ == compile_tree(tree),
            wf_program(r.0@),
            r.0@.len() == 1 <==> tree.0@.len() == 0,
    {
        let ghost tree0 = tree;
        let mut out: Vec<Instruction> = Vec::new();
        emit_into(tree.0, &mut out);
        out.push(Instruction::Halt);
        let total = out.len();
        proof {
            lemma_nodes_code_len(tree.0@, 0);
            assert(total == nodes_code_len(tree.0@) + 1);
            assert(out@ =~~= compile_tree(tree));
            lemma_compile_tree_wf(tree);
            if tree.0@.len() > 0 {
                lemma_node_code_len(tree.0@.last(), nodes_code_len(tree.0@.drop_last()));
                lemma_nodes_code_len(tree.0@.drop_last(), 0);
            }
        }
        InstructionList(out)
    }
}

} // verus!
