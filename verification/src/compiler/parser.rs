//! Syntax-tree construction with bracket matching, and the loop-optimization
//! analysis that recognizes the clear-and-distribute idiom.
//!
//! A loop body matches the idiom when it consists solely of pointer moves and
//! single-cell increments/decrements, the net pointer displacement over the
//! body is zero, and the starting cell's net change per pass is exactly -1.
//! Such a loop is summarized by one `(offset, times)` pair per visited offset,
//! in first-visited order; displacement and per-offset counters are tracked in
//! 32-bit arithmetic, and a body whose counters leave that range is treated as
//! not matching and compiles to the plain jump form.

use vstd::prelude::*;

use crate::compiler::lexer::Token;

verus! {

/// One redistribution target of an optimized loop: the cell `offset` away
/// from the loop's starting cell receives `times` times the starting cell's
/// value per full execution.
#[derive(Clone, Copy, PartialEq, Eq, Structural, Debug)]
pub struct AddUntilZeroArg {
    pub offset: i32,
    pub times: i32,
}

/// A node of the syntax tree: a primitive command, or a loop owning its body.
pub enum SyntaxNode {
    /// `+`
    Increment,
    /// `-`
    Decrement,
    /// `<`
    MoveLeft,
    /// `>`
    MoveRight,
    /// `,`
    Input,
    /// `.`
    Output,
    /// A matched bracket pair and the nodes between them. `optimization`
    /// holds the clear-and-distribute summary when the body matches the
    /// idiom, and `None` otherwise.
    Loop { body: Vec<SyntaxNode>, optimization: Option<Vec<AddUntilZeroArg>> },
}

/// A whole program: the sequence of top-level nodes.
pub struct SyntaxTree(pub Vec<SyntaxNode>);

/// A bracket error, carrying the offending token's position in the token
/// sequence.
#[derive(Clone, Copy, PartialEq, Eq, Structural, Debug)]
pub enum ParseError {
    /// A loop was opened at `position` and never closed.
    UnmatchedOpenBracket { position: usize },
    /// A loop was closed at `position` with no open loop.
    UnmatchedCloseBracket { position: usize },
}

/// The verdict of bracket matching over a token sequence.
pub enum ScanOutcome {
    /// Every bracket is matched.
    Balanced,
    /// The close bracket at this position has no matching open.
    UnmatchedClose(usize),
    /// The innermost open bracket still unclosed when the tokens ran out.
    DanglingOpen(usize),
}

/// Bracket matching as a left-to-right scan from position `i` with the
/// positions of the currently open brackets on `stack`.
pub open spec fn scan_brackets(s: Seq<Token>, i: int, stack: Seq<int>) -> ScanOutcome
    decreases s.len() - i,
{
    if i < 0 || i >= s.len() {
        if stack.len() == 0 {
            ScanOutcome::Balanced
        } else {
            ScanOutcome::DanglingOpen(stack.last() as usize)
        }
    } else if s[i] is LoopOpen {
        scan_brackets(s, i + 1, stack.push(i))
    } else if s[i] is LoopClose {
        if stack.len() == 0 {
            ScanOutcome::UnmatchedClose(i as usize)
        } else {
            scan_brackets(s, i + 1, stack.drop_last())
        }
    } else {
        scan_brackets(s, i + 1, stack)
    }
}

/// The token sequence a node prints back to.
pub open spec fn flatten_node(n: SyntaxNode) -> Seq<Token>
    decreases n,
{
    match n {
        SyntaxNode::Increment => seq![Token::Increment],
        SyntaxNode::Decrement => seq![Token::Decrement],
        SyntaxNode::MoveLeft => seq![Token::MoveLeft],
        SyntaxNode::MoveRight => seq![Token::MoveRight],
        SyntaxNode::Input => seq![Token::Input],
        SyntaxNode::Output => seq![Token::Output],
        SyntaxNode::Loop { body, .. } => seq![Token::LoopOpen] + flatten_nodes(body@) + seq![
            Token::LoopClose,
        ],
    }
}

/// The token sequence a node sequence prints back to.
pub open spec fn flatten_nodes(ns: Seq<SyntaxNode>) -> Seq<Token>
    decreases ns,
{
    if ns.len() == 0 {
        Seq::empty()
    } else {
        flatten_nodes(ns.drop_last()) + flatten_node(ns.last())
    }
}

/// The running state of the loop-optimization analysis: the pointer's current
/// displacement from the starting cell, the starting cell's net change so
/// far, and one entry per visited non-zero offset in first-visited order.
#[verifier::ext_equal]
pub ghost struct LoopScan {
    pub cur: int,
    pub net0: int,
    pub args: Seq<AddUntilZeroArg>,
}

/// The state the analysis starts a body with.
pub open spec fn loop_scan_init() -> LoopScan {
    LoopScan { cur: 0, net0: 0, args: Seq::empty() }
}

/// The first entry for `offset`, or -1 if there is none.
pub open spec fn arg_index(args: Seq<AddUntilZeroArg>, offset: int) -> int
    decreases args.len(),
{
    if args.len() == 0 {
        -1
    } else if args[0].offset == offset {
        0
    } else {
        let r = arg_index(args.drop_first(), offset);
        if r == -1 {
            -1
        } else {
            r + 1
        }
    }
}

pub proof fn lemma_arg_index(args: Seq<AddUntilZeroArg>, offset: int)
    ensures
        arg_index(args, offset) == -1 ==> forall|k: int|
            0 <= k < args.len() ==> (#[trigger] args[k]).offset != offset,
        arg_index(args, offset) != -1 ==> {
            &&& 0 <= arg_index(args, offset) < args.len()
            &&& args[arg_index(args, offset)].offset == offset
            &&& forall|k: int|
                0 <= k < arg_index(args, offset) ==> (#[trigger] args[k]).offset != offset
        },
    decreases args.len(),
{
    if args.len() > 0 && args[0].offset != offset {
        lemma_arg_index(args.drop_first(), offset);
        let r = arg_index(args, offset);
        if arg_index(args.drop_first(), offset) == -1 {
            assert forall|k: int| 0 <= k < args.len() implies (#[trigger] args[k]).offset
                != offset by {
                if k > 0 {
                    assert(args[k] == args.drop_first()[k - 1]);
                }
            }
        } else {
            assert(args[r] == args.drop_first()[r - 1]);
            assert forall|k: int| 0 <= k < r implies (#[trigger] args[k]).offset != offset by {
                if k > 0 {
                    assert(args[k] == args.drop_first()[k - 1]);
                }
            }
        }
    }
}

/// One increment (`d == 1`) or decrement (`d == -1`) at the current offset.
pub open spec fn scan_bump(st: LoopScan, d: int) -> Option<LoopScan> {
    if st.cur == 0 {
        if i32::MIN <= st.net0 + d <= i32::MAX {
            Some(LoopScan { net0: st.net0 + d, ..st })
        } else {
            None
        }
    } else {
        let j = arg_index(st.args, st.cur);
        if j == -1 {
            None
        } else if i32::MIN <= st.args[j].times + d <= i32::MAX {
            Some(
                LoopScan {
                    args: st.args.update(
                        j,
                        AddUntilZeroArg {
                            offset: st.args[j].offset,
                            times: (st.args[j].times + d) as i32,
                        },
                    ),
                    ..st
                },
            )
        } else {
            None
        }
    }
}

/// One pointer move by `d` (`1` or `-1`), recording a first visit.
pub open spec fn scan_move(st: LoopScan, d: int) -> Option<LoopScan> {
    let c = st.cur + d;
    if !(i32::MIN <= c <= i32::MAX) {
        None
    } else if c == 0 || arg_index(st.args, c) != -1 {
        Some(LoopScan { cur: c, ..st })
    } else {
        Some(
            LoopScan {
                cur: c,
                args: st.args.push(AddUntilZeroArg { offset: c as i32, times: 0 }),
                ..st
            },
        )
    }
}

/// One analysis step; `None` disqualifies the body from the optimization.
pub open spec fn scan_step(st: LoopScan, n: SyntaxNode) -> Option<LoopScan> {
    match n {
        SyntaxNode::Increment => scan_bump(st, 1),
        SyntaxNode::Decrement => scan_bump(st, -1),
        SyntaxNode::MoveLeft => scan_move(st, -1),
        SyntaxNode::MoveRight => scan_move(st, 1),
        _ => None,
    }
}

/// The analysis state after walking `ns` from state `st`.
pub open spec fn analyze_nodes(ns: Seq<SyntaxNode>, st: LoopScan) -> Option<LoopScan>
    decreases ns.len(),
{
    if ns.len() == 0 {
        Some(st)
    } else {
        match scan_step(st, ns[0]) {
            Some(st1) => analyze_nodes(ns.drop_first(), st1),
            None => None,
        }
    }
}

/// The clear-and-distribute summary of a loop body, or `None` when the body
/// does not match the idiom: the walk must succeed, the pointer must return
/// to the starting cell, and the starting cell must lose exactly 1 per pass.
pub open spec fn spec_analyze(body: Seq<SyntaxNode>) -> Option<Seq<AddUntilZeroArg>> {
    match analyze_nodes(body, loop_scan_init()) {
        Some(st) => if st.cur == 0 && st.net0 == -1 {
            Some(st.args)
        } else {
            None
        },
        None => None,
    }
}

/// Whether a node (and everything below it) carries exactly the optimization
/// summary the analysis assigns to its body.
pub open spec fn node_annotated(n: SyntaxNode) -> bool
    decreases n,
{
    match n {
        SyntaxNode::Loop { body, optimization } => {
            &&& match optimization {
                Some(args) => spec_analyze(body@) == Some(args@),
                None => spec_analyze(body@) is None,
            }
            &&& nodes_annotated(body@)
        },
        _ => true,
    }
}

/// Whether every node of the sequence is correctly annotated.
pub open spec fn nodes_annotated(ns: Seq<SyntaxNode>) -> bool
    decreases ns,
{
    if ns.len() == 0 {
        true
    } else {
        nodes_annotated(ns.drop_last()) && node_annotated(ns.last())
    }
}

/// The first entry for `offset` in `args`, or `None`.
fn find_arg(args: &Vec<AddUntilZeroArg>, offset: i32) -> (r: Option<usize>)
    ensures
        match r {
            Some(j) => {
                &&& j as int == arg_index(args@, offset as int)
                &&& j < args@.len()
                &&& args@[j as int].offset == offset
            },
            None => arg_index(args@, offset as int) == -1,
        },
{
    proof {
        lemma_arg_index(args@, offset as int);
    }
    let mut j: usize = 0;
    while j < args.len()
        invariant
            j <= args.len(),
            forall|k: int| 0 <= k < j ==> (#[trigger] args@[k]).offset != offset,
        decreases args.len() - j,
    {
        if args[j].offset == offset {
            proof {
                lemma_arg_index(args@, offset as int);
                let ai = arg_index(args@, offset as int);
                if ai == -1 {
                    assert(args@[j as int].offset != offset);
                } else if ai < j as int {
                    assert(args@[ai].offset != offset);
                } else if ai > j as int {
                    assert(args@[j as int].offset != offset);
                }
            }
            return Some(j);
        }
        j = j + 1;
    }
    None
}

/// Walks a completed loop body and returns its clear-and-distribute summary,
/// or `None` when the body does not match the idiom.
fn analyze(body: &Vec<SyntaxNode>) -> (r: Option<Vec<AddUntilZeroArg>>)
    ensures
        match r {
            Some(args) => spec_analyze(body@) == Some(args@),
            None => spec_analyze(body@) is None,
        },
{
    let mut cur: i32 = 0;
    let mut net0: i32 = 0;
    let mut args: Vec<AddUntilZeroArg> = Vec::new();
    let mut i: usize = 0;
    proof {
        assert(body@.skip(0) =~= body@);
    }
    while i < body.len()
        invariant
            i <= body.len(),
            analyze_nodes(body@, loop_scan_init()) == analyze_nodes(
                body@.skip(i as int),
                LoopScan { cur: cur as int, net0: net0 as int, args: args@ },
            ),
        decreases body.len() - i,
    {
        let ghost st = LoopScan { cur: cur as int, net0: net0 as int, args: args@ };
        proof {
            assert(body@.skip(i as int).drop_first() =~= body@.skip(i + 1));
            assert(body@.skip(i as int)[0] == body@[i as int]);
        }
        let (is_move, d): (bool, i32) = match &body[i] {
            SyntaxNode::Increment => (false, 1),
            SyntaxNode::Decrement => (false, -1),
            SyntaxNode::MoveLeft => (true, -1),
            SyntaxNode::MoveRight => (true, 1),
            _ => {
                return None;
            },
        };
        if !is_move {
            // a single-cell increment or decrement at the current offset
            if cur == 0 {
                if (d == 1 && net0 == i32::MAX) || (d == -1 && net0 == i32::MIN) {
                    return None;
                }
                net0 = net0 + d;
            } else {
                match find_arg(&args, cur) {
                    None => {
                        return None;
                    },
                    Some(j) => {
                        let t = args[j].times;
                        let off_j = args[j].offset;
                        if (d == 1 && t == i32::MAX) || (d == -1 && t == i32::MIN) {
                            return None;
                        }
                        args[j] = AddUntilZeroArg { offset: off_j, times: t + d };
                    },
                }
            }
            proof {
                assert(scan_step(st, body@[i as int]) == Some(
                    LoopScan { cur: cur as int, net0: net0 as int, args: args@ },
                ));
            }
        } else {
            // a pointer move by one cell
            if (d == 1 && cur == i32::MAX) || (d == -1 && cur == i32::MIN) {
                return None;
            }
            cur = cur + d;
            if cur != 0 {
                match find_arg(&args, cur) {
                    None => {
                        args.push(AddUntilZeroArg { offset: cur, times: 0 });
                    },
                    Some(_) => {},
                }
            }
            proof {
                assert(scan_step(st, body@[i as int]) == Some(
                    LoopScan { cur: cur as int, net0: net0 as int, args: args@ },
                ));
            }
        }
        i = i + 1;
    }
    proof {
        assert(body@.skip(body@.len() as int) =~= Seq::<SyntaxNode>::empty());
    }
    if cur == 0 && net0 == -1 {
        Some(args)
    } else {
        None
    }
}

/// A node never prints back to nothing, so only the empty node sequence
/// prints back to the empty token sequence.
pub proof fn lemma_flatten_nodes_len(ns: Seq<SyntaxNode>)
    ensures
        ns.len() == 0 ==> flatten_nodes(ns).len() == 0,
        ns.len() > 0 ==> flatten_nodes(ns).len() > 0,
{
    if ns.len() > 0 {
        match ns.last() {
            SyntaxNode::Loop { body, optimization } => {
                assert(flatten_node(ns.last()).len() >= 2);
            },
            _ => {
                assert(flatten_node(ns.last()).len() == 1);
            },
        }
    }
}

/// The bracket positions of a stack of open loop frames.
spec fn frames_positions(fs: Seq<(usize, Vec<SyntaxNode>)>) -> Seq<int> {
    fs.map_values(|f: (usize, Vec<SyntaxNode>)| f.0 as int)
}

/// The tokens consumed so far by a stack of open loop frames: each frame's
/// finished nodes followed by its still-open bracket.
spec fn frames_flat(fs: Seq<(usize, Vec<SyntaxNode>)>) -> Seq<Token>
    decreases fs.len(),
{
    if fs.len() == 0 {
        Seq::empty()
    } else {
        frames_flat(fs.drop_last()) + flatten_nodes(fs.last().1@) + seq![Token::LoopOpen]
    }
}

/// Whether every node in every frame is correctly annotated.
spec fn frames_annotated(fs: Seq<(usize, Vec<SyntaxNode>)>) -> bool
    decreases fs.len(),
{
    if fs.len() == 0 {
        true
    } else {
        frames_annotated(fs.drop_last()) && nodes_annotated(fs.last().1@)
    }
}

proof fn lemma_flatten_push(ns: Seq<SyntaxNode>, n: SyntaxNode)
    ensures
        flatten_nodes(ns.push(n)) == flatten_nodes(ns) + flatten_node(n),
        nodes_annotated(ns.push(n)) == (nodes_annotated(ns) && node_annotated(n)),
{
    assert(ns.push(n).drop_last() =~= ns);
    assert(ns.push(n).last() == n);
}

proof fn lemma_frames_push(fs: Seq<(usize, Vec<SyntaxNode>)>, f: (usize, Vec<SyntaxNode>))
    ensures
        frames_flat(fs.push(f)) == frames_flat(fs) + flatten_nodes(f.1@) + seq![Token::LoopOpen],
        frames_positions(fs.push(f)) == frames_positions(fs).push(f.0 as int),
        frames_annotated(fs.push(f)) == (frames_annotated(fs) && nodes_annotated(f.1@)),
{
    assert(fs.push(f).drop_last() =~= fs);
    assert(fs.push(f).last() == f);
    assert(frames_positions(fs.push(f)) =~= frames_positions(fs).push(f.0 as int));
}

/// Builds syntax trees from token sequences.
pub struct Parser;

impl Parser {
    pub fn new() -> (p: Parser) {
        Parser
    }

    /// Builds the syntax tree of `tokens`, with every loop body analyzed for
    /// the clear-and-distribute idiom, or reports the first bracket error:
    /// a close with no matching open yields `UnmatchedCloseBracket` at its
    /// position; otherwise, if opens remain when the tokens are exhausted,
    /// the innermost one yields `UnmatchedOpenBracket` at its position.
    pub fn parse(&self, tokens: Vec<Token>) -> (r: Result<SyntaxTree, ParseError>)
        ensures
            ({
                let outcome = scan_brackets(tokens@, 0, Seq::empty());
                match r {
                    Ok(tree) => {
                        &&& outcome is Balanced
                        &&& flatten_nodes(tree.0@) == tokens@
                        &&& nodes_annotated(tree.0@)
                    },
                    Err(ParseError::UnmatchedCloseBracket { position }) => outcome
                        == ScanOutcome::UnmatchedClose(position),
                    Err(ParseError::UnmatchedOpenBracket { position }) => outcome
                        == ScanOutcome::DanglingOpen(position),
                }
            }),
    {
        let n = tokens.len();
        let mut current: Vec<SyntaxNode> = Vec::new();
        let mut stack: Vec<(usize, Vec<SyntaxNode>)> = Vec::new();
        let mut i: usize = 0;
        proof {
            assert(tokens@.take(0) =~= Seq::<Token>::empty());
            assert(frames_positions(stack@) =~= Seq::<int>::empty());
        }
        while i < n
            invariant
                n == tokens@.len(),
                i <= n,
                scan_brackets(tokens@, 0, Seq::empty()) == scan_brackets(
                    tokens@,
                    i as int,
                    frames_positions(stack@),
                ),
                frames_flat(stack@) + flatten_nodes(current@) == tokens@.take(i as int),
                frames_annotated(stack@),
                nodes_annotated(current@),
            decreases n - i,
        {
            let t = tokens[i];
            proof {
                assert(tokens@.take(i + 1) =~= tokens@.take(i as int).push(tokens@[i as int]));
            }
            match t {
                Token::LoopOpen => {
                    let ghost stack0 = stack@;
                    let ghost current0 = current@;
                    stack.push((i, current));
                    current = Vec::new();
                    proof {
                        lemma_frames_push(stack0, stack@.last());
                        assert(flatten_nodes(current@) =~= Seq::<Token>::empty());
                        assert(frames_flat(stack@) + flatten_nodes(current@) =~= tokens@.take(
                            i + 1,
                        ));
                    }
                },
                Token::LoopClose => {
                    if stack.len() == 0 {
                        proof {
                            assert(frames_positions(stack@).len() == 0);
                        }
                        return Err(ParseError::UnmatchedCloseBracket { position: i });
                    }
                    let ghost stack0 = stack@;
                    let ghost current0 = current@;
                    let frame = stack.pop().unwrap();
                    let mut parent = frame.1;
                    let ghost parent0 = parent@;
                    let optimization = analyze(&current);
                    parent.push(SyntaxNode::Loop { body: current, optimization });
                    current = parent;
                    proof {
                        let node = current@.last();
                        assert(stack0 =~= stack@.push(frame));
                        lemma_frames_push(stack@, frame);
                        lemma_flatten_push(parent0, node);
                        assert(flatten_node(node) == seq![Token::LoopOpen] + flatten_nodes(
                            current0,
                        ) + seq![Token::LoopClose]);
                        assert(frames_flat(stack@) + flatten_nodes(current@) =~= tokens@.take(
                            i + 1,
                        ));
                        assert(frames_positions(stack0) =~= frames_positions(stack@).push(
                            frame.0 as int,
                        ));
                        assert(frames_positions(stack0).drop_last() =~= frames_positions(stack@));
                    }
                },
                _ => {
                    let node = match t {
                        Token::Increment => SyntaxNode::Increment,
                        Token::Decrement => SyntaxNode::Decrement,
                        Token::MoveLeft => SyntaxNode::MoveLeft,
                        Token::MoveRight => SyntaxNode::MoveRight,
                        Token::Input => SyntaxNode::Input,
                        _ => SyntaxNode::Output,
                    };
                    let ghost current0 = current@;
                    proof {
                        assert(flatten_node(node) =~= seq![t]);
                    }
                    current.push(node);
                    proof {
                        lemma_flatten_push(current0, node);
                        assert(frames_flat(stack@) + flatten_nodes(current@) =~= tokens@.take(
                            i + 1,
                        ));
                    }
                },
            }
            i = i + 1;
        }
        proof {
            assert(tokens@.take(n as int) =~= tokens@);
        }
        if stack.len() == 0 {
            proof {
                assert(frames_positions(stack@).len() == 0);
                assert(frames_flat(stack@) =~= Seq::<Token>::empty());
                assert(flatten_nodes(current@) =~= tokens@);
            }
            Ok(SyntaxTree(current))
        } else {
            let position = stack[stack.len() - 1].0;
            proof {
                assert(frames_positions(stack@).last() == position as int);
            }
            Err(ParseError::UnmatchedOpenBracket { position })
        }
    }
}

} // verus!
