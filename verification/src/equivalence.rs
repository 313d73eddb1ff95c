//! The correctness of the loop optimization: for a loop body matching the
//! clear-and-distribute idiom, the single emitted `AddUntilZero` instruction
//! leaves the tape exactly as iterating the body naively to completion
//! would, and the naive loop runs exactly one pass per unit of the starting
//! cell's value.
//!
//! The equivalence is stated for a tape with the wrap overflow policy, and
//! for runs in which the pointer never leaves the tape (so no cell aliasing
//! can arise from position wrap-around); an input on which that fails — a
//! body whose offsets reach around a short tape back onto the starting
//! cell — is excluded by `curs_ok`.

use vstd::prelude::*;

use crate::compiler::parser::{
    analyze_nodes, arg_index, lemma_arg_index, loop_scan_init, scan_step, spec_analyze,
    AddUntilZeroArg, LoopScan, SyntaxNode,
};
use crate::execution::memory::{spec_add, spec_seek, spec_set, MemSnapshot};
use crate::execution::processor::{spec_add_until_zero, spec_distribute};

verus! {

/// What one primitive body node does to the tape; nodes that cannot occur
/// in an analyzable body leave it unchanged.
pub open spec fn body_step(m: MemSnapshot, n: SyntaxNode) -> MemSnapshot {
    match n {
        SyntaxNode::Increment => match spec_add(m, 1) {
            Ok(m2) => m2,
            Err(_) => m,
        },
        SyntaxNode::Decrement => match spec_add(m, -1) {
            Ok(m2) => m2,
            Err(_) => m,
        },
        SyntaxNode::MoveLeft => match spec_seek(m, -1) {
            Ok(m2) => m2,
            Err(_) => m,
        },
        SyntaxNode::MoveRight => match spec_seek(m, 1) {
            Ok(m2) => m2,
            Err(_) => m,
        },
        _ => m,
    }
}

/// One naive pass over a loop body: its nodes applied left to right.
pub open spec fn exec_body(m: MemSnapshot, ns: Seq<SyntaxNode>) -> MemSnapshot
    decreases ns.len(),
{
    if ns.len() == 0 {
        m
    } else {
        exec_body(body_step(m, ns[0]), ns.drop_first())
    }
}

/// `k` naive passes over a loop body.
pub open spec fn exec_passes(m: MemSnapshot, ns: Seq<SyntaxNode>, k: nat) -> MemSnapshot
    decreases k,
{
    if k == 0 {
        m
    } else {
        exec_passes(exec_body(m, ns), ns, (k - 1) as nat)
    }
}

/// Whether every pointer position the body visits, starting from
/// displacement `cur` against base position `p0`, stays on the tape.
pub open spec fn curs_ok(ns: Seq<SyntaxNode>, cur: int, p0: int, len: int) -> bool
    decreases ns.len(),
{
    &&& 0 <= p0 + cur < len
    &&& if ns.len() == 0 {
        true
    } else {
        let c2 = match ns[0] {
            SyntaxNode::MoveLeft => cur - 1,
            SyntaxNode::MoveRight => cur + 1,
            _ => cur,
        };
        curs_ok(ns.drop_first(), c2, p0, len)
    }
}

/// Whether a redistribution summary only names distinct non-zero offsets
/// that stay on the tape relative to base position `p0`.
pub open spec fn args_ok(args: Seq<AddUntilZeroArg>, p0: int, len: int) -> bool {
    &&& forall|k: int|
        0 <= k < args.len() ==> (#[trigger] args[k]).offset != 0 && 0 <= p0 + args[k].offset
            < len
    &&& forall|k1: int, k2: int|
        0 <= k1 < k2 < args.len() ==> (#[trigger] args[k1]).offset != (
        #[trigger] args[k2]).offset
}

/// The net increment the analysis has recorded for offset `c`.
pub open spec fn net_times(args: Seq<AddUntilZeroArg>, c: int) -> int {
    let k = arg_index(args, c);
    if k == -1 {
        0
    } else {
        args[k].times as int
    }
}

/// The net change a pass applies at displacement `c`, by analysis state.
pub open spec fn net_of(st: LoopScan, c: int) -> int {
    if c == 0 {
        st.net0
    } else {
        net_times(st.args, c)
    }
}

/// Two summaries with pointwise equal offsets agree on every lookup.
proof fn lemma_arg_index_congruent(a1: Seq<AddUntilZeroArg>, a2: Seq<AddUntilZeroArg>, c: int)
    requires
        a1.len() == a2.len(),
        forall|k: int| 0 <= k < a1.len() ==> (#[trigger] a1[k]).offset == a2[k].offset,
    ensures
        arg_index(a1, c) == arg_index(a2, c),
    decreases a1.len(),
{
    if a1.len() > 0 && a1[0].offset != c {
        lemma_arg_index_congruent(a1.drop_first(), a2.drop_first(), c);
        assert(forall|k: int|
            0 <= k < a1.drop_first().len() ==> (#[trigger] a1.drop_first()[k]).offset == a1[k
                + 1].offset);
        assert(forall|k: int|
            0 <= k < a2.drop_first().len() ==> (#[trigger] a2.drop_first()[k]).offset == a2[k
                + 1].offset);
    }
}

/// Appending an entry leaves earlier lookups alone and resolves its own
/// offset to the new slot when it was absent.
proof fn lemma_arg_index_push(args: Seq<AddUntilZeroArg>, e: AddUntilZeroArg, c: int)
    ensures
        arg_index(args, c) != -1 ==> arg_index(args.push(e), c) == arg_index(args, c),
        arg_index(args, c) == -1 && e.offset == c ==> arg_index(args.push(e), c) == args.len(),
        arg_index(args, c) == -1 && e.offset != c ==> arg_index(args.push(e), c) == -1,
    decreases args.len(),
{
    let p = args.push(e);
    if args.len() == 0 {
        assert(p[0] == e);
        if e.offset == c {
            assert(arg_index(p, c) == 0);
        } else {
            assert(p.drop_first() =~= Seq::<AddUntilZeroArg>::empty());
            assert(arg_index(p.drop_first(), c) == -1);
            assert(arg_index(p, c) == -1);
        }
    } else {
        assert(p[0] == args[0]);
        if args[0].offset == c {
            assert(arg_index(args, c) == 0);
            assert(arg_index(p, c) == 0);
        } else {
            lemma_arg_index_push(args.drop_first(), e, c);
            lemma_arg_index(args.drop_first(), c);
            lemma_arg_index(p.drop_first(), c);
            assert(p.drop_first() =~= args.drop_first().push(e));
            let r = arg_index(args.drop_first(), c);
            let rp = arg_index(p.drop_first(), c);
            assert(arg_index(args, c) == (if r == -1 { -1int } else { r + 1 }));
            assert(arg_index(p, c) == (if rp == -1 { -1int } else { rp + 1 }));
            assert(args.drop_first().len() == args.len() - 1);
        }
    }
}

/// The analysis state reached from a well-placed state keeps its summary
/// well placed, and one naive pass of the walked suffix changes each cell
/// by exactly the recorded net difference, modulo the cell range.
proof fn lemma_pass(
    ns: Seq<SyntaxNode>,
    st: LoopScan,
    st_f: LoopScan,
    m: MemSnapshot,
    p0: int,
)
    requires
        m.wf(),
        m.overflow is Wrap,
        analyze_nodes(ns, st) == Some(st_f),
        m.ptr == p0 + st.cur,
        curs_ok(ns, st.cur, p0, m.cells.len() as int),
        args_ok(st.args, p0, m.cells.len() as int),
    ensures
        ({
            let mf = exec_body(m, ns);
            &&& mf.wf()
            &&& mf.cells.len() == m.cells.len()
            &&& mf.cell_max == m.cell_max
            &&& mf.overflow == m.overflow
            &&& mf.bound == m.bound
            &&& mf.ptr == p0 + st_f.cur
            &&& args_ok(st_f.args, p0, m.cells.len() as int)
            &&& forall|j: int|
                0 <= j < m.cells.len() ==> (#[trigger] mf.cells[j]) as int == (m.cells[j] + (
                net_of(st_f, j - p0) - net_of(st, j - p0))) % m.range()
        }),
    decreases ns.len(),
{
    vstd::arithmetic::div_mod::lemma_mod_self_0(m.range());
    if ns.len() == 0 {
        assert forall|j: int| 0 <= j < m.cells.len() implies (#[trigger] m.cells[j]) as int == (
            m.cells[j] + (net_of(st_f, j - p0) - net_of(st, j - p0))) % m.range() by {
            vstd::arithmetic::div_mod::lemma_small_mod(m.cells[j] as nat, m.range() as nat);
        }
    } else {
        let n0 = ns[0];
        let rest = ns.drop_first();
        let st1 = scan_step(st, n0).unwrap();
        let m1 = body_step(m, n0);
        match n0 {
            SyntaxNode::Increment | SyntaxNode::Decrement => {
                let d: int = if n0 is Increment {
                    1
                } else {
                    -1
                };
                assert(spec_add(m, d) is Ok) by {
                    vstd::arithmetic::div_mod::lemma_mod_bound(
                        m.cells[m.ptr] + d,
                        m.range(),
                    );
                }
                let w = m1.cells[m.ptr] as int;
                assert(w == (m.cells[m.ptr] + d) % m.range()) by {
                    vstd::arithmetic::div_mod::lemma_mod_bound(
                        m.cells[m.ptr] + d,
                        m.range(),
                    );
                    if 0 <= m.cells[m.ptr] + d <= m.cell_max {
                        vstd::arithmetic::div_mod::lemma_small_mod(
                            (m.cells[m.ptr] + d) as nat,
                            m.range() as nat,
                        );
                    }
                }
                assert(m1.wf()) by {
                    vstd::arithmetic::div_mod::lemma_mod_bound(
                        m.cells[m.ptr] + d,
                        m.range(),
                    );
                }
                // the analysis bumps the net at the current displacement
                if st.cur == 0 {
                    assert(st1 == (LoopScan { net0: st.net0 + d, ..st }));
                } else {
                    let k = arg_index(st.args, st.cur);
                    lemma_arg_index(st.args, st.cur);
                    lemma_arg_index_congruent(st1.args, st.args, st.cur);
                    assert(net_of(st1, st.cur) == net_of(st, st.cur) + d);
                }
                assert forall|c: int| c != st.cur implies net_of(st1, c) == net_of(st, c) by {
                    if c != 0 && st.cur != 0 {
                        lemma_arg_index_congruent(st1.args, st.args, c);
                        lemma_arg_index(st.args, c);
                    }
                }
                assert(net_of(st1, st.cur) == net_of(st, st.cur) + d);
                assert(args_ok(st1.args, p0, m.cells.len() as int));
                lemma_pass(rest, st1, st_f, m1, p0);
                let mf = exec_body(m, ns);
                assert(mf == exec_body(m1, rest));
                assert forall|j: int| 0 <= j < m.cells.len() implies (
                #[trigger] mf.cells[j]) as int == (m.cells[j] + (net_of(st_f, j - p0) - net_of(
                    st,
                    j - p0,
                ))) % m.range() by {
                    let c = j - p0;
                    let x = m.cells[j] as int;
                    let y = net_of(st_f, c) - net_of(st1, c);
                    let rr = m.range();
                    assert(mf.cells[j] as int == (m1.cells[j] + y) % rr);
                    if j == m.ptr {
                        assert(m1.cells[j] as int == (x + d) % rr);
                        vstd::arithmetic::div_mod::lemma_add_mod_noop_right(
                            (x + d) % rr,
                            y,
                            rr,
                        );
                        vstd::arithmetic::div_mod::lemma_add_mod_noop(x + d, y, rr);
                        assert((((x + d) % rr) + y) % rr == (x + d + y) % rr);
                        assert(x + d + y == x + (net_of(st_f, c) - net_of(st, c)));
                    } else {
                        assert(m1.cells[j] == m.cells[j]);
                        assert(net_of(st1, c) == net_of(st, c));
                    }
                }
            },
            SyntaxNode::MoveLeft | SyntaxNode::MoveRight => {
                let d: int = if n0 is MoveRight {
                    1
                } else {
                    -1
                };
                let c2 = st.cur + d;
                assert(curs_ok(rest, c2, p0, m.cells.len() as int));
                assert(0 <= p0 + c2 < m.cells.len());
                assert(spec_seek(m, d) is Ok);
                assert(m1.ptr == p0 + c2);
                assert(m1.cells == m.cells);
                // a first visit records offset c2 with times 0, which
                // changes no net
                assert forall|c: int| true implies net_of(st1, c) == net_of(st, c) by {
                    if c != 0 {
                        if c2 == 0 || arg_index(st.args, c2) != -1 {
                            assert(st1.args == st.args);
                        } else {
                            lemma_arg_index_push(
                                st.args,
                                AddUntilZeroArg { offset: c2 as i32, times: 0 },
                                c,
                            );
                            lemma_arg_index(st.args, c);
                            lemma_arg_index(st1.args, c);
                            if c == c2 {
                                assert(st1.args[st.args.len() as int].times == 0);
                            }
                        }
                    }
                }
                assert(args_ok(st1.args, p0, m.cells.len() as int)) by {
                    if c2 != 0 && arg_index(st.args, c2) == -1 {
                        lemma_arg_index(st.args, c2);
                        assert forall|k: int| 0 <= k < st1.args.len() implies (
                        #[trigger] st1.args[k]).offset != 0 && 0 <= p0 + st1.args[k].offset
                            < m.cells.len() by {
                            if k < st.args.len() {
                            } else {
                                assert(st1.args[k].offset == c2 as i32);
                            }
                        }
                        assert forall|k1: int, k2: int|
                            0 <= k1 < k2 < st1.args.len() implies (
                        #[trigger] st1.args[k1]).offset != (#[trigger] st1.args[k2]).offset by {
                            if k2 == st.args.len() {
                                assert(st1.args[k1].offset != c2 as i32);
                            }
                        }
                    }
                }
                lemma_pass(rest, st1, st_f, m1, p0);
                let mf = exec_body(m, ns);
                assert(mf == exec_body(m1, rest));
            },
            _ => {
                assert(false);
            },
        }
    }
}

/// `k` naive passes from a state the analysis accepts change each cell by
/// `k` times its recorded net, modulo the cell range, and return the
/// pointer to the starting cell every time.
proof fn lemma_passes(ns: Seq<SyntaxNode>, st_f: LoopScan, m: MemSnapshot, k: nat)
    requires
        m.wf(),
        m.overflow is Wrap,
        analyze_nodes(ns, loop_scan_init()) == Some(st_f),
        st_f.cur == 0,
        curs_ok(ns, 0, m.ptr, m.cells.len() as int),
    ensures
        ({
            let mk = exec_passes(m, ns, k);
            &&& mk.wf()
            &&& mk.cells.len() == m.cells.len()
            &&& mk.cell_max == m.cell_max
            &&& mk.overflow == m.overflow
            &&& mk.bound == m.bound
            &&& mk.ptr == m.ptr
            &&& forall|j: int|
                0 <= j < m.cells.len() ==> (#[trigger] mk.cells[j]) as int == (m.cells[j] + k
                    * net_of(st_f, j - m.ptr)) % m.range()
        }),
    decreases k,
{
    let p0 = m.ptr;
    let rr = m.range();
    if k == 0 {
        assert forall|j: int| 0 <= j < m.cells.len() implies (#[trigger] m.cells[j]) as int == (
            m.cells[j] + 0 * net_of(st_f, j - p0)) % rr by {
            vstd::arithmetic::div_mod::lemma_small_mod(m.cells[j] as nat, rr as nat);
        }
    } else {
        lemma_pass(ns, loop_scan_init(), st_f, m, p0);
        let m1 = exec_body(m, ns);
        assert forall|c: int| true implies net_of(loop_scan_init(), c) == 0 by {
            assert(arg_index(Seq::<AddUntilZeroArg>::empty(), c) == -1);
        }
        lemma_passes(ns, st_f, m1, (k - 1) as nat);
        let mk = exec_passes(m, ns, k);
        assert(mk == exec_passes(m1, ns, (k - 1) as nat));
        assert forall|j: int| 0 <= j < m.cells.len() implies (#[trigger] mk.cells[j]) as int == (
            m.cells[j] + k * net_of(st_f, j - p0)) % rr by {
            let x = m.cells[j] as int;
            let t = net_of(st_f, j - p0);
            assert(m1.cells[j] as int == (x + t) % rr);
            assert(mk.cells[j] as int == (m1.cells[j] + (k - 1) * t) % rr);
            vstd::arithmetic::div_mod::lemma_add_mod_noop_right((x + t) % rr, (k - 1) * t, rr);
            vstd::arithmetic::div_mod::lemma_add_mod_noop(x + t, (k - 1) * t, rr);
            assert((((x + t) % rr) + (k - 1) * t) % rr == (x + t + (k - 1) * t) % rr);
            assert(t + (k - 1) * t == k * t) by (nonlinear_arith);
        }
    }
}

/// Executing a well-placed redistribution list under the wrap policy never
/// fails, returns the pointer to the starting cell, and adds `v` times the
/// recorded factor to each named cell, modulo the cell range.
proof fn lemma_distribute_pointwise(m0: MemSnapshot, args: Seq<AddUntilZeroArg>, v: int, p0: int)
    requires
        m0.wf(),
        m0.overflow is Wrap,
        m0.ptr == p0,
        args_ok(args, p0, m0.cells.len() as int),
    ensures
        ({
            let (mr, e) = spec_distribute(m0, args, v);
            &&& e is None
            &&& mr.wf()
            &&& mr.cells.len() == m0.cells.len()
            &&& mr.cell_max == m0.cell_max
            &&& mr.overflow == m0.overflow
            &&& mr.bound == m0.bound
            &&& mr.ptr == p0
            &&& forall|j: int|
                0 <= j < m0.cells.len() ==> (#[trigger] mr.cells[j]) as int == (if j != p0
                    && arg_index(args, j - p0) != -1 {
                    (m0.cells[j] + v * net_times(args, j - p0)) % m0.range()
                } else {
                    m0.cells[j] as int
                })
        }),
    decreases args.len(),
{
    let rr = m0.range();
    if args.len() > 0 {
        let a = args[0];
        let rest = args.drop_first();
        assert(a.offset != 0 && 0 <= p0 + a.offset < m0.cells.len());
        let m1 = spec_seek(m0, a.offset as int).unwrap();
        assert(m1.ptr == p0 + a.offset);
        let m2 = spec_add(m1, v * (a.times as int)).unwrap();
        assert(spec_add(m1, v * (a.times as int)) is Ok) by {
            vstd::arithmetic::div_mod::lemma_mod_bound(
                m1.cells[m1.ptr] + v * (a.times as int),
                rr,
            );
        }
        assert(m2.wf() && m2.cells[p0 + a.offset] as int == (m0.cells[p0 + a.offset] + v * (
        a.times as int)) % rr) by {
            vstd::arithmetic::div_mod::lemma_mod_bound(
                m1.cells[m1.ptr] + v * (a.times as int),
                rr,
            );
            if 0 <= m1.cells[m1.ptr] + v * (a.times as int) <= m0.cell_max {
                vstd::arithmetic::div_mod::lemma_small_mod(
                    (m1.cells[m1.ptr] + v * (a.times as int)) as nat,
                    rr as nat,
                );
            }
        }
        let m3 = spec_seek(m2, -(a.offset as int)).unwrap();
        assert(m3.ptr == p0);
        assert(args_ok(rest, p0, m0.cells.len() as int)) by {
            assert(forall|k: int|
                0 <= k < rest.len() ==> (#[trigger] rest[k]) == args[k + 1]);
        }
        lemma_distribute_pointwise(m3, rest, v, p0);
        let (mr, e) = spec_distribute(m0, args, v);
        assert((mr, e) == spec_distribute(m3, rest, v));
        assert forall|j: int| 0 <= j < m0.cells.len() implies (
        #[trigger] mr.cells[j]) as int == (if j != p0 && arg_index(args, j - p0) != -1 {
            (m0.cells[j] + v * net_times(args, j - p0)) % rr
        } else {
            m0.cells[j] as int
        }) by {
            let c = j - p0;
            lemma_arg_index(args, c);
            lemma_arg_index(rest, c);
            assert(forall|k: int|
                0 <= k < rest.len() ==> (#[trigger] rest[k]) == args[k + 1]);
            if j == p0 + a.offset {
                // the head entry touched this cell; distinctness keeps the
                // tail away from it
                assert(arg_index(args, c) == 0);
                assert(arg_index(rest, c) == -1) by {
                    if arg_index(rest, c) != -1 {
                        let k = arg_index(rest, c);
                        assert(args[k + 1].offset == c as i32);
                    }
                }
                assert(mr.cells[j] == m3.cells[j]);
                assert(net_times(args, c) == a.times as int);
            } else {
                assert(m3.cells[j] == m0.cells[j]);
                if c != 0 && arg_index(args, c) != -1 {
                    assert(args[arg_index(args, c)].offset == c as i32);
                    assert(arg_index(args, c) != 0);
                    assert(arg_index(rest, c) == arg_index(args, c) - 1);
                    assert(net_times(rest, c) == net_times(args, c));
                } else if c != 0 {
                    assert(arg_index(rest, c) == -1) by {
                        if arg_index(rest, c) != -1 {
                            let k = arg_index(rest, c);
                            assert(args[k + 1].offset == c as i32);
                        }
                    }
                }
            }
        }
    }
}

/// The central claim of the optimization: on a wrapping tape whose pointer
/// never leaves the tape while the body runs, the `AddUntilZero` summary of
/// an idiomatic loop body computes in one step exactly what iterating the
/// body does, the starting cell counts down by one per pass (so the plain
/// `JumpIfZero`/body/`Jump` form runs exactly `v` passes before its guard
/// sees zero), and the starting cell ends at zero.
pub proof fn lemma_loop_optimization_equivalence(
    m: MemSnapshot,
    body: Seq<SyntaxNode>,
    args: Seq<AddUntilZeroArg>,
)
    requires
        m.wf(),
        m.overflow is Wrap,
        spec_analyze(body) == Some(args),
        curs_ok(body, 0, m.ptr, m.cells.len() as int),
    ensures
        ({
            let v = m.cells[m.ptr] as int;
            let naive = exec_passes(m, body, v as nat);
            &&& spec_add_until_zero(m, args).1 is None
            &&& spec_add_until_zero(m, args).0 == naive
            &&& naive.cells[m.ptr] == 0
            &&& forall|k: nat|
                k < v ==> (#[trigger] exec_passes(m, body, k)).cells[m.ptr] as int == v - k
        }),
{
    let p0 = m.ptr;
    let rr = m.range();
    let v = m.cells[p0] as int;
    let st_f = analyze_nodes(body, loop_scan_init()).unwrap();
    assert(st_f.cur == 0 && st_f.net0 == -1 && st_f.args == args);
    lemma_pass(body, loop_scan_init(), st_f, m, p0);
    assert(args_ok(args, p0, m.cells.len() as int));
    assert forall|k: nat| k < v implies (#[trigger] exec_passes(m, body, k)).cells[p0] as int
        == v - k by {
        lemma_passes(body, st_f, m, k);
        assert(net_of(st_f, 0) == -1);
        assert(exec_passes(m, body, k).cells[p0] as int == (v + k * -1) % rr);
        assert(k * -1 == -(k as int)) by (nonlinear_arith);
        vstd::arithmetic::div_mod::lemma_small_mod((v - k) as nat, rr as nat);
    }
    let naive = exec_passes(m, body, v as nat);
    lemma_passes(body, st_f, m, v as nat);
    if v == 0 {
        assert(naive == m);
    } else {
        let m0 = spec_set(m, 0).unwrap();
        assert(m0.wf());
        lemma_distribute_pointwise(m0, args, v, p0);
        let (mr, e) = spec_distribute(m0, args, v);
        assert(spec_add_until_zero(m, args) == (mr, e));
        assert forall|j: int| 0 <= j < m.cells.len() implies (#[trigger] mr.cells[j])
            == naive.cells[j] by {
            let c = j - p0;
            assert(naive.cells[j] as int == (m.cells[j] + v * net_of(st_f, c)) % rr);
            if j == p0 {
                assert(m0.cells[j] == 0);
                assert(mr.cells[j] == 0) by {
                    lemma_arg_index(args, 0);
                    if arg_index(args, 0) != -1 {
                        assert(args[arg_index(args, 0)].offset == 0i32);
                    }
                }
                assert(v * net_of(st_f, 0) == -v) by (nonlinear_arith)
                    requires
                        net_of(st_f, 0) == -1,
                ;
                vstd::arithmetic::div_mod::lemma_small_mod(0nat, rr as nat);
            } else {
                assert(m0.cells[j] == m.cells[j]);
                if arg_index(args, c) != -1 {
                    assert(net_times(args, c) == net_of(st_f, c));
                } else {
                    assert(net_of(st_f, c) == 0);
                    assert(v * 0 == 0);
                    vstd::arithmetic::div_mod::lemma_small_mod(m.cells[j] as nat, rr as nat);
                }
            }
        }
        assert(mr =~= naive);
    }
}

} // verus!
