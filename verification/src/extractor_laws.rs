//! What holds of every pattern that extraction finds.
use vstd::prelude::*;
use crate::extractor::{
    add_new, arg_nodes, block_patterns, block_state, block_step, extract_allowed, function_patterns,
    function_patterns_upto, has_same, num_args, same_pattern, size_measure, PdfgView,
    MAX_PATTERN_SIZE,
};
use crate::ir::{cond_of, Function, ValueDef};

verus! {

/// Every node of `p` has an opcode that patterns may hold, and no chain of
/// sub-patterns below `p` is longer than `n`.
pub open spec fn well_shaped(p: PdfgView, n: int) -> bool
    decreases p,
{
    &&& extract_allowed(p.op)
    &&& forall|i: int|
        0 <= i < p.args.len() ==> match #[trigger] p.args[i] {
            Ok(x) => n > 0 && well_shaped(x, n - 1),
            Err(_) => true,
        }
}

/// The number of patterns nested in `p`, `p` included.
pub open spec fn node_count(p: PdfgView) -> nat
    decreases p, 1nat,
{
    1 + args_node_count(p.args)
}

/// The number of patterns nested in a list of arguments.
pub open spec fn args_node_count(s: Seq<Result<PdfgView, Seq<char>>>) -> nat
    decreases s, 0nat,
{
    if s.len() == 0 {
        0
    } else {
        (match s[0] {
            Ok(x) => node_count(x),
            Err(_) => 0,
        }) + args_node_count(s.drop_first())
    }
}

/// Every pattern nested in `p`, `p` included, has one argument for each
/// argument of its instruction in `f`.
pub open spec fn args_match(f: Function, p: PdfgView) -> bool
    decreases p,
{
    &&& p.args.len() == num_args(f, p.inst)
    &&& forall|i: int|
        0 <= i < p.args.len() ==> match #[trigger] p.args[i] {
            Ok(x) => args_match(f, x),
            Err(_) => true,
        }
}

/// The most patterns that following arguments from nesting `size` can give.
pub open spec fn node_cap(size: nat) -> nat {
    if size == 0 {
        15
    } else if size == 1 {
        7
    } else if size == 2 {
        3
    } else if size == 3 {
        1
    } else {
        0
    }
}

/// The most patterns that one extracted pattern can hold, its root
/// included.
pub open spec fn max_nodes() -> nat {
    16
}

/// What holds of every extracted pattern: only allowed opcodes, nesting no
/// deeper than `MAX_PATTERN_SIZE`, one argument for each argument of its
/// instruction, and at most `max_nodes()` patterns in all.
pub open spec fn pattern_bounded(f: Function, p: PdfgView) -> bool {
    &&& well_shaped(p, MAX_PATTERN_SIZE as int)
    &&& args_match(f, p)
    &&& node_count(p) <= max_nodes()
}

/// The type of argument `k` of instruction `inst` in `f`.
pub open spec fn arg_type(f: Function, inst: usize, k: int) -> Seq<char> {
    f.values@[f.insts@[inst as int].args@[k] as int].ty@
}

/// Whether argument `k` of instruction `inst` in `f` is a result of
/// instruction `j`.
pub open spec fn arg_defined_by(f: Function, inst: usize, k: int, j: usize) -> bool {
    f.values@[f.insts@[inst as int].args@[k] as int].def matches ValueDef::Result(d, _) && d == j
}

/// Every node of `p` is read off `f`: its opcode and comparison condition
/// are those of its own instruction, and argument `k` of a node is, when it
/// is a sub-pattern, the pattern of the instruction that defines the `k`-th
/// argument value, typed by that value; otherwise it is that value's type.
pub open spec fn faithful(f: Function, p: PdfgView) -> bool
    decreases p,
{
    &&& p.op == f.insts@[p.inst as int].opcode@
    &&& p.cond == cond_of(f.insts@[p.inst as int].data)
    &&& forall|k: int|
        0 <= k < p.args.len() ==> match #[trigger] p.args[k] {
            Ok(x) => arg_defined_by(f, p.inst, k, x.inst) && x.ty == arg_type(f, p.inst, k) && faithful(f, x),
            Err(t) => t == arg_type(f, p.inst, k),
        }
}

/// The type of the first result of instruction `inst`.
pub open spec fn result_type(f: Function, inst: usize) -> Seq<char> {
    f.values@[f.insts@[inst as int].results@[0] as int].ty@
}

/// What holds of every pattern found in a block: it is bounded, it is read
/// off `f` node by node, and the root is typed by its instruction's result.
pub open spec fn pattern_sound(f: Function, p: PdfgView) -> bool {
    &&& pattern_bounded(f, p)
    &&& faithful(f, p)
    &&& p.ty == result_type(f, p.inst)
}

proof fn lemma_arg_nodes_faithful(f: Function, inst: usize, i: nat, size: nat, visited: Seq<usize>)
    ensures
        forall|k: int|
            0 <= k < arg_nodes(f, inst, i, size, visited).0.len() ==> match #[trigger] arg_nodes(
                f,
                inst,
                i,
                size,
                visited,
            ).0[k] {
                Ok(x) => arg_defined_by(f, inst, i + k, x.inst) && x.ty == arg_type(f, inst, i + k)
                    && faithful(f, x),
                Err(t) => t == arg_type(f, inst, i + k),
            },
    decreases size_measure(size), num_args(f, inst) - i,
{
    if i < num_args(f, inst) {
        let v = f.insts@[inst as int].args@[i as int];
        let ty = f.values@[v as int].ty@;
        let out = arg_nodes(f, inst, i, size, visited).0;
        match f.values@[v as int].def {
            ValueDef::Result(j, _) => {
                let vis1 = visited.push(j);
                if !extract_allowed(f.insts@[j as int].opcode@) || size >= MAX_PATTERN_SIZE {
                    lemma_arg_nodes_faithful(f, inst, i + 1, size, vis1);
                    let rest = arg_nodes(f, inst, i + 1, size, vis1);
                    assert(out == seq![Err(ty)] + rest.0);
                    assert forall|k: int| 0 <= k < out.len() implies match #[trigger] out[k] {
                        Ok(x) => arg_defined_by(f, inst, i + k, x.inst) && x.ty == arg_type(f, inst, i + k)
                            && faithful(f, x),
                        Err(t) => t == arg_type(f, inst, i + k),
                    } by {
                        if k > 0 {
                            assert(out[k] == rest.0[k - 1]);
                            assert(i + 1 + (k - 1) == i + k);
                        }
                    }
                } else {
                    lemma_arg_nodes_faithful(f, j, 0, size + 1, vis1);
                    let kids = arg_nodes(f, j, 0, size + 1, vis1);
                    lemma_arg_nodes_faithful(f, inst, i + 1, size + 1, kids.1);
                    let rest = arg_nodes(f, inst, i + 1, size + 1, kids.1);
                    let node = PdfgView {
                        inst: j,
                        op: f.insts@[j as int].opcode@,
                        ty: ty,
                        cond: f.cond_at(j),
                        args: kids.0,
                    };
                    assert(out == seq![Ok(node)] + rest.0);
                    assert(faithful(f, node)) by {
                        assert forall|m: int| 0 <= m < node.args.len() implies match #[trigger] node.args[m] {
                            Ok(x) => arg_defined_by(f, node.inst, m, x.inst) && x.ty == arg_type(f, node.inst, m)
                                && faithful(f, x),
                            Err(t) => t == arg_type(f, node.inst, m),
                        } by {
                            assert(node.args[m] == kids.0[m]);
                            assert(0 + m == m);
                        }
                    }
                    assert forall|k: int| 0 <= k < out.len() implies match #[trigger] out[k] {
                        Ok(x) => arg_defined_by(f, inst, i + k, x.inst) && x.ty == arg_type(f, inst, i + k)
                            && faithful(f, x),
                        Err(t) => t == arg_type(f, inst, i + k),
                    } by {
                        if k > 0 {
                            assert(out[k] == rest.0[k - 1]);
                            assert(i + 1 + (k - 1) == i + k);
                        } else {
                            assert(out[0] == Ok::<PdfgView, Seq<char>>(node));
                        }
                    }
                }
            },
            _ => {
                lemma_arg_nodes_faithful(f, inst, i + 1, size, visited);
                let rest = arg_nodes(f, inst, i + 1, size, visited);
                assert(out == seq![Err(ty)] + rest.0);
                assert forall|k: int| 0 <= k < out.len() implies match #[trigger] out[k] {
                    Ok(x) => arg_defined_by(f, inst, i + k, x.inst) && x.ty == arg_type(f, inst, i + k)
                        && faithful(f, x),
                    Err(t) => t == arg_type(f, inst, i + k),
                } by {
                    if k > 0 {
                        assert(out[k] == rest.0[k - 1]);
                        assert(i + 1 + (k - 1) == i + k);
                    }
                }
            },
        }
    }
}

proof fn lemma_args_node_count_cons(a: Result<PdfgView, Seq<char>>, rest: Seq<Result<PdfgView, Seq<char>>>)
    ensures
        args_node_count(seq![a] + rest) == (match a {
            Ok(x) => node_count(x),
            Err(_) => 0,
        }) + args_node_count(rest),
{
    let s = seq![a] + rest;
    assert(s[0] == a);
    assert(s.drop_first() =~= rest);
}

proof fn lemma_arg_nodes_sized(f: Function, inst: usize, i: nat, size: nat, visited: Seq<usize>)
    requires
        i <= num_args(f, inst),
    ensures
        arg_nodes(f, inst, i, size, visited).0.len() == num_args(f, inst) - i,
        args_node_count(arg_nodes(f, inst, i, size, visited).0) <= node_cap(size),
        forall|k: int|
            0 <= k < arg_nodes(f, inst, i, size, visited).0.len() ==> match #[trigger] arg_nodes(
                f,
                inst,
                i,
                size,
                visited,
            ).0[k] {
                Ok(x) => args_match(f, x),
                Err(_) => true,
            },
    decreases size_measure(size), num_args(f, inst) - i,
{
    if i < num_args(f, inst) {
        let v = f.insts@[inst as int].args@[i as int];
        let ty = f.values@[v as int].ty@;
        let out = arg_nodes(f, inst, i, size, visited).0;
        match f.values@[v as int].def {
            ValueDef::Result(j, _) => {
                let vis1 = visited.push(j);
                if !extract_allowed(f.insts@[j as int].opcode@) || size >= MAX_PATTERN_SIZE {
                    lemma_arg_nodes_sized(f, inst, i + 1, size, vis1);
                    let rest = arg_nodes(f, inst, i + 1, size, vis1);
                    assert(out == seq![Err(ty)] + rest.0);
                    lemma_args_node_count_cons(Err(ty), rest.0);
                    assert forall|k: int| 0 <= k < out.len() implies match #[trigger] out[k] {
                        Ok(x) => args_match(f, x),
                        Err(_) => true,
                    } by {
                        if k > 0 {
                            assert(out[k] == rest.0[k - 1]);
                        }
                    }
                } else {
                    lemma_arg_nodes_sized(f, j, 0, size + 1, vis1);
                    let kids = arg_nodes(f, j, 0, size + 1, vis1);
                    lemma_arg_nodes_sized(f, inst, i + 1, size + 1, kids.1);
                    let rest = arg_nodes(f, inst, i + 1, size + 1, kids.1);
                    let node = PdfgView {
                        inst: j,
                        op: f.insts@[j as int].opcode@,
                        ty: ty,
                        cond: f.cond_at(j),
                        args: kids.0,
                    };
                    assert(out == seq![Ok(node)] + rest.0);
                    lemma_args_node_count_cons(Ok(node), rest.0);
                    assert(node_count(node) == 1 + args_node_count(kids.0));
                    assert(args_match(f, node)) by {
                        assert forall|m: int| 0 <= m < node.args.len() implies match #[trigger] node.args[m] {
                            Ok(x) => args_match(f, x),
                            Err(_) => true,
                        } by {
                            assert(node.args[m] == kids.0[m]);
                        }
                    }
                    assert forall|k: int| 0 <= k < out.len() implies match #[trigger] out[k] {
                        Ok(x) => args_match(f, x),
                        Err(_) => true,
                    } by {
                        if k > 0 {
                            assert(out[k] == rest.0[k - 1]);
                        }
                    }
                }
            },
            _ => {
                lemma_arg_nodes_sized(f, inst, i + 1, size, visited);
                let rest = arg_nodes(f, inst, i + 1, size, visited);
                assert(out == seq![Err(ty)] + rest.0);
                lemma_args_node_count_cons(Err(ty), rest.0);
                assert forall|k: int| 0 <= k < out.len() implies match #[trigger] out[k] {
                    Ok(x) => args_match(f, x),
                    Err(_) => true,
                } by {
                    if k > 0 {
                        assert(out[k] == rest.0[k - 1]);
                    }
                }
            },
        }
    } else {
        assert(arg_nodes(f, inst, i, size, visited).0 =~= seq![]);
    }
}

/// No two patterns of `s` are the same.
pub open spec fn pairwise_distinct(s: Seq<PdfgView>) -> bool {
    forall|i: int, j: int| 0 <= i < j < s.len() ==> !same_pattern(#[trigger] s[i], #[trigger] s[j])
}

/// A pattern is the same as itself.
pub proof fn lemma_same_pattern_reflexive(a: PdfgView)
    ensures
        same_pattern(a, a),
    decreases a,
{
    assert forall|i: int| 0 <= i < a.args.len() implies match (#[trigger] a.args[i], a.args[i]) {
        (Ok(x), Ok(y)) => same_pattern(x, y),
        (Err(t), Err(u)) => t == u,
        _ => false,
    } by {
        match a.args[i] {
            Ok(x) => lemma_same_pattern_reflexive(x),
            Err(_) => {},
        }
    }
}

/// Being the same pattern goes both ways.
pub proof fn lemma_same_pattern_symmetric(a: PdfgView, b: PdfgView)
    requires
        same_pattern(a, b),
    ensures
        same_pattern(b, a),
    decreases a,
{
    assert forall|i: int| 0 <= i < b.args.len() implies match (#[trigger] b.args[i], a.args[i]) {
        (Ok(x), Ok(y)) => same_pattern(x, y),
        (Err(t), Err(u)) => t == u,
        _ => false,
    } by {
        match (a.args[i], b.args[i]) {
            (Ok(x), Ok(y)) => lemma_same_pattern_symmetric(x, y),
            _ => {},
        }
    }
}

/// Two patterns that are the same as a third are the same.
pub proof fn lemma_same_pattern_transitive(a: PdfgView, b: PdfgView, c: PdfgView)
    requires
        same_pattern(a, b),
        same_pattern(b, c),
    ensures
        same_pattern(a, c),
    decreases a,
{
    assert forall|i: int| 0 <= i < a.args.len() implies match (#[trigger] a.args[i], c.args[i]) {
        (Ok(x), Ok(y)) => same_pattern(x, y),
        (Err(t), Err(u)) => t == u,
        _ => false,
    } by {
        assert(match (a.args[i], b.args[i]) {
            (Ok(x), Ok(y)) => same_pattern(x, y),
            (Err(t), Err(u)) => t == u,
            _ => false,
        });
        assert(match (b.args[i], c.args[i]) {
            (Ok(x), Ok(y)) => same_pattern(x, y),
            (Err(t), Err(u)) => t == u,
            _ => false,
        });
        match (a.args[i], b.args[i], c.args[i]) {
            (Ok(x), Ok(y), Ok(z)) => lemma_same_pattern_transitive(x, y, z),
            _ => {},
        }
    }
}

/// Patterns that differ only in the instruction they were found at are the
/// same.
pub proof fn lemma_same_pattern_ignores_inst(a: PdfgView, inst: usize)
    ensures
        same_pattern(a, PdfgView { inst: inst, ..a }),
{
    lemma_same_pattern_reflexive(a);
}

/// `p` with the instruction indices erased, at every depth: what a pattern
/// is apart from where it was found.
pub open spec fn erase_insts(p: PdfgView) -> PdfgView
    decreases p,
{
    PdfgView {
        inst: 0,
        op: p.op,
        ty: p.ty,
        cond: p.cond,
        args: Seq::new(
            p.args.len(),
            |i: int|
                if 0 <= i < p.args.len() {
                    match p.args[i] {
                        Ok(x) => Ok(erase_insts(x)),
                        Err(t) => Err(t),
                    }
                } else {
                    Err(seq![])
                },
        ),
    }
}

/// Two patterns are the same exactly when they are equal once the
/// instructions they were found at are forgotten: same opcode, result type
/// and condition, and argument by argument the same sub-pattern or the
/// same type. So patterns that differ in result type, opcode, condition, or
/// any argument are never the same.
pub proof fn lemma_same_pattern_is_equality_up_to_insts(a: PdfgView, b: PdfgView)
    ensures
        same_pattern(a, b) <==> erase_insts(a) == erase_insts(b),
    decreases a,
{
    let ea = erase_insts(a);
    let eb = erase_insts(b);
    if same_pattern(a, b) {
        assert forall|i: int| 0 <= i < ea.args.len() implies ea.args[i] == eb.args[i] by {
            assert(match (a.args[i], b.args[i]) {
                (Ok(x), Ok(y)) => same_pattern(x, y),
                (Err(t), Err(u)) => t == u,
                _ => false,
            });
            match (a.args[i], b.args[i]) {
                (Ok(x), Ok(y)) => lemma_same_pattern_is_equality_up_to_insts(x, y),
                _ => {},
            }
        }
        assert(ea.args =~= eb.args);
    }
    if ea == eb {
        assert(a.args.len() == ea.args.len() && b.args.len() == eb.args.len());
        assert forall|i: int| 0 <= i < a.args.len() implies match (#[trigger] a.args[i], b.args[i]) {
            (Ok(x), Ok(y)) => same_pattern(x, y),
            (Err(t), Err(u)) => t == u,
            _ => false,
        } by {
            assert(ea.args[i] == eb.args[i]);
            match (a.args[i], b.args[i]) {
                (Ok(x), Ok(y)) => lemma_same_pattern_is_equality_up_to_insts(x, y),
                _ => {},
            }
        }
    }
}

proof fn lemma_well_shaped_mono(p: PdfgView, m: int, n: int)
    requires
        well_shaped(p, m),
        m <= n,
    ensures
        well_shaped(p, n),
    decreases p,
{
    assert forall|i: int| 0 <= i < p.args.len() implies match #[trigger] p.args[i] {
        Ok(x) => n > 0 && well_shaped(x, n - 1),
        Err(_) => true,
    } by {
        match p.args[i] {
            Ok(x) => lemma_well_shaped_mono(x, m - 1, n - 1),
            Err(_) => {},
        }
    }
}

proof fn lemma_arg_nodes_shaped(f: Function, inst: usize, i: nat, size: nat, visited: Seq<usize>)
    ensures
        forall|k: int|
            0 <= k < arg_nodes(f, inst, i, size, visited).0.len() ==> match #[trigger] arg_nodes(
                f,
                inst,
                i,
                size,
                visited,
            ).0[k] {
                Ok(x) => size < MAX_PATTERN_SIZE && well_shaped(x, MAX_PATTERN_SIZE - 1 - size),
                Err(_) => true,
            },
    decreases size_measure(size), num_args(f, inst) - i,
{
    if i < num_args(f, inst) {
        let v = f.insts@[inst as int].args@[i as int];
        let ty = f.values@[v as int].ty@;
        let out = arg_nodes(f, inst, i, size, visited).0;
        match f.values@[v as int].def {
            ValueDef::Result(j, _) => {
                let vis1 = visited.push(j);
                if !extract_allowed(f.insts@[j as int].opcode@) || size >= MAX_PATTERN_SIZE {
                    lemma_arg_nodes_shaped(f, inst, i + 1, size, vis1);
                    let rest = arg_nodes(f, inst, i + 1, size, vis1);
                    assert(out == seq![Err(ty)] + rest.0);
                    assert forall|k: int| 0 <= k < out.len() implies match #[trigger] out[k] {
                        Ok(x) => size < MAX_PATTERN_SIZE && well_shaped(x, MAX_PATTERN_SIZE - 1 - size),
                        Err(_) => true,
                    } by {
                        if k > 0 {
                            assert(out[k] == rest.0[k - 1]);
                        }
                    }
                } else {
                    lemma_arg_nodes_shaped(f, j, 0, size + 1, vis1);
                    let kids = arg_nodes(f, j, 0, size + 1, vis1);
                    lemma_arg_nodes_shaped(f, inst, i + 1, size + 1, kids.1);
                    let rest = arg_nodes(f, inst, i + 1, size + 1, kids.1);
                    let node = PdfgView {
                        inst: j,
                        op: f.insts@[j as int].opcode@,
                        ty: ty,
                        cond: f.cond_at(j),
                        args: kids.0,
                    };
                    assert(out == seq![Ok(node)] + rest.0);
                    assert(well_shaped(node, MAX_PATTERN_SIZE - 1 - size)) by {
                        assert forall|m: int| 0 <= m < node.args.len() implies match #[trigger] node.args[m] {
                            Ok(x) => MAX_PATTERN_SIZE - 1 - size > 0 && well_shaped(x, MAX_PATTERN_SIZE - 1 - size - 1),
                            Err(_) => true,
                        } by {
                            assert(node.args[m] == kids.0[m]);
                        }
                    }
                    assert forall|k: int| 0 <= k < out.len() implies match #[trigger] out[k] {
                        Ok(x) => size < MAX_PATTERN_SIZE && well_shaped(x, MAX_PATTERN_SIZE - 1 - size),
                        Err(_) => true,
                    } by {
                        if k > 0 {
                            assert(out[k] == rest.0[k - 1]);
                            match rest.0[k - 1] {
                                Ok(x) => lemma_well_shaped_mono(
                                    x,
                                    MAX_PATTERN_SIZE - 1 - (size + 1),
                                    MAX_PATTERN_SIZE - 1 - size,
                                ),
                                Err(_) => {},
                            }
                        }
                    }
                }
            },
            _ => {
                lemma_arg_nodes_shaped(f, inst, i + 1, size, visited);
                let rest = arg_nodes(f, inst, i + 1, size, visited);
                assert(out == seq![Err(ty)] + rest.0);
                assert forall|k: int| 0 <= k < out.len() implies match #[trigger] out[k] {
                    Ok(x) => size < MAX_PATTERN_SIZE && well_shaped(x, MAX_PATTERN_SIZE - 1 - size),
                    Err(_) => true,
                } by {
                    if k > 0 {
                        assert(out[k] == rest.0[k - 1]);
                    }
                }
            },
        }
    }
}


proof fn lemma_block_state_bounded(f: Function, order: Seq<usize>, k: nat)
    ensures
        forall|m: int|
            0 <= m < block_state(f, order, k).0.len() ==> pattern_sound(
                f,
                #[trigger] block_state(f, order, k).0[m],
            ),
    decreases k,
{
    if k > 0 && k <= order.len() {
        lemma_block_state_bounded(f, order, (k - 1) as nat);
        let st = block_state(f, order, (k - 1) as nat);
        let inst = order[k - 1];
        if !st.1.contains(inst) && extract_allowed(f.insts@[inst as int].opcode@) {
            lemma_arg_nodes_shaped(f, inst, 0, 0, st.1.push(inst));
            lemma_arg_nodes_sized(f, inst, 0, 0, st.1.push(inst));
            lemma_arg_nodes_faithful(f, inst, 0, 0, st.1.push(inst));
            let kids = arg_nodes(f, inst, 0, 0, st.1.push(inst));
            let out = block_state(f, order, k).0;
            assert(out == block_step(f, inst, st).0);
            let root = out[out.len() - 1];
            assert(root.args == kids.0);
            assert(root.inst == inst);
            assert(well_shaped(root, MAX_PATTERN_SIZE as int)) by {
                assert forall|m: int| 0 <= m < root.args.len() implies match #[trigger] root.args[m] {
                    Ok(x) => MAX_PATTERN_SIZE > 0 && well_shaped(x, MAX_PATTERN_SIZE - 1),
                    Err(_) => true,
                } by {
                    assert(root.args[m] == kids.0[m]);
                }
            }
            assert(args_match(f, root)) by {
                assert forall|m: int| 0 <= m < root.args.len() implies match #[trigger] root.args[m] {
                    Ok(x) => args_match(f, x),
                    Err(_) => true,
                } by {
                    assert(root.args[m] == kids.0[m]);
                }
            }
            assert(node_count(root) == 1 + args_node_count(kids.0));
            assert(faithful(f, root)) by {
                assert forall|m: int| 0 <= m < root.args.len() implies match #[trigger] root.args[m] {
                    Ok(x) => arg_defined_by(f, root.inst, m, x.inst) && x.ty == arg_type(f, root.inst, m)
                        && faithful(f, x),
                    Err(t) => t == arg_type(f, root.inst, m),
                } by {
                    assert(root.args[m] == kids.0[m]);
                    assert(0 + m == m);
                }
            }
            assert forall|m: int| 0 <= m < out.len() implies pattern_sound(f, #[trigger] out[m]) by {
                if m < out.len() - 1 {
                    assert(out[m] == st.0[m]);
                }
            }
        }
    }
}

/// Every pattern found in a block is built only from opcodes that patterns
/// may hold, nests no deeper than `MAX_PATTERN_SIZE`, has one argument for
/// each argument of its instruction (and so has each pattern in it), and
/// holds at most `max_nodes()` patterns, itself included.
pub proof fn lemma_block_patterns_bounded(f: Function, block: Seq<usize>)
    ensures
        forall|m: int|
            0 <= m < block_patterns(f, block).len() ==> pattern_bounded(
                f,
                #[trigger] block_patterns(f, block)[m],
            ),
{
    lemma_block_state_bounded(f, block.reverse(), block.len());
    assert forall|m: int| 0 <= m < block_patterns(f, block).len() implies pattern_bounded(
        f,
        #[trigger] block_patterns(f, block)[m],
    ) by {
        assert(pattern_sound(f, block_patterns(f, block)[m]));
    }
}

/// Every pattern found in a block is read off the function: each node has
/// the opcode and the comparison condition of its own instruction, each
/// sub-pattern stands for the instruction that defines the matching
/// argument and has that argument's type, each argument that is not
/// followed is that argument's type, and the root has the type of its
/// instruction's result.
pub proof fn lemma_block_patterns_faithful(f: Function, block: Seq<usize>)
    ensures
        forall|m: int|
            0 <= m < block_patterns(f, block).len() ==> faithful(f, #[trigger] block_patterns(f, block)[m])
                && block_patterns(f, block)[m].ty == result_type(f, block_patterns(f, block)[m].inst),
{
    lemma_block_state_bounded(f, block.reverse(), block.len());
    assert forall|m: int| 0 <= m < block_patterns(f, block).len() implies faithful(
        f,
        #[trigger] block_patterns(f, block)[m],
    ) && block_patterns(f, block)[m].ty == result_type(f, block_patterns(f, block)[m].inst) by {
        assert(pattern_sound(f, block_patterns(f, block)[m]));
    }
}

proof fn lemma_add_new_bounded(f: Function, acc: Seq<PdfgView>, ps: Seq<PdfgView>, k: nat)
    requires
        forall|m: int| 0 <= m < acc.len() ==> pattern_sound(f, #[trigger] acc[m]),
        forall|m: int| 0 <= m < ps.len() ==> pattern_sound(f, #[trigger] ps[m]),
    ensures
        forall|m: int| 0 <= m < add_new(acc, ps, k).len() ==> pattern_sound(f, #[trigger] add_new(acc, ps, k)[m]),
    decreases k,
{
    if k > 0 && k <= ps.len() {
        lemma_add_new_bounded(f, acc, ps, (k - 1) as nat);
        let prev = add_new(acc, ps, (k - 1) as nat);
        let out = add_new(acc, ps, k);
        assert forall|m: int| 0 <= m < out.len() implies pattern_sound(f, #[trigger] out[m]) by {
            if m < prev.len() {
                assert(out[m] == prev[m]);
            } else {
                assert(out[m] == ps[k - 1]);
            }
        }
    }
}

proof fn lemma_upto_bounded(f: Function, n: nat)
    ensures
        forall|m: int|
            0 <= m < function_patterns_upto(f, n).len() ==> pattern_sound(
                f,
                #[trigger] function_patterns_upto(f, n)[m],
            ),
    decreases n,
{
    if n > 0 && n <= f.blocks@.len() {
        lemma_upto_bounded(f, (n - 1) as nat);
        let block = f.blocks@[n - 1]@;
        lemma_block_state_bounded(f, block.reverse(), block.len());
        let ps = block_patterns(f, block);
        lemma_add_new_bounded(f, function_patterns_upto(f, (n - 1) as nat), ps, ps.len());
    }
}

/// Every pattern extracted from a function has the bounds of
/// `lemma_block_patterns_bounded`: allowed opcodes only, nesting at most
/// `MAX_PATTERN_SIZE`, one argument per instruction argument, and at most
/// `max_nodes()` patterns in all.
pub proof fn lemma_extracted_patterns_bounded(f: Function)
    ensures
        forall|m: int|
            0 <= m < function_patterns(f).len() ==> pattern_bounded(f, #[trigger] function_patterns(f)[m]),
{
    lemma_upto_bounded(f, f.blocks@.len());
    assert forall|m: int| 0 <= m < function_patterns(f).len() implies pattern_bounded(
        f,
        #[trigger] function_patterns(f)[m],
    ) by {
        assert(pattern_sound(f, function_patterns(f)[m]));
    }
}

/// Every pattern extracted from a function is read off it as
/// `lemma_block_patterns_faithful` says: the opcode and condition of each
/// node's own instruction, sub-patterns for the instructions that define
/// the arguments, argument types elsewhere, and the root typed by its
/// result.
pub proof fn lemma_extracted_patterns_faithful(f: Function)
    ensures
        forall|m: int|
            0 <= m < function_patterns(f).len() ==> faithful(f, #[trigger] function_patterns(f)[m])
                && function_patterns(f)[m].ty == result_type(f, function_patterns(f)[m].inst),
{
    lemma_upto_bounded(f, f.blocks@.len());
    assert forall|m: int| 0 <= m < function_patterns(f).len() implies faithful(
        f,
        #[trigger] function_patterns(f)[m],
    ) && function_patterns(f)[m].ty == result_type(f, function_patterns(f)[m].inst) by {
        assert(pattern_sound(f, function_patterns(f)[m]));
    }
}

proof fn lemma_add_new_distinct(acc: Seq<PdfgView>, ps: Seq<PdfgView>, k: nat)
    requires
        pairwise_distinct(acc),
    ensures
        pairwise_distinct(add_new(acc, ps, k)),
    decreases k,
{
    if k > 0 && k <= ps.len() {
        lemma_add_new_distinct(acc, ps, (k - 1) as nat);
        let prev = add_new(acc, ps, (k - 1) as nat);
        if !has_same(prev, ps[k - 1]) {
            let out = add_new(acc, ps, k);
            assert forall|i: int, j: int| 0 <= i < j < out.len() implies !same_pattern(#[trigger] out[i], #[trigger] out[j]) by {
                if j < prev.len() {
                    assert(out[i] == prev[i] && out[j] == prev[j]);
                } else {
                    assert(out[i] == prev[i] && out[j] == ps[k - 1]);
                }
            }
        }
    }
}

proof fn lemma_upto_distinct(f: Function, n: nat)
    ensures
        pairwise_distinct(function_patterns_upto(f, n)),
    decreases n,
{
    if n > 0 && n <= f.blocks@.len() {
        lemma_upto_distinct(f, (n - 1) as nat);
        let ps = block_patterns(f, f.blocks@[n - 1]@);
        lemma_add_new_distinct(function_patterns_upto(f, (n - 1) as nat), ps, ps.len());
    }
}

/// No two patterns extracted from a function are the same.
pub proof fn lemma_extracted_patterns_distinct(f: Function)
    ensures
        pairwise_distinct(function_patterns(f)),
{
    lemma_upto_distinct(f, f.blocks@.len());
}

proof fn lemma_add_new_keeps(acc: Seq<PdfgView>, ps: Seq<PdfgView>, k: nat)
    requires
        k <= ps.len(),
    ensures
        acc.len() <= add_new(acc, ps, k).len(),
        forall|m: int| 0 <= m < acc.len() ==> #[trigger] add_new(acc, ps, k)[m] == acc[m],
        forall|m: int| 0 <= m < k && m < ps.len() ==> has_same(add_new(acc, ps, k), #[trigger] ps[m]),
    decreases k,
{
    if k > 0 {
        lemma_add_new_keeps(acc, ps, (k - 1) as nat);
        let prev = add_new(acc, ps, (k - 1) as nat);
        let out = add_new(acc, ps, k);
        assert forall|m: int| 0 <= m < k && m < ps.len() implies has_same(out, #[trigger] ps[m]) by {
            if m < k - 1 {
                let w = choose|w: int| 0 <= w < prev.len() && same_pattern(#[trigger] prev[w], ps[m]);
                assert(out[w] == prev[w]);
            } else if !has_same(prev, ps[m]) {
                lemma_same_pattern_reflexive(ps[m]);
                assert(out[prev.len() as int] == ps[m]);
            }
        }
        assert forall|m: int| 0 <= m < acc.len() implies #[trigger] out[m] == acc[m] by {
            assert(out[m] == prev[m]);
        }
    }
}

proof fn lemma_upto_complete(f: Function, n: nat, b: int)
    requires
        0 <= b < n <= f.blocks@.len(),
    ensures
        forall|m: int|
            0 <= m < block_patterns(f, f.blocks@[b]@).len() ==> has_same(
                function_patterns_upto(f, n),
                #[trigger] block_patterns(f, f.blocks@[b]@)[m],
            ),
    decreases n,
{
    let prev = function_patterns_upto(f, (n - 1) as nat);
    let ps = block_patterns(f, f.blocks@[n - 1]@);
    lemma_add_new_keeps(prev, ps, ps.len());
    let out = function_patterns_upto(f, n);
    if b < n - 1 {
        lemma_upto_complete(f, (n - 1) as nat, b);
        assert forall|m: int| 0 <= m < block_patterns(f, f.blocks@[b]@).len() implies has_same(
            out,
            #[trigger] block_patterns(f, f.blocks@[b]@)[m],
        ) by {
            let q = block_patterns(f, f.blocks@[b]@)[m];
            let w = choose|w: int| 0 <= w < prev.len() && same_pattern(#[trigger] prev[w], q);
            assert(out[w] == prev[w]);
        }
    }
}

/// Every pattern found in any block of a function is the same as one of the
/// patterns extracted from the function.
pub proof fn lemma_extracted_patterns_complete(f: Function, b: int)
    requires
        0 <= b < f.blocks@.len(),
    ensures
        forall|m: int|
            0 <= m < block_patterns(f, f.blocks@[b]@).len() ==> has_same(
                function_patterns(f),
                #[trigger] block_patterns(f, f.blocks@[b]@)[m],
            ),
{
    lemma_upto_complete(f, f.blocks@.len(), b);
}

/// Extraction keeps exactly one pattern per shape: the patterns extracted
/// from a function differ pairwise once their instructions are forgotten
/// (so two patterns that differ only in result type are both kept), and
/// every pattern of every block has the shape of one of them.
pub proof fn lemma_extracted_patterns_one_per_shape(f: Function, b: int)
    requires
        0 <= b < f.blocks@.len(),
    ensures
        forall|i: int, j: int|
            0 <= i < j < function_patterns(f).len() ==> erase_insts(#[trigger] function_patterns(f)[i])
                != erase_insts(#[trigger] function_patterns(f)[j]),
        forall|m: int|
            0 <= m < block_patterns(f, f.blocks@[b]@).len() ==> exists|k: int|
                0 <= k < function_patterns(f).len() && erase_insts(#[trigger] function_patterns(f)[k])
                    == erase_insts(#[trigger] block_patterns(f, f.blocks@[b]@)[m]),
{
    let fp = function_patterns(f);
    let bp = block_patterns(f, f.blocks@[b]@);
    lemma_extracted_patterns_distinct(f);
    lemma_extracted_patterns_complete(f, b);
    assert forall|i: int, j: int| 0 <= i < j < fp.len() implies erase_insts(#[trigger] fp[i])
        != erase_insts(#[trigger] fp[j]) by {
        lemma_same_pattern_is_equality_up_to_insts(fp[i], fp[j]);
    }
    assert forall|m: int| 0 <= m < bp.len() implies exists|k: int|
        0 <= k < fp.len() && erase_insts(#[trigger] fp[k]) == erase_insts(#[trigger] bp[m]) by {
        assert(has_same(fp, bp[m]));
        let k = choose|k: int| 0 <= k < fp.len() && same_pattern(#[trigger] fp[k], bp[m]);
        lemma_same_pattern_is_equality_up_to_insts(fp[k], bp[m]);
    }
}

/// Whether `pos` places the roots of `ps` in `order`: each root is the
/// instruction at its position, within the first `k`, and positions rise
/// with the patterns.
pub open spec fn roots_placed(ps: Seq<PdfgView>, order: Seq<usize>, k: nat, pos: Seq<int>) -> bool {
    &&& pos.len() == ps.len()
    &&& forall|m: int| 0 <= m < ps.len() ==> 0 <= #[trigger] pos[m] < k && pos[m] < order.len() && order[pos[m]] == ps[m].inst
    &&& forall|m1: int, m2: int| 0 <= m1 < m2 < ps.len() ==> #[trigger] pos[m1] < #[trigger] pos[m2]
}

proof fn lemma_block_state_roots(f: Function, order: Seq<usize>, k: nat) -> (pos: Seq<int>)
    ensures
        roots_placed(block_state(f, order, k).0, order, k, pos),
    decreases k,
{
    if k == 0 || k > order.len() {
        let pos: Seq<int> = seq![];
        assert(roots_placed(block_state(f, order, k).0, order, k, pos));
        pos
    } else {
        let prev = lemma_block_state_roots(f, order, (k - 1) as nat);
        let st = block_state(f, order, (k - 1) as nat);
        let inst = order[k - 1];
        if !st.1.contains(inst) && extract_allowed(f.insts@[inst as int].opcode@) {
            let pos = prev.push(k - 1);
            let out = block_state(f, order, k).0;
            assert(out == block_step(f, inst, st).0);
            assert forall|m: int| 0 <= m < out.len() implies 0 <= #[trigger] pos[m] < k && pos[m] < order.len()
                && order[pos[m]] == out[m].inst by {
                if m < st.0.len() {
                    assert(out[m] == st.0[m]);
                }
            }
            assert(roots_placed(out, order, k, pos));
            pos
        } else {
            assert(block_state(f, order, k).0 == st.0);
            prev
        }
    }
}

proof fn lemma_block_state_first(f: Function, order: Seq<usize>, k: nat)
    requires
        1 <= k <= order.len(),
        extract_allowed(f.insts@[order[0] as int].opcode@),
    ensures
        block_state(f, order, k).0.len() > 0,
        block_state(f, order, k).0[0].inst == order[0],
    decreases k,
{
    if k == 1 {
        assert(block_state(f, order, 0) == (Seq::<PdfgView>::empty(), Seq::<usize>::empty()));
    } else {
        lemma_block_state_first(f, order, (k - 1) as nat);
        let st = block_state(f, order, (k - 1) as nat);
        assert(block_state(f, order, k).0 == block_step(f, order[k - 1], st).0);
    }
}

/// Whether `pos` gives, for each pattern of `ps`, a position of `block`
/// holding its root, the positions falling as the patterns go on.
pub open spec fn roots_descending(ps: Seq<PdfgView>, block: Seq<usize>, pos: Seq<int>) -> bool {
    &&& pos.len() == ps.len()
    &&& forall|m: int| 0 <= m < pos.len() ==> 0 <= #[trigger] pos[m] < block.len() && block[pos[m]] == ps[m].inst
    &&& forall|m1: int, m2: int| 0 <= m1 < m2 < pos.len() ==> #[trigger] pos[m1] > #[trigger] pos[m2]
}

/// The patterns of a block are rooted at instructions of the block, met
/// from the last instruction to the first: the roots of later patterns
/// stand earlier in the block. And when the block's last instruction has an
/// opcode that patterns may hold, it is the root of the first pattern.
pub proof fn lemma_block_roots_last_to_first(f: Function, block: Seq<usize>)
    ensures
        forall|m: int|
            0 <= m < block_patterns(f, block).len() ==> block.contains(#[trigger] block_patterns(f, block)[m].inst),
        exists|pos: Seq<int>| #[trigger] roots_descending(block_patterns(f, block), block, pos),
        block.len() > 0 && extract_allowed(f.insts@[block.last() as int].opcode@) ==> block_patterns(f, block).len()
            > 0 && block_patterns(f, block)[0].inst == block.last(),
{
    let order = block.reverse();
    let ps = block_patterns(f, block);
    let rpos = lemma_block_state_roots(f, order, block.len());
    let pos = Seq::new(rpos.len(), |m: int| block.len() - 1 - rpos[m]);
    assert forall|m: int| 0 <= m < pos.len() implies 0 <= #[trigger] pos[m] < block.len() && block[pos[m]]
        == ps[m].inst by {
        assert(rpos[m] < block.len());
        assert(order[rpos[m]] == block[block.len() - 1 - rpos[m]]);
    }
    assert forall|m1: int, m2: int| 0 <= m1 < m2 < pos.len() implies #[trigger] pos[m1] > #[trigger] pos[m2] by {
        assert(rpos[m1] < rpos[m2]);
    }
    assert forall|m: int| 0 <= m < ps.len() implies block.contains(#[trigger] ps[m].inst) by {
        assert(0 <= pos[m] < block.len() && block[pos[m]] == ps[m].inst);
    }
    assert(roots_descending(ps, block, pos));
    if block.len() > 0 && extract_allowed(f.insts@[block.last() as int].opcode@) {
        assert(order[0] == block.last());
        lemma_block_state_first(f, order, block.len());
    }
}

} // verus!
