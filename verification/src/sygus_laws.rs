//! What holds of every pattern tree built from ISLE rules, and of the
//! productions that it gives.
use vstd::prelude::*;
use crate::insn_type::InsnType;
use crate::isle::{Def, Pattern};
use crate::rules::{
    allowed_name, def_lines, run_defs, somes, term_tree_of, tree_of, tree_opts, trees_from,
    type_lines, wrap_lines,
};
use crate::sygus::{
    add_or_return, all_insns_typed, extended_forms, sygus_args, sygus_ready, sygus_strings, valid_pattern,
    valid_shape, PartView, SygusTree,
};

verus! {

/// Every instruction that the node `p` holds, directly or inside a
/// wrapped variable, has an opcode that productions may use.
pub open spec fn part_opcodes_allowed(p: PartView) -> bool
    decreases p,
{
    match p {
        PartView::Insn(op, _) => allowed_name(op),
        PartView::Imm12Var(b) => part_opcodes_allowed(*b),
        PartView::ExtendedVar(b) => part_opcodes_allowed(*b),
        _ => true,
    }
}

/// Every instruction anywhere in `t` has an opcode that productions may use.
pub open spec fn opcodes_allowed(t: SygusTree) -> bool
    decreases t,
{
    &&& part_opcodes_allowed(t.pattern)
    &&& forall|i: int| 0 <= i < t.args.len() ==> opcodes_allowed(#[trigger] t.args[i])
}

proof fn lemma_somes_allowed(s: Seq<Option<SygusTree>>)
    requires
        forall|i: int| 0 <= i < s.len() ==> (#[trigger] s[i] matches Some(t) ==> opcodes_allowed(t)),
    ensures
        forall|i: int| 0 <= i < somes(s).len() ==> opcodes_allowed(#[trigger] somes(s)[i]),
    decreases s.len(),
{
    if s.len() > 0 {
        lemma_somes_allowed(s.drop_last());
        let prev = somes(s.drop_last());
        assert forall|i: int| 0 <= i < somes(s).len() implies opcodes_allowed(#[trigger] somes(s)[i]) by {
            if i < prev.len() {
                assert(somes(s)[i] == prev[i]);
            } else {
                assert(s[s.len() - 1] == s.last());
            }
        }
    }
}

proof fn lemma_trees_from_allowed(ps: Seq<Pattern>, from: int)
    ensures
        forall|i: int|
            0 <= i < trees_from(ps, from).len() ==> opcodes_allowed(#[trigger] trees_from(ps, from)[i]),
    decreases ps, 1nat,
{
    let opts = tree_opts(ps, from);
    assert forall|i: int| 0 <= i < opts.len() implies (#[trigger] opts[i] matches Some(t) ==> opcodes_allowed(t)) by {
        lemma_tree_of_allowed(ps[from + i]);
    }
    lemma_somes_allowed(opts);
}

proof fn lemma_term_tree_of_allowed(t: Pattern, names_opcode: bool)
    ensures
        term_tree_of(t, names_opcode) matches Some(p) ==> opcodes_allowed(p),
    decreases t, 1nat,
{
    match t {
        Pattern::Term { sym, args } => {
            if names_opcode {
                if allowed_name(sym@) {
                    lemma_trees_from_allowed(args@, 1);
                    if sym@ == "ishl"@ && args@.len() > 0 {
                        lemma_tree_of_allowed(args@[0]);
                    }
                    let p = term_tree_of(t, names_opcode).unwrap();
                    let first: Seq<SygusTree> = if sym@ == "ishl"@ && args@.len() > 0 {
                        match tree_of(args@[0]) {
                            Some(a) => if a.pattern is Wildcard {
                                seq![a]
                            } else {
                                seq![]
                            },
                            None => seq![],
                        }
                    } else {
                        seq![]
                    };
                    assert(p.args == first + trees_from(args@, 1));
                    assert forall|i: int| 0 <= i < p.args.len() implies opcodes_allowed(#[trigger] p.args[i]) by {
                        if i >= first.len() {
                            assert(p.args[i] == trees_from(args@, 1)[i - first.len()]);
                        }
                    }
                }
            } else if sym@ == "imm12_from_value"@ || sym@ == "extended_value_from_value"@ {
                if args@.len() > 0 {
                    lemma_tree_of_allowed(args@[0]);
                    if let Some(v) = tree_of(args@[0]) {
                        assert(part_opcodes_allowed(v.pattern));
                        let p = term_tree_of(t, names_opcode).unwrap();
                        assert(part_opcodes_allowed(p.pattern));
                        assert(p.args.len() == 0);
                    }
                }
            } else {
                lemma_trees_from_allowed(args@, 0);
                let p = term_tree_of(t, names_opcode).unwrap();
                assert(p.args == trees_from(args@, 0));
                assert(part_opcodes_allowed(p.pattern));
            }
        },
        _ => {},
    }
}

proof fn lemma_tree_of_allowed(t: Pattern)
    ensures
        tree_of(t) matches Some(p) ==> opcodes_allowed(p),
    decreases t, 2nat,
{
    match t {
        Pattern::Term { sym, .. } => {
            lemma_term_tree_of_allowed(t, crate::opcode::is_opcode_name(sym@));
            assert(tree_of(t) == term_tree_of(t, crate::opcode::is_opcode_name(sym@)));
            if let Some(p) = term_tree_of(t, crate::opcode::is_opcode_name(sym@)) {
                assert(opcodes_allowed(p));
            }
        },
        Pattern::And { subpats } => {
            lemma_trees_from_allowed(subpats@, 0);
            let p = tree_of(t).unwrap();
            assert(p.args == trees_from(subpats@, 0));
            assert(opcodes_allowed(p));
        },
        Pattern::BindPattern { subpat, .. } => {
            lemma_tree_of_allowed(*subpat);
            let p = tree_of(t).unwrap();
            assert forall|i: int| 0 <= i < p.args.len() implies opcodes_allowed(#[trigger] p.args[i]) by {}
            assert(opcodes_allowed(p));
        },
        Pattern::MacroArg { .. } => {},
        _ => {
            let p = tree_of(t).unwrap();
            assert(p.args =~= seq![]);
            assert(opcodes_allowed(p));
        },
    }
}

/// Every instruction in a tree built from an ISLE pattern has an opcode
/// that productions may use: any other opcode keeps its term from giving a
/// tree at all.
pub proof fn lemma_tree_opcodes_allowed(t: Pattern)
    ensures
        tree_of(t) matches Some(p) ==> opcodes_allowed(p),
{
    lemma_tree_of_allowed(t);
}


/// Six to the power `n`.
pub open spec fn pow6(n: nat) -> nat
    decreases n,
{
    if n == 0 {
        1
    } else {
        6 * pow6((n - 1) as nat)
    }
}

/// The number of extended values that producing strings from `t` meets:
/// those reached from the root through instructions.
pub open spec fn ext_count(t: SygusTree) -> nat
    decreases t, t.args.len() + 1,
{
    match t.pattern {
        PartView::Insn(_, _) => ext_args(t, t.args.len()),
        PartView::ExtendedVar(_) => 1,
        _ => 0,
    }
}

/// The number of extended values met in the first `k` subtrees of `t`.
pub open spec fn ext_args(t: SygusTree, k: nat) -> nat
    decreases t, k,
{
    if k == 0 || k > t.args.len() {
        0
    } else {
        ext_args(t, (k - 1) as nat) + ext_count(t.args[k - 1])
    }
}

proof fn lemma_pow6_add(a: nat, b: nat)
    ensures
        pow6(a + b) == pow6(a) * pow6(b),
        pow6(a) > 0,
    decreases a,
{
    if a > 0 {
        let a1 = (a - 1) as nat;
        lemma_pow6_add(a1, b);
        assert(pow6(a) == 6 * pow6(a1));
        assert(pow6(a + b) == 6 * pow6(a1 + b));
        let x = pow6(a1);
        let y = pow6(b);
        assert(6 * (x * y) == (6 * x) * y) by (nonlinear_arith);
    } else {
        assert(pow6(0) == 1);
        assert(pow6(a + b) == pow6(b));
    }
}

proof fn lemma_flatten_rows_of_six(rows: Seq<Seq<Seq<char>>>)
    requires
        forall|i: int| 0 <= i < rows.len() ==> (#[trigger] rows[i]).len() == 6,
    ensures
        rows.flatten().len() == 6 * rows.len(),
    decreases rows.len(),
{
    if rows.len() > 0 {
        lemma_flatten_rows_of_six(rows.drop_first());
    }
}

proof fn lemma_mul_pos(a: nat, b: nat)
    requires
        a > 0,
        b > 0,
    ensures
        a * b > 0,
{
    assert(a * b > 0) by (nonlinear_arith)
        requires
            a > 0,
            b > 0,
    ;
}

proof fn lemma_count_strings(t: SygusTree, input: Seq<Seq<char>>, ty: InsnType)
    requires
        input.len() > 0,
    ensures
        sygus_strings(t, input, ty).len() == input.len() * pow6(ext_count(t)),
    decreases t, t.args.len() + 1,
{
    match t.pattern {
        PartView::Insn(op, _) => {
            let opened = add_or_return(input, "("@ + ty.name() + " "@ + op);
            assert(opened.len() == input.len());
            lemma_count_args(t, t.args.len(), opened, ty);
            lemma_pow6_add(ext_args(t, t.args.len()), 0);
            lemma_mul_pos(input.len(), pow6(ext_args(t, t.args.len())));
            let mid = sygus_args(t, t.args.len(), opened, ty);
            assert(mid.len() == input.len() * pow6(ext_args(t, t.args.len())));
            assert(sygus_strings(t, input, ty) == add_or_return(mid, ")"@));
            assert(add_or_return(mid, ")"@).len() == mid.len());
            assert(ext_count(t) == ext_args(t, t.args.len()));
        },
        PartView::ExtendedVar(_) => {
            let rows = input.map_values(
                |o: Seq<char>| extended_forms().map_values(|x: Seq<char>| o + seq![' '] + x),
            );
            lemma_flatten_rows_of_six(rows);
            assert(pow6(0) == 1);
            assert(pow6(1) == 6);
            assert(ext_count(t) == 1);
            assert(sygus_strings(t, input, ty) == rows.flatten());
            assert(rows.len() == input.len());
            assert(pow6(ext_count(t)) == 6);
            assert(input.len() * pow6(ext_count(t)) == input.len() * 6);
        },
        _ => {
            assert(pow6(0) == 1);
            assert(ext_count(t) == 0);
            assert(sygus_strings(t, input, ty).len() == input.len());
            assert(pow6(ext_count(t)) == 1);
            assert(input.len() * pow6(ext_count(t)) == input.len() * 1);
        },
    }
}

proof fn lemma_count_args(t: SygusTree, k: nat, start: Seq<Seq<char>>, ty: InsnType)
    requires
        start.len() > 0,
    ensures
        sygus_args(t, k, start, ty).len() == start.len() * pow6(ext_args(t, k)),
    decreases t, k,
{
    if k == 0 || k > t.args.len() {
        assert(pow6(0) == 1);
    } else {
        let a = ext_args(t, (k - 1) as nat);
        let b = ext_count(t.args[k - 1]);
        lemma_count_args(t, (k - 1) as nat, start, ty);
        lemma_pow6_add(a, b);
        lemma_pow6_add(b, 0);
        lemma_mul_pos(start.len(), pow6(a));
        lemma_count_strings(t.args[k - 1], sygus_args(t, (k - 1) as nat, start, ty), ty);
        assert((start.len() * pow6(a)) * pow6(b) == start.len() * (pow6(a) * pow6(b))) by (nonlinear_arith);
    }
}

/// Each extended value multiplies the strings produced by six, one for each
/// way of widening it: continuing `input` strings (at least one), `t` gives
/// `input.len() * 6^e` strings, where `e` counts the extended values that
/// production meets.
pub proof fn lemma_production_count(t: SygusTree, input: Seq<Seq<char>>, ty: InsnType)
    requires
        input.len() > 0,
    ensures
        sygus_strings(t, input, ty).len() == input.len() * pow6(ext_count(t)),
{
    lemma_count_strings(t, input, ty);
}

/// Starting afresh, an instruction tree gives `6^e` productions, where `e`
/// counts the extended values that production meets.
pub proof fn lemma_insn_production_count(t: SygusTree, ty: InsnType)
    requires
        t.pattern is Insn,
    ensures
        sygus_strings(t, seq![], ty).len() == pow6(ext_count(t)),
{
    let op = t.pattern->Insn_0;
    let opened = add_or_return(seq![], "("@ + ty.name() + " "@ + op);
    assert(opened.len() == 1);
    lemma_count_args(t, t.args.len(), opened, ty);
    lemma_pow6_add(ext_args(t, t.args.len()), 0);
}

/// Whether every string of `s` starts with `prefix`.
pub open spec fn all_start_with(s: Seq<Seq<char>>, prefix: Seq<char>) -> bool {
    forall|i: int| 0 <= i < s.len() ==> prefix.is_prefix_of(#[trigger] s[i])
}

proof fn lemma_prefix_extend(prefix: Seq<char>, x: Seq<char>, rest: Seq<char>)
    requires
        prefix.is_prefix_of(x),
    ensures
        prefix.is_prefix_of(x + rest),
{
    assert(prefix =~= (x + rest).subrange(0, prefix.len() as int));
}

proof fn lemma_add_or_return_prefix(v: Seq<Seq<char>>, s: Seq<char>, prefix: Seq<char>)
    requires
        v.len() > 0,
        all_start_with(v, prefix),
    ensures
        all_start_with(add_or_return(v, s), prefix),
{
    assert forall|i: int| 0 <= i < add_or_return(v, s).len() implies prefix.is_prefix_of(#[trigger] add_or_return(v, s)[i]) by {
        lemma_prefix_extend(prefix, v[i], seq![' '] + s);
        assert(add_or_return(v, s)[i] =~= v[i] + (seq![' '] + s));
    }
}

proof fn lemma_strings_keep_prefix(t: SygusTree, input: Seq<Seq<char>>, ty: InsnType, prefix: Seq<char>)
    requires
        input.len() > 0,
        all_start_with(input, prefix),
    ensures
        all_start_with(sygus_strings(t, input, ty), prefix),
    decreases t, t.args.len() + 1,
{
    match t.pattern {
        PartView::Insn(op, _) => {
            let opened = add_or_return(input, "("@ + ty.name() + " "@ + op);
            lemma_add_or_return_prefix(input, "("@ + ty.name() + " "@ + op, prefix);
            lemma_args_keep_prefix(t, t.args.len(), opened, ty, prefix);
            lemma_count_args(t, t.args.len(), opened, ty);
            lemma_pow6_add(ext_args(t, t.args.len()), 0);
            lemma_mul_pos(opened.len(), pow6(ext_args(t, t.args.len())));
            lemma_add_or_return_prefix(sygus_args(t, t.args.len(), opened, ty), ")"@, prefix);
        },
        PartView::ExtendedVar(_) => {
            let rows = input.map_values(
                |o: Seq<char>| extended_forms().map_values(|x: Seq<char>| o + seq![' '] + x),
            );
            lemma_rows_keep_prefix(rows, input, prefix);
        },
        PartView::Var(_) => lemma_add_or_return_prefix(input, "("@ + ty.name() + " value)"@, prefix),
        PartView::Wildcard => lemma_add_or_return_prefix(input, "("@ + ty.name() + " value)"@, prefix),
        PartView::Imm12Var(_) => lemma_add_or_return_prefix(
            input,
            "("@ + ty.name() + " ((_ zero_extend "@ + crate::decimal::decimal_seq((ty.width() - 12) as nat)
                + ") ((_ extract 11 0) value)))"@,
            prefix,
        ),
        _ => lemma_add_or_return_prefix(input, crate::sygus::part_display(t.pattern), prefix),
    }
}

proof fn lemma_rows_keep_prefix(rows: Seq<Seq<Seq<char>>>, input: Seq<Seq<char>>, prefix: Seq<char>)
    requires
        all_start_with(input, prefix),
        rows == input.map_values(
            |o: Seq<char>| extended_forms().map_values(|x: Seq<char>| o + seq![' '] + x),
        ),
    ensures
        all_start_with(rows.flatten(), prefix),
    decreases rows.len(),
{
    if rows.len() > 0 {
        let tail_in = input.drop_first();
        assert(rows.drop_first() =~= tail_in.map_values(
            |o: Seq<char>| extended_forms().map_values(|x: Seq<char>| o + seq![' '] + x),
        ));
        lemma_rows_keep_prefix(rows.drop_first(), tail_in, prefix);
        let first = rows.first();
        assert(rows.flatten() == first + rows.drop_first().flatten());
        assert forall|i: int| 0 <= i < rows.flatten().len() implies prefix.is_prefix_of(#[trigger] rows.flatten()[i]) by {
            if i < first.len() {
                let x = extended_forms()[i];
                assert(rows.flatten()[i] == first[i]);
                assert(first[i] == input[0] + seq![' '] + x);
                lemma_prefix_extend(prefix, input[0], seq![' '] + x);
                assert(input[0] + seq![' '] + x =~= input[0] + (seq![' '] + x));
            } else {
                assert(rows.flatten()[i] == rows.drop_first().flatten()[i - first.len()]);
            }
        }
    }
}

proof fn lemma_args_keep_prefix(t: SygusTree, k: nat, start: Seq<Seq<char>>, ty: InsnType, prefix: Seq<char>)
    requires
        start.len() > 0,
        all_start_with(start, prefix),
    ensures
        all_start_with(sygus_args(t, k, start, ty), prefix),
    decreases t, k,
{
    if k > 0 && k <= t.args.len() {
        lemma_args_keep_prefix(t, (k - 1) as nat, start, ty, prefix);
        lemma_count_args(t, (k - 1) as nat, start, ty);
        lemma_pow6_add(ext_args(t, (k - 1) as nat), 0);
        lemma_mul_pos(start.len(), pow6(ext_args(t, (k - 1) as nat)));
        lemma_strings_keep_prefix(t.args[k - 1], sygus_args(t, (k - 1) as nat, start, ty), ty, prefix);
    }
}

/// Every production of an instruction tree for type `ty` opens with the
/// root instruction at that type: `(`, the type's name, a space, and the
/// opcode.
pub proof fn lemma_insn_productions_open_with_root(t: SygusTree, ty: InsnType)
    requires
        t.pattern is Insn,
    ensures
        all_start_with(sygus_strings(t, seq![], ty), "("@ + ty.name() + " "@ + t.pattern->Insn_0),
{
    let op = t.pattern->Insn_0;
    let head = "("@ + ty.name() + " "@ + op;
    let opened = add_or_return(seq![], head);
    assert(opened =~= seq![head]);
    assert(head.is_prefix_of(opened[0])) by {
        assert(head =~= opened[0].subrange(0, head.len() as int));
    }
    assert(all_start_with(opened, head));
    lemma_args_keep_prefix(t, t.args.len(), opened, ty, head);
    lemma_count_args(t, t.args.len(), opened, ty);
    lemma_pow6_add(ext_args(t, t.args.len()), 0);
    lemma_add_or_return_prefix(sygus_args(t, t.args.len(), opened, ty), ")"@, head);
}

/// Whether `line` is wrapped in parentheses.
pub open spec fn parenthesized(line: Seq<char>) -> bool {
    line.len() >= 2 && line[0] == '(' && line.last() == ')'
}

proof fn lemma_wrap_parenthesized(s: Seq<Seq<char>>)
    ensures
        forall|i: int| 0 <= i < wrap_lines(s).len() ==> parenthesized(#[trigger] wrap_lines(s)[i]),
{
    reveal_strlit("(");
    reveal_strlit(")");
    assert forall|i: int| 0 <= i < wrap_lines(s).len() implies parenthesized(#[trigger] wrap_lines(s)[i]) by {
        let l = wrap_lines(s)[i];
        assert(l == "("@ + s[i] + ")"@);
        assert(l[0] == '(');
        assert(l.last() == ')');
    }
}

proof fn lemma_type_lines_parenthesized(p: SygusTree, types: Seq<InsnType>, k: nat)
    ensures
        forall|i: int|
            0 <= i < type_lines(p, types, k).0.len() ==> parenthesized(#[trigger] type_lines(p, types, k).0[i]),
    decreases k,
{
    if k > 0 && k <= types.len() {
        lemma_type_lines_parenthesized(p, types, (k - 1) as nat);
        let prev = type_lines(p, types, (k - 1) as nat);
        let w = wrap_lines(sygus_strings(p, seq![], types[k - 1]));
        lemma_wrap_parenthesized(sygus_strings(p, seq![], types[k - 1]));
        let out = type_lines(p, types, k).0;
        assert forall|i: int| 0 <= i < out.len() implies parenthesized(#[trigger] out[i]) by {
            if i < prev.0.len() {
                assert(out[i] == prev.0[i]);
            } else {
                assert(out[i] == w[i - prev.0.len()]);
            }
        }
    }
}

proof fn lemma_def_lines_parenthesized(d: Def)
    ensures
        forall|i: int| 0 <= i < def_lines(d).0.len() ==> parenthesized(#[trigger] def_lines(d).0[i]),
{
    match d {
        Def::Rule { pattern } => {
            match pattern {
                Pattern::Term { sym, args } => {
                    if sym@ == "lower"@ && args@.len() > 0 {
                        if let Some(p) = tree_of(args@[0]) {
                            if let PartView::Insn(_, Some(types)) = p.pattern {
                                lemma_type_lines_parenthesized(p, types, types.len());
                            }
                        }
                    }
                },
                _ => {},
            }
        },
        Def::Other => {},
    }
}

/// Every line of output is one production wrapped in parentheses.
pub proof fn lemma_output_lines_parenthesized(defs: Seq<Def>, k: nat)
    ensures
        forall|i: int| 0 <= i < run_defs(defs, k).0.len() ==> parenthesized(#[trigger] run_defs(defs, k).0[i]),
    decreases k,
{
    if k > 0 && k <= defs.len() {
        lemma_output_lines_parenthesized(defs, (k - 1) as nat);
        let prev = run_defs(defs, (k - 1) as nat);
        if !prev.1 {
            lemma_def_lines_parenthesized(defs[k - 1]);
            let d = def_lines(defs[k - 1]);
            let out = run_defs(defs, k).0;
            assert forall|i: int| 0 <= i < out.len() implies parenthesized(#[trigger] out[i]) by {
                if i < prev.0.len() {
                    assert(out[i] == prev.0[i]);
                } else {
                    assert(out[i] == d.0[i - prev.0.len()]);
                }
            }
        }
    }
}


/// `x` put before each string of `s`.
pub open spec fn prefix_all(x: Seq<char>, s: Seq<Seq<char>>) -> Seq<Seq<char>> {
    s.map_values(|e: Seq<char>| x + e)
}

/// For each string of `input` in order, that string followed by each of
/// `sufs` in order.
pub open spec fn expand(input: Seq<Seq<char>>, sufs: Seq<Seq<char>>) -> Seq<Seq<char>> {
    input.map_values(|x: Seq<char>| prefix_all(x, sufs)).flatten()
}

proof fn lemma_expand_first(input: Seq<Seq<char>>, sufs: Seq<Seq<char>>)
    requires
        input.len() > 0,
    ensures
        expand(input, sufs) == prefix_all(input[0], sufs) + expand(input.drop_first(), sufs),
{
    let m = input.map_values(|x: Seq<char>| prefix_all(x, sufs));
    assert(m.drop_first() =~= input.drop_first().map_values(|x: Seq<char>| prefix_all(x, sufs)));
    assert(m.first() == prefix_all(input[0], sufs));
}

proof fn lemma_expand_empty(sufs: Seq<Seq<char>>)
    ensures
        expand(seq![], sufs) == Seq::<Seq<char>>::empty(),
{
    assert(Seq::<Seq<char>>::empty().map_values(|x: Seq<char>| prefix_all(x, sufs)) =~= seq![]);
}

proof fn lemma_expand_concat(a: Seq<Seq<char>>, b: Seq<Seq<char>>, t: Seq<Seq<char>>)
    ensures
        expand(a + b, t) == expand(a, t) + expand(b, t),
    decreases a.len(),
{
    if a.len() == 0 {
        assert(a + b =~= b);
        lemma_expand_empty(t);
        assert(expand(a, t) + expand(b, t) =~= expand(b, t));
    } else {
        lemma_expand_first(a + b, t);
        lemma_expand_first(a, t);
        assert((a + b).drop_first() =~= a.drop_first() + b);
        assert((a + b)[0] == a[0]);
        lemma_expand_concat(a.drop_first(), b, t);
        assert(expand(a + b, t) =~= expand(a, t) + expand(b, t));
    }
}

proof fn lemma_expand_prefix(x: Seq<char>, s: Seq<Seq<char>>, t: Seq<Seq<char>>)
    ensures
        expand(prefix_all(x, s), t) == prefix_all(x, expand(s, t)),
    decreases s.len(),
{
    if s.len() == 0 {
        assert(prefix_all(x, s) =~= seq![]);
        lemma_expand_empty(t);
        lemma_expand_empty(t);
        assert(s =~= seq![]);
        assert(prefix_all(x, expand(s, t)) =~= seq![]);
    } else {
        let ps = prefix_all(x, s);
        lemma_expand_first(ps, t);
        lemma_expand_first(s, t);
        assert(ps.drop_first() =~= prefix_all(x, s.drop_first()));
        assert(ps[0] == x + s[0]);
        lemma_expand_prefix(x, s.drop_first(), t);
        assert(prefix_all(x + s[0], t) =~= prefix_all(x, prefix_all(s[0], t))) by {
            assert forall|i: int| 0 <= i < t.len() implies prefix_all(x + s[0], t)[i] =~= prefix_all(x, prefix_all(s[0], t))[i] by {}
        }
        assert(prefix_all(x, prefix_all(s[0], t) + expand(s.drop_first(), t)) =~= prefix_all(x, prefix_all(s[0], t))
            + prefix_all(x, expand(s.drop_first(), t)));
    }
}

proof fn lemma_expand_assoc(i: Seq<Seq<char>>, s: Seq<Seq<char>>, t: Seq<Seq<char>>)
    ensures
        expand(expand(i, s), t) == expand(i, expand(s, t)),
    decreases i.len(),
{
    if i.len() == 0 {
        lemma_expand_empty(s);
        lemma_expand_empty(t);
        lemma_expand_empty(expand(s, t));
        assert(i =~= seq![]);
    } else {
        lemma_expand_first(i, s);
        lemma_expand_first(i, expand(s, t));
        lemma_expand_concat(prefix_all(i[0], s), expand(i.drop_first(), s), t);
        lemma_expand_prefix(i[0], s, t);
        lemma_expand_assoc(i.drop_first(), s, t);
    }
}

proof fn lemma_expand_unit(sufs: Seq<Seq<char>>)
    ensures
        expand(seq![seq![]], sufs) == sufs,
{
    lemma_expand_first(seq![seq![]], sufs);
    assert(seq![Seq::<char>::empty()].drop_first() =~= seq![]);
    lemma_expand_empty(sufs);
    assert(prefix_all(seq![], sufs) =~= sufs);
}

proof fn lemma_expand_by_empty(j: Seq<Seq<char>>)
    ensures
        expand(j, seq![seq![]]) == j,
    decreases j.len(),
{
    if j.len() == 0 {
        lemma_expand_empty(seq![seq![]]);
        assert(j =~= seq![]);
    } else {
        lemma_expand_first(j, seq![seq![]]);
        lemma_expand_by_empty(j.drop_first());
        assert(prefix_all(j[0], seq![seq![]]) =~= seq![j[0]]);
        assert(j =~= seq![j[0]] + j.drop_first());
    }
}

proof fn lemma_extend_is_expand(input: Seq<Seq<char>>, c: Seq<char>)
    ensures
        input.map_values(|x: Seq<char>| x + seq![' '] + c) == expand(input, seq![seq![' '] + c]),
    decreases input.len(),
{
    if input.len() == 0 {
        lemma_expand_empty(seq![seq![' '] + c]);
        assert(input.map_values(|x: Seq<char>| x + seq![' '] + c) =~= seq![]);
        assert(input =~= seq![]);
    } else {
        lemma_expand_first(input, seq![seq![' '] + c]);
        lemma_extend_is_expand(input.drop_first(), c);
        let x0 = input[0];
        assert(x0 + (seq![' '] + c) =~= x0 + seq![' '] + c);
        assert(prefix_all(x0, seq![seq![' '] + c])[0] == x0 + (seq![' '] + c));
        assert(prefix_all(x0, seq![seq![' '] + c]) =~= seq![x0 + seq![' '] + c]);
        assert(input.map_values(|x: Seq<char>| x + seq![' '] + c) =~= seq![input[0] + seq![' '] + c]
            + input.drop_first().map_values(|x: Seq<char>| x + seq![' '] + c));
    }
}

proof fn lemma_add_or_return_expand(input: Seq<Seq<char>>, c: Seq<char>)
    requires
        input.len() > 0,
    ensures
        add_or_return(input, c) == expand(input, seq![seq![' '] + c]),
        add_or_return(seq![seq![]], c) == seq![seq![' '] + c],
{
    lemma_extend_is_expand(input, c);
    assert(add_or_return(seq![seq![]], c) =~= seq![seq![' '] + c]);
}

proof fn lemma_extended_expand(input: Seq<Seq<char>>)
    ensures
        input.map_values(
            |o: Seq<char>| extended_forms().map_values(|x: Seq<char>| o + seq![' '] + x),
        ).flatten() == expand(input, prefix_all(seq![' '], extended_forms())),
{
    let f1 = |o: Seq<char>| extended_forms().map_values(|x: Seq<char>| o + seq![' '] + x);
    let f2 = |x: Seq<char>| prefix_all(x, prefix_all(seq![' '], extended_forms()));
    assert forall|o: Seq<char>| #[trigger] f1(o) == f2(o) by {
        assert forall|i: int| 0 <= i < extended_forms().len() implies #[trigger] f1(o)[i] == f2(o)[i] by {
            let x = extended_forms()[i];
            assert(o + seq![' '] + x =~= o + (seq![' '] + x));
        }
        assert(f1(o) =~= f2(o));
    }
    assert(input.map_values(f1) =~= input.map_values(f2));
}

proof fn lemma_nonempty_args(t: SygusTree, k: nat, start: Seq<Seq<char>>, ty: InsnType)
    requires
        start.len() > 0,
    ensures
        sygus_args(t, k, start, ty).len() > 0,
{
    lemma_count_args(t, k, start, ty);
    lemma_pow6_add(ext_args(t, k), 0);
    lemma_mul_pos(start.len(), pow6(ext_args(t, k)));
}

proof fn lemma_distrib_strings(t: SygusTree, input: Seq<Seq<char>>, ty: InsnType)
    requires
        input.len() > 0,
    ensures
        sygus_strings(t, input, ty) == expand(input, sygus_strings(t, seq![seq![]], ty)),
    decreases t, t.args.len() + 1,
{
    let unit: Seq<Seq<char>> = seq![seq![]];
    match t.pattern {
        PartView::Insn(op, _) => {
            let h = "("@ + ty.name() + " "@ + op;
            let hs = seq![seq![' '] + h];
            lemma_add_or_return_expand(input, h);
            let opened = add_or_return(input, h);
            let opened_u = add_or_return(unit, h);
            let n = t.args.len();
            lemma_distrib_args(t, n, opened, ty);
            lemma_distrib_args(t, n, opened_u, ty);
            let sa = sygus_args(t, n, unit, ty);
            lemma_nonempty_args(t, n, opened, ty);
            lemma_nonempty_args(t, n, opened_u, ty);
            let mid = sygus_args(t, n, opened, ty);
            let mid_u = sygus_args(t, n, opened_u, ty);
            let close = seq![seq![' '] + ")"@];
            lemma_add_or_return_expand(mid, ")"@);
            lemma_add_or_return_expand(mid_u, ")"@);
            lemma_expand_assoc(input, hs, sa);
            lemma_expand_assoc(input, expand(hs, sa), close);
            lemma_expand_unit(expand(hs, sa));
            assert(opened_u == hs);
            assert(mid_u == expand(hs, sa));
            assert(sygus_strings(t, unit, ty) == expand(expand(hs, sa), close));
            assert(sygus_strings(t, input, ty) == expand(expand(expand(input, hs), sa), close));
        },
        PartView::ExtendedVar(_) => {
            lemma_extended_expand(input);
            lemma_extended_expand(unit);
            lemma_expand_unit(prefix_all(seq![' '], extended_forms()));
        },
        PartView::Var(_) => {
            lemma_add_or_return_expand(input, "("@ + ty.name() + " value)"@);
        },
        PartView::Wildcard => {
            lemma_add_or_return_expand(input, "("@ + ty.name() + " value)"@);
        },
        PartView::Imm12Var(_) => {
            lemma_add_or_return_expand(
                input,
                "("@ + ty.name() + " ((_ zero_extend "@ + crate::decimal::decimal_seq((ty.width() - 12) as nat)
                    + ") ((_ extract 11 0) value)))"@,
            );
        },
        _ => {
            lemma_add_or_return_expand(input, crate::sygus::part_display(t.pattern));
        },
    }
}

proof fn lemma_distrib_args(t: SygusTree, k: nat, start: Seq<Seq<char>>, ty: InsnType)
    requires
        start.len() > 0,
    ensures
        sygus_args(t, k, start, ty) == expand(start, sygus_args(t, k, seq![seq![]], ty)),
    decreases t, k,
{
    let unit: Seq<Seq<char>> = seq![seq![]];
    if k == 0 || k > t.args.len() {
        lemma_expand_by_empty(start);
    } else {
        let a = t.args[k - 1];
        lemma_distrib_args(t, (k - 1) as nat, start, ty);
        let p = sygus_args(t, (k - 1) as nat, unit, ty);
        lemma_nonempty_args(t, (k - 1) as nat, start, ty);
        lemma_nonempty_args(t, (k - 1) as nat, unit, ty);
        lemma_distrib_strings(a, sygus_args(t, (k - 1) as nat, start, ty), ty);
        lemma_distrib_strings(a, p, ty);
        lemma_expand_assoc(start, p, sygus_strings(a, unit, ty));
    }
}

/// Strings produced after several input strings are, for each input string
/// in order, that string, a space, and each string that the tree produces
/// when starting afresh: the inputs are kept as prefixes, in order, and
/// extended independently. (An extended value at the root is left out: from
/// no input it produces nothing.)
pub proof fn lemma_as_sygus_distributes(t: SygusTree, input: Seq<Seq<char>>, ty: InsnType)
    requires
        !(t.pattern is ExtendedVar),
        input.len() > 0,
    ensures
        sygus_strings(t, input, ty) == input.map_values(
            |x: Seq<char>| sygus_strings(t, seq![], ty).map_values(|e: Seq<char>| x + seq![' '] + e),
        ).flatten(),
{
    let unit: Seq<Seq<char>> = seq![seq![]];
    let e = sygus_strings(t, seq![], ty);
    lemma_distrib_strings(t, input, ty);
    assert(sygus_strings(t, unit, ty) == prefix_all(seq![' '], e)) by {
        match t.pattern {
            PartView::Insn(op, _) => {
                let h = "("@ + ty.name() + " "@ + op;
                let n = t.args.len();
                let o0 = add_or_return(seq![], h);
                let o1 = add_or_return(unit, h);
                assert(o0 =~= seq![h]);
                assert(o1 =~= seq![seq![' '] + h]);
                assert(o1 =~= prefix_all(seq![' '], o0));
                lemma_distrib_args(t, n, o0, ty);
                lemma_distrib_args(t, n, o1, ty);
                let sa = sygus_args(t, n, unit, ty);
                lemma_expand_prefix(seq![' '], o0, sa);
                let y = sygus_args(t, n, o0, ty);
                lemma_nonempty_args(t, n, o0, ty);
                assert(sygus_args(t, n, o1, ty) == prefix_all(seq![' '], y));
                let py = prefix_all(seq![' '], y);
                assert forall|i: int| 0 <= i < y.len() implies add_or_return(py, ")"@)[i]
                    == prefix_all(seq![' '], add_or_return(y, ")"@))[i] by {
                    let w = y[i];
                    assert(seq![' '] + w + seq![' '] + ")"@ =~= seq![' '] + (w + seq![' '] + ")"@));
                }
                assert(add_or_return(py, ")"@) =~= prefix_all(seq![' '], add_or_return(y, ")"@)));
            },
            PartView::ExtendedVar(_) => {},
            _ => {
                assert(sygus_strings(t, unit, ty) =~= prefix_all(seq![' '], e));
            },
        }
    }
    let f1 = |x: Seq<char>| prefix_all(x, prefix_all(seq![' '], e));
    let f2 = |x: Seq<char>| e.map_values(|y: Seq<char>| x + seq![' '] + y);
    assert forall|x: Seq<char>| #[trigger] f1(x) == f2(x) by {
        assert forall|i: int| 0 <= i < e.len() implies #[trigger] f1(x)[i] == f2(x)[i] by {
            let w = e[i];
            assert(x + (seq![' '] + w) =~= x + seq![' '] + w);
        }
        assert(f1(x) =~= f2(x));
    }
    assert(input.map_values(f1) =~= input.map_values(f2));
}

/// A valid instruction node has at least one type and at least one
/// operand, and every one of its operands, in any position, is valid in
/// turn.
pub proof fn lemma_valid_insn_operands(t: SygusTree)
    requires
        valid_pattern(t),
        t.pattern is Insn,
    ensures
        t.pattern->Insn_1 matches Some(tys) && tys.len() > 0,
        t.args.len() > 0,
        forall|i: int| 0 <= i < t.args.len() ==> valid_pattern(#[trigger] t.args[i]),
{
    assert forall|i: int| 0 <= i < t.args.len() implies valid_pattern(#[trigger] t.args[i]) by {
        assert(valid_shape(t.args[i]));
        assert(all_insns_typed(t.args[i]));
    }
}

/// An instruction with a conjunction or a binding as any one of its
/// operands is not valid.
pub proof fn lemma_bad_operand_invalidates(t: SygusTree, i: int)
    requires
        t.pattern is Insn,
        0 <= i < t.args.len(),
        t.args[i].pattern is And || t.args[i].pattern is BindPattern,
    ensures
        !valid_pattern(t),
{
    if valid_pattern(t) {
        lemma_valid_insn_operands(t);
        assert(valid_pattern(t.args[i]));
    }
}

/// Conversely, an instruction node with at least one type, at least one
/// operand, and only valid operands is valid.
pub proof fn lemma_valid_from_operands(t: SygusTree)
    requires
        t.pattern->Insn_1 matches Some(tys) && tys.len() > 0,
        t.pattern is Insn,
        t.args.len() > 0,
        forall|i: int| 0 <= i < t.args.len() ==> valid_pattern(#[trigger] t.args[i]),
    ensures
        valid_pattern(t),
{
    assert forall|i: int| 0 <= i < t.args.len() implies valid_shape(#[trigger] t.args[i]) by {
        assert(valid_pattern(t.args[i]));
    }
    assert forall|i: int| 0 <= i < t.args.len() implies all_insns_typed(#[trigger] t.args[i]) by {
        assert(valid_pattern(t.args[i]));
    }
}

/// A conjunction or a binding is never valid on its own.
pub proof fn lemma_and_bind_invalid(t: SygusTree)
    requires
        t.pattern is And || t.pattern is BindPattern,
    ensures
        !valid_pattern(t),
{
}

/// For an instruction tree that can produce at every one of `types`, the
/// lines for the first `k` types never fail and are, type by type in order,
/// that type's `6^e` productions: `k * 6^e` lines in all, the lines for the
/// first `k - 1` types coming first.
pub proof fn lemma_type_lines_per_type(t: SygusTree, types: Seq<InsnType>, k: nat)
    requires
        t.pattern is Insn,
        k <= types.len(),
        forall|j: int| 0 <= j < types.len() ==> sygus_ready(t, #[trigger] types[j]),
    ensures
        !type_lines(t, types, k).1,
        type_lines(t, types, k).0.len() == k * pow6(ext_count(t)),
        k > 0 ==> type_lines(t, types, k).0 == type_lines(t, types, (k - 1) as nat).0 + wrap_lines(
            sygus_strings(t, seq![], types[k - 1]),
        ),
    decreases k,
{
    if k > 0 {
        lemma_type_lines_per_type(t, types, (k - 1) as nat);
        lemma_insn_production_count(t, types[k - 1]);
        assert(sygus_ready(t, types[k - 1]));
        assert((k - 1) * pow6(ext_count(t)) + pow6(ext_count(t)) == k * pow6(ext_count(t))) by (nonlinear_arith);
    }
}

} // verus!
