//! From ISLE rules to pattern trees, and from those to SyGuS productions.
use vstd::prelude::*;
use crate::insn_type::{all_types, all_types_seq, InsnType};
use crate::isle::{Def, Pattern};
use crate::opcode::{is_opcode_name, opcode_allowed, opcode_from_name, string_is, sygus_opcode_names};
use crate::sygus::{
    is_valid_pattern, sygus_ready, sygus_strings, strings_view, types_view, valid_pattern,
    PartView, Pattern2Sygus, PatternPart, SygusTree,
};

verus! {

/// The types that a type pattern admits, if it is one that tree building
/// knows: a `ty_int_ref_scalar_64_extract` or `fits_in_N` extractor, a
/// constant `I8` to `I64`, a wildcard (every type), or a conjunction whose
/// first part is one of these.
pub open spec fn type_spec(t: Pattern) -> Option<Seq<InsnType>>
    decreases t,
{
    match t {
        Pattern::Term { sym, .. } => {
            if sym@ == "ty_int_ref_scalar_64_extract"@ {
                Some(seq![InsnType::BV64])
            } else if sym@ == "fits_in_8"@ {
                Some(seq![InsnType::BV8])
            } else if sym@ == "fits_in_16"@ {
                Some(seq![InsnType::BV8, InsnType::BV16])
            } else if sym@ == "fits_in_32"@ {
                Some(seq![InsnType::BV8, InsnType::BV16, InsnType::BV32])
            } else if sym@ == "fits_in_64"@ {
                Some(all_types_seq())
            } else {
                None
            }
        },
        Pattern::ConstPrim { val } => {
            if val@ == "I8"@ {
                Some(seq![InsnType::BV8])
            } else if val@ == "I16"@ {
                Some(seq![InsnType::BV16])
            } else if val@ == "I32"@ {
                Some(seq![InsnType::BV32])
            } else if val@ == "I64"@ {
                Some(seq![InsnType::BV64])
            } else {
                None
            }
        },
        Pattern::And { subpats } => {
            if subpats@.len() > 0 {
                type_spec(subpats@[0])
            } else {
                None
            }
        },
        Pattern::Wildcard => Some(all_types_seq()),
        _ => None,
    }
}

/// The types that the type pattern `t` admits: see `type_spec`.
pub fn parse_type(t: &Pattern) -> (res: Option<Vec<InsnType>>)
    ensures
        types_view(res) == type_spec(*t),
    decreases t,
{
    match t {
        Pattern::Term { sym, .. } => {
            if string_is(sym, "ty_int_ref_scalar_64_extract") {
                Some(vec![InsnType::BV64])
            } else if string_is(sym, "fits_in_8") {
                Some(vec![InsnType::BV8])
            } else if string_is(sym, "fits_in_16") {
                Some(vec![InsnType::BV8, InsnType::BV16])
            } else if string_is(sym, "fits_in_32") {
                Some(vec![InsnType::BV8, InsnType::BV16, InsnType::BV32])
            } else if string_is(sym, "fits_in_64") {
                Some(vec![InsnType::BV8, InsnType::BV16, InsnType::BV32, InsnType::BV64])
            } else {
                None
            }
        },
        Pattern::ConstPrim { val } => {
            if string_is(val, "I8") {
                Some(vec![InsnType::BV8])
            } else if string_is(val, "I16") {
                Some(vec![InsnType::BV16])
            } else if string_is(val, "I32") {
                Some(vec![InsnType::BV32])
            } else if string_is(val, "I64") {
                Some(vec![InsnType::BV64])
            } else {
                None
            }
        },
        Pattern::And { subpats } => {
            if subpats.len() > 0 {
                parse_type(&subpats[0])
            } else {
                None
            }
        },
        Pattern::Wildcard => Some(all_types()),
        _ => None,
    }
}


/// The trees present in `s`, in order.
pub open spec fn somes(s: Seq<Option<SygusTree>>) -> Seq<SygusTree>
    decreases s.len(),
{
    if s.len() == 0 {
        seq![]
    } else {
        somes(s.drop_last()) + match s.last() {
            Some(x) => seq![x],
            None => seq![],
        }
    }
}

/// Whether the opcode name `sym` may appear in a production.
pub open spec fn allowed_name(sym: Seq<char>) -> bool {
    sygus_opcode_names().contains(sym)
}

/// The tree that each pattern of `ps[from..]` becomes, if any.
pub open spec fn tree_opts(ps: Seq<Pattern>, from: int) -> Seq<Option<SygusTree>>
    decreases ps, 0nat,
{
    Seq::new(
        if 0 <= from <= ps.len() {
            (ps.len() - from) as nat
        } else {
            0
        },
        |i: int|
            if 0 <= from + i < ps.len() && 0 <= from {
                tree_of(ps[from + i])
            } else {
                None
            },
    )
}

/// The trees built from `ps[from..]`, leaving out the patterns that give
/// none.
pub open spec fn trees_from(ps: Seq<Pattern>, from: int) -> Seq<SygusTree>
    decreases ps, 1nat,
{
    somes(tree_opts(ps, from))
}

/// The tree that a term `t` becomes, given whether its symbol names an opcode.
/// An allowed opcode becomes an instruction node typed by its first argument
/// (and, for `ishl`, the first argument as an operand when it is a
/// wildcard) with the rest of the arguments as operands; any other opcode
/// gives nothing. The two value extractors wrap their first argument; any
/// other term keeps all its arguments.
pub open spec fn term_tree_of(t: Pattern, names_opcode: bool) -> Option<SygusTree>
    decreases t, 1nat,
{
    match t {
        Pattern::Term { sym, args } => {
            if names_opcode {
                if !allowed_name(sym@) {
                    None
                } else {
                    let first: Seq<SygusTree> = if sym@ == "ishl"@ && args@.len() > 0 {
                        match tree_of(args@[0]) {
                            Some(a) => if a.pattern is Wildcard {
                                seq![a]
                            } else {
                                seq![]
                            },
                            None => seq![],
                        }
                    } else {
                        seq![]
                    };
                    Some(
                        SygusTree {
                            pattern: PartView::Insn(sym@, type_spec(args@[0])),
                            args: first + trees_from(args@, 1),
                        },
                    )
                }
            } else if sym@ == "imm12_from_value"@ {
                if args@.len() > 0 {
                    match tree_of(args@[0]) {
                        Some(v) => Some(
                            SygusTree { pattern: PartView::Imm12Var(Box::new(v.pattern)), args: seq![] },
                        ),
                        None => None,
                    }
                } else {
                    None
                }
            } else if sym@ == "extended_value_from_value"@ {
                if args@.len() > 0 {
                    match tree_of(args@[0]) {
                        Some(v) => Some(
                            SygusTree { pattern: PartView::ExtendedVar(Box::new(v.pattern)), args: seq![] },
                        ),
                        None => None,
                    }
                } else {
                    None
                }
            } else {
                Some(SygusTree { pattern: PartView::Other(sym@), args: trees_from(args@, 0) })
            }
        },
        _ => None,
    }
}

/// The tree that a pattern becomes, if any.
pub open spec fn tree_of(t: Pattern) -> Option<SygusTree>
    decreases t, 2nat,
{
    match t {
        Pattern::Term { sym, .. } => term_tree_of(t, is_opcode_name(sym@)),
        Pattern::Var { var } => Some(SygusTree { pattern: PartView::Var(var@), args: seq![] }),
        Pattern::Wildcard => Some(SygusTree { pattern: PartView::Wildcard, args: seq![] }),
        Pattern::And { subpats } => Some(
            SygusTree { pattern: PartView::And, args: trees_from(subpats@, 0) },
        ),
        Pattern::BindPattern { var, subpat } => Some(
            SygusTree {
                pattern: PartView::BindPattern(var@),
                args: match tree_of(*subpat) {
                    Some(a) => seq![a],
                    None => seq![],
                },
            },
        ),
        Pattern::ConstBool { val } => Some(SygusTree { pattern: PartView::BoolConst(val), args: seq![] }),
        Pattern::ConstInt { val } => Some(SygusTree { pattern: PartView::IntConst(val), args: seq![] }),
        Pattern::ConstPrim { val } => Some(SygusTree { pattern: PartView::PrimConst(val@), args: seq![] }),
        Pattern::MacroArg { .. } => None,
    }
}


/// Whether every pattern of `ps[from..]` becomes a tree without failing.
pub open spec fn all_ok_from(ps: Seq<Pattern>, from: int) -> bool
    decreases ps, 0nat,
{
    forall|i: int| 0 <= from <= i < ps.len() ==> term_ok(#[trigger] ps[i])
}

/// Whether building the tree of the term `t` goes through, given whether its symbol
/// names an opcode: an allowed opcode needs a first argument (its type), and
/// the arguments that are visited must go through in turn.
pub open spec fn term_node_ok(t: Pattern, names_opcode: bool) -> bool
    decreases t, 1nat,
{
    match t {
        Pattern::Term { sym, args } => {
            if names_opcode {
                if allowed_name(sym@) {
                    &&& args@.len() > 0
                    &&& sym@ == "ishl"@ ==> term_ok(args@[0])
                    &&& all_ok_from(args@, 1)
                } else {
                    true
                }
            } else if sym@ == "imm12_from_value"@ || sym@ == "extended_value_from_value"@ {
                args@.len() > 0 ==> term_ok(args@[0])
            } else {
                all_ok_from(args@, 0)
            }
        },
        _ => true,
    }
}

/// Whether building the tree of `t` goes through: no allowed opcode in it is applied
/// to no arguments at all.
pub open spec fn term_ok(t: Pattern) -> bool
    decreases t, 2nat,
{
    match t {
        Pattern::Term { sym, .. } => term_node_ok(t, is_opcode_name(sym@)),
        Pattern::And { subpats } => all_ok_from(subpats@, 0),
        Pattern::BindPattern { subpat, .. } => term_ok(*subpat),
        _ => true,
    }
}

/// The value of an optional tree.
pub open spec fn tree_opt_view(o: Option<Pattern2Sygus>) -> Option<SygusTree> {
    match o {
        Some(p) => Some(p@),
        None => None,
    }
}

/// The values of a list of boxed trees.
pub open spec fn boxes_view(v: Seq<Box<Pattern2Sygus>>) -> Seq<SygusTree> {
    v.map_values(|b: Box<Pattern2Sygus>| (*b)@)
}

proof fn lemma_tree_of_parts(p: Pattern2Sygus)
    ensures
        p@ == (SygusTree { pattern: p.pattern@, args: boxes_view(p.args@) }),
{
    assert(p@.args =~= boxes_view(p.args@));
}

fn make_tree(pattern: PatternPart, args: Vec<Box<Pattern2Sygus>>) -> (p: Pattern2Sygus)
    ensures
        p@ == (SygusTree { pattern: pattern@, args: boxes_view(args@) }),
        p.pattern == pattern,
        p.args == args,
{
    let p = Pattern2Sygus { pattern, args };
    proof { lemma_tree_of_parts(p); }
    p
}

/// Builds the trees of the patterns `ps[from..]` in order, leaving out
/// those that give none.
fn build_trees_from(ps: &Vec<Pattern>, from: usize) -> (out: Vec<Box<Pattern2Sygus>>)
    requires
        all_ok_from(ps@, from as int),
    ensures
        boxes_view(out@) == trees_from(ps@, from as int),
    decreases ps@, 0nat,
{
    let ghost opts = tree_opts(ps@, from as int);
    let mut out: Vec<Box<Pattern2Sygus>> = Vec::new();
    if from > ps.len() {
        assert(opts.len() == 0);
        return out;
    }
    let mut i: usize = from;
    while i < ps.len()
        invariant
            from <= i <= ps.len(),
            all_ok_from(ps@, from as int),
            opts == tree_opts(ps@, from as int),
            opts.len() == ps@.len() - from,
            boxes_view(out@) == somes(opts.take(i - from)),
        decreases ps.len() - i,
    {
        assert(term_ok(ps@[i as int]));
        let r = handle_term(&ps[i]);
        let ghost before = boxes_view(out@);
        assert(opts.take(i - from + 1).drop_last() =~= opts.take(i - from));
        assert(opts.take(i - from + 1).last() == tree_of(ps@[i as int]));
        match r {
            Some(x) => {
                out.push(Box::new(x));
                assert(boxes_view(out@) =~= before + seq![x@]);
            },
            None => {
                assert(boxes_view(out@) =~= before + seq![]);
            },
        }
        i = i + 1;
    }
    assert(opts.take(ps@.len() - from) =~= opts);
    out
}

/// Builds the tree of the term `t`, given what looking its symbol up as an opcode
/// gave: `opcode` holds the opcode's name when the symbol names one.
pub fn handle_opcode_term(t: &Pattern, opcode: Option<String>) -> (res: Option<Pattern2Sygus>)
    requires
        t is Term,
        opcode matches Some(n) ==> n@ == t->sym@,
        term_node_ok(*t, opcode is Some),
    ensures
        tree_opt_view(res) == term_tree_of(*t, opcode is Some),
    decreases t, 1nat,
{
    match t {
        Pattern::Term { sym, args } => {
            match opcode {
                Some(op) => {
                    if !opcode_allowed(&op) {
                        return None;
                    }
                    let ty = parse_type(&args[0]);
                    let mut kids: Vec<Box<Pattern2Sygus>> = Vec::new();
                    let ghost first: Seq<SygusTree> = if sym@ == "ishl"@ && args@.len() > 0 {
                        match tree_of(args@[0]) {
                            Some(a) => if a.pattern is Wildcard {
                                seq![a]
                            } else {
                                seq![]
                            },
                            None => seq![],
                        }
                    } else {
                        seq![]
                    };
                    if string_is(sym, "ishl") {
                        let r = handle_term(&args[0]);
                        match r {
                            Some(arg) => {
                                match arg.pattern {
                                    PatternPart::Wildcard => {
                                        proof { lemma_tree_of_parts(arg); }
                                        kids.push(Box::new(arg));
                                    },
                                    _ => {},
                                }
                            },
                            None => {},
                        }
                    }
                    assert(boxes_view(kids@) =~= first);
                    let mut rest = build_trees_from(args, 1);
                    kids.append(&mut rest);
                    assert(boxes_view(kids@) =~= first + trees_from(args@, 1));
                    Some(make_tree(PatternPart::Insn(op, ty), kids))
                },
                None => {
                    if string_is(sym, "imm12_from_value") {
                        if args.len() == 0 {
                            return None;
                        }
                        match handle_term(&args[0]) {
                            Some(var) => {
                                let p = make_tree(PatternPart::Imm12Var(Box::new(var.pattern)), Vec::new());
                                assert(boxes_view(p.args@) =~= seq![]);
                                Some(p)
                            },
                            None => None,
                        }
                    } else if string_is(sym, "extended_value_from_value") {
                        if args.len() == 0 {
                            return None;
                        }
                        match handle_term(&args[0]) {
                            Some(var) => {
                                let p = make_tree(PatternPart::ExtendedVar(Box::new(var.pattern)), Vec::new());
                                assert(boxes_view(p.args@) =~= seq![]);
                                Some(p)
                            },
                            None => None,
                        }
                    } else {
                        let kids = build_trees_from(args, 0);
                        Some(make_tree(PatternPart::Other(sym.clone()), kids))
                    }
                },
            }
        },
        _ => None,
    }
}

/// Builds the pattern tree of an ISLE pattern, or nothing for a pattern
/// that the grammar does not cover: see `tree_of`.
pub fn handle_term(t: &Pattern) -> (res: Option<Pattern2Sygus>)
    requires
        term_ok(*t),
    ensures
        tree_opt_view(res) == tree_of(*t),
    decreases t, 2nat,
{
    match t {
        Pattern::Term { sym, .. } => {
            let op = opcode_from_name(sym.as_str());
            handle_opcode_term(t, op)
        },
        Pattern::Var { var } => {
            let p = make_tree(PatternPart::Var(var.clone()), Vec::new());
            assert(boxes_view(p.args@) =~= seq![]);
            Some(p)
        },
        Pattern::Wildcard => {
            let p = make_tree(PatternPart::Wildcard, Vec::new());
            assert(boxes_view(p.args@) =~= seq![]);
            Some(p)
        },
        Pattern::And { subpats } => {
            let kids = build_trees_from(subpats, 0);
            Some(make_tree(PatternPart::And, kids))
        },
        Pattern::BindPattern { var, subpat } => {
            let mut kids: Vec<Box<Pattern2Sygus>> = Vec::new();
            match handle_term(subpat) {
                Some(arg) => {
                    kids.push(Box::new(arg));
                },
                None => {},
            }
            let p = make_tree(PatternPart::BindPattern(var.clone()), kids);
            assert(boxes_view(p.args@) =~= match tree_of(**subpat) {
                Some(a) => seq![a],
                None => seq![],
            });
            Some(p)
        },
        Pattern::ConstBool { val } => {
            let p = make_tree(PatternPart::BoolConst(*val), Vec::new());
            assert(boxes_view(p.args@) =~= seq![]);
            Some(p)
        },
        Pattern::ConstInt { val } => {
            let p = make_tree(PatternPart::IntConst(*val), Vec::new());
            assert(boxes_view(p.args@) =~= seq![]);
            Some(p)
        },
        Pattern::ConstPrim { val } => {
            let p = make_tree(PatternPart::PrimConst(val.clone()), Vec::new());
            assert(boxes_view(p.args@) =~= seq![]);
            Some(p)
        },
        Pattern::MacroArg { .. } => None,
    }
}


fn all_are_ok_from(ps: &Vec<Pattern>, from: usize) -> (b: bool)
    ensures
        b == all_ok_from(ps@, from as int),
    decreases ps@, 0nat,
{
    let mut i: usize = from;
    while i < ps.len()
        invariant
            from <= i,
            forall|k: int| from <= k < i && k < ps@.len() ==> term_ok(#[trigger] ps@[k]),
        decreases ps.len() - i,
    {
        if !term_is_ok(&ps[i]) {
            return false;
        }
        i = i + 1;
    }
    true
}

/// Whether building the tree of the term `t` goes through, given whether its symbol
/// names an opcode: see `term_node_ok`.
pub fn term_node_is_ok(t: &Pattern, names_opcode: bool) -> (b: bool)
    ensures
        b == term_node_ok(*t, names_opcode),
    decreases t, 1nat,
{
    match t {
        Pattern::Term { sym, args } => {
            if names_opcode {
                if opcode_allowed(sym) {
                    if args.len() == 0 {
                        return false;
                    }
                    if string_is(sym, "ishl") && !term_is_ok(&args[0]) {
                        return false;
                    }
                    all_are_ok_from(args, 1)
                } else {
                    true
                }
            } else if string_is(sym, "imm12_from_value") || string_is(sym, "extended_value_from_value") {
                args.len() == 0 || term_is_ok(&args[0])
            } else {
                all_are_ok_from(args, 0)
            }
        },
        _ => true,
    }
}

/// Whether building the tree of `t` goes through: see `term_ok`.
pub fn term_is_ok(t: &Pattern) -> (b: bool)
    ensures
        b == term_ok(*t),
    decreases t, 2nat,
{
    match t {
        Pattern::Term { sym, .. } => {
            let op = opcode_from_name(sym.as_str());
            term_node_is_ok(t, op.is_some())
        },
        Pattern::And { subpats } => all_are_ok_from(subpats, 0),
        Pattern::BindPattern { subpat, .. } => term_is_ok(subpat),
        _ => true,
    }
}

/// Whether `p` can produce strings for `ty`: see `sygus_ready`.
pub fn is_sygus_ready(p: &Pattern2Sygus, ty: &InsnType) -> (b: bool)
    ensures
        b == sygus_ready(p@, *ty),
    decreases p,
{
    match &p.pattern {
        PatternPart::Insn(_, types) => {
            match types {
                None => false,
                Some(tys) => {
                    let mut found = false;
                    let mut j: usize = 0;
                    while j < tys.len()
                        invariant
                            0 <= j <= tys.len(),
                            found == exists|k: int| 0 <= k < j && tys@[k] == *ty,
                        decreases tys.len() - j,
                    {
                        if tys[j] == *ty {
                            found = true;
                        }
                        j = j + 1;
                    }
                    if !found {
                        return false;
                    }
                    assert(sygus_ready(p@, *ty) == (forall|k: int| 0 <= k < p@.args.len() ==> sygus_ready(#[trigger] p@.args[k], *ty)));
                    let mut i: usize = 0;
                    while i < p.args.len()
                        invariant
                            0 <= i <= p.args.len(),
                            p@.args.len() == p.args@.len(),
                            forall|k: int| 0 <= k < p.args@.len() ==> p@.args[k] == (*p.args@[k])@,
                            forall|k: int| 0 <= k < i ==> sygus_ready(#[trigger] p@.args[k], *ty),
                            sygus_ready(p@, *ty) == (forall|k: int| 0 <= k < p@.args.len() ==> sygus_ready(#[trigger] p@.args[k], *ty)),
                        decreases p.args.len() - i,
                    {
                        if !is_sygus_ready(&*p.args[i], ty) {
                            assert(!sygus_ready(p@.args[i as int], *ty));
                            return false;
                        }
                        i = i + 1;
                    }
                    true
                },
            }
        },
        PatternPart::Imm12Var(_) => ty.bitwidth_of() >= 12,
        _ => true,
    }
}

/// Each production string in parentheses, as one line of output.
pub open spec fn wrap_lines(s: Seq<Seq<char>>) -> Seq<Seq<char>> {
    s.map_values(|x: Seq<char>| "("@ + x + ")"@)
}

/// The lines for the first `k` of `types`, and whether producing them
/// failed (after which nothing more comes).
pub open spec fn type_lines(p: SygusTree, types: Seq<InsnType>, k: nat) -> (Seq<Seq<char>>, bool)
    decreases k,
{
    if k == 0 || k > types.len() {
        (seq![], false)
    } else {
        let prev = type_lines(p, types, (k - 1) as nat);
        if prev.1 {
            prev
        } else if !sygus_ready(p, types[k - 1]) {
            (prev.0, true)
        } else {
            (prev.0 + wrap_lines(sygus_strings(p, seq![], types[k - 1])), false)
        }
    }
}

/// The lines that a rule with left-hand side `pattern` gives, and whether
/// building its tree fails. Only `lower` rules give lines: their first
/// argument becomes a tree, and a valid instruction tree gives its strings for each of
/// its types in turn.
pub open spec fn rule_lines(pattern: Pattern) -> (Seq<Seq<char>>, bool) {
    match pattern {
        Pattern::Term { sym, args } => {
            if sym@ != "lower"@ {
                (seq![], false)
            } else if args@.len() == 0 {
                (seq![], true)
            } else if !term_ok(args@[0]) {
                (seq![], true)
            } else {
                match tree_of(args@[0]) {
                    Some(p) => if valid_pattern(p) {
                        match p.pattern {
                            PartView::Insn(_, Some(types)) => type_lines(p, types, types.len()),
                            _ => (seq![], false),
                        }
                    } else {
                        (seq![], false)
                    },
                    None => (seq![], false),
                }
            }
        },
        _ => (seq![], false),
    }
}

/// The lines that one definition gives, and whether it fails.
pub open spec fn def_lines(d: Def) -> (Seq<Seq<char>>, bool) {
    match d {
        Def::Rule { pattern } => rule_lines(pattern),
        Def::Other => (seq![], false),
    }
}

/// The lines that the first `k` definitions give, and whether one of them
/// failed (after which nothing more comes).
pub open spec fn run_defs(defs: Seq<Def>, k: nat) -> (Seq<Seq<char>>, bool)
    decreases k,
{
    if k == 0 || k > defs.len() {
        (seq![], false)
    } else {
        let prev = run_defs(defs, (k - 1) as nat);
        if prev.1 {
            prev
        } else {
            let d = def_lines(defs[k - 1]);
            (prev.0 + d.0, d.1)
        }
    }
}

/// The output for a list of definitions: the lines, in order, and
/// whether it stopped on a pattern it cannot handle.
pub struct SygusRun {
    pub lines: Vec<String>,
    pub failed: bool,
}

fn push_lines(lines: &mut Vec<String>, strs: Vec<String>)
    ensures
        strings_view(*final(lines)) == strings_view(*old(lines)) + wrap_lines(strings_view(strs)),
{
    let ghost start = strings_view(*lines);
    let mut i: usize = 0;
    while i < strs.len()
        invariant
            0 <= i <= strs.len(),
            strings_view(*lines) == start + wrap_lines(strings_view(strs).take(i as int)),
        decreases strs.len() - i,
    {
        let line = String::from_str("(").concat(strs[i].as_str()).concat(")");
        let ghost before = strings_view(*lines);
        lines.push(line);
        assert(strings_view(*lines) =~= before.push(line@));
        assert(wrap_lines(strings_view(strs).take(i + 1)) =~= wrap_lines(
            strings_view(strs).take(i as int),
        ).push(line@));
        i = i + 1;
    }
    assert(strings_view(strs).take(strs.len() as int) =~= strings_view(strs));
}

fn rule_output(pattern: &Pattern, lines: &mut Vec<String>) -> (failed: bool)
    ensures
        strings_view(*final(lines)) == strings_view(*old(lines)) + rule_lines(*pattern).0,
        failed == rule_lines(*pattern).1,
{
    let ghost start = strings_view(*lines);
    match pattern {
        Pattern::Term { sym, args } => {
            if !string_is(sym, "lower") {
                assert(strings_view(*lines) =~= start + seq![]);
                return false;
            }
            if args.len() == 0 {
                assert(strings_view(*lines) =~= start + seq![]);
                return true;
            }
            if !term_is_ok(&args[0]) {
                assert(strings_view(*lines) =~= start + seq![]);
                return true;
            }
            let p = match handle_term(&args[0]) {
                Some(p) => p,
                None => {
                    assert(strings_view(*lines) =~= start + seq![]);
                    return false;
                },
            };
            if !is_valid_pattern(&p) {
                assert(strings_view(*lines) =~= start + seq![]);
                return false;
            }
            match &p.pattern {
                PatternPart::Insn(_, Some(types)) => {
                    let ghost tys = types@;
                    assert(p@.pattern == PartView::Insn(p@.pattern->Insn_0, Some(tys)));
                    assert(rule_lines(*pattern) == type_lines(p@, tys, tys.len()));
                    let mut j: usize = 0;
                    while j < types.len()
                        invariant
                            0 <= j <= types.len(),
                            tys == types@,
                            rule_lines(*pattern) == type_lines(p@, tys, tys.len()),
                            start == strings_view(*old(lines)),
                            !type_lines(p@, tys, j as nat).1,
                            strings_view(*lines) == start + type_lines(p@, tys, j as nat).0,
                        decreases types.len() - j,
                    {
                        let ty = types[j];
                        if !is_sygus_ready(&p, &ty) {
                            assert(type_lines(p@, tys, (j + 1) as nat) == (type_lines(p@, tys, j as nat).0, true));
                            assert(type_lines(p@, tys, types.len() as nat) == type_lines(p@, tys, (j + 1) as nat)) by {
                                lemma_type_lines_stop(p@, tys, (j + 1) as nat, types.len() as nat);
                            }
                            return true;
                        }
                        let empty: Vec<String> = Vec::new();
                        assert(strings_view(empty) =~= seq![]);
                        let strs = p.as_sygus_pattern(empty, &ty);
                        push_lines(lines, strs);
                        j = j + 1;
                    }
                    false
                },
                _ => {
                    assert(strings_view(*lines) =~= start + seq![]);
                    false
                },
            }
        },
        _ => {
            assert(strings_view(*lines) =~= start + seq![]);
            false
        },
    }
}

proof fn lemma_type_lines_stop(p: SygusTree, types: Seq<InsnType>, j: nat, k: nat)
    requires
        0 < j <= k <= types.len(),
        type_lines(p, types, j).1,
    ensures
        type_lines(p, types, k) == type_lines(p, types, j),
    decreases k - j,
{
    if j < k {
        lemma_type_lines_stop(p, types, j, (k - 1) as nat);
    }
}

proof fn lemma_run_defs_stop(defs: Seq<Def>, j: nat, k: nat)
    requires
        0 < j <= k <= defs.len(),
        run_defs(defs, j).1,
    ensures
        run_defs(defs, k) == run_defs(defs, j),
    decreases k - j,
{
    if j < k {
        lemma_run_defs_stop(defs, j, (k - 1) as nat);
    }
}

/// Turns every `lower` rule among `defs` into SyGuS productions, one line
/// each, stopping where a rule's pattern cannot be handled: see
/// `run_defs`.
pub fn pattern2sygus(defs: Vec<Def>) -> (run: SygusRun)
    ensures
        (strings_view(run.lines), run.failed) == run_defs(defs@, defs@.len()),
{
    let mut lines: Vec<String> = Vec::new();
    assert(strings_view(lines) =~= seq![]);
    let mut i: usize = 0;
    while i < defs.len()
        invariant
            0 <= i <= defs.len(),
            !run_defs(defs@, i as nat).1,
            strings_view(lines) == run_defs(defs@, i as nat).0,
        decreases defs.len() - i,
    {
        let failed = match &defs[i] {
            Def::Rule { pattern } => rule_output(pattern, &mut lines),
            Def::Other => {
                assert(strings_view(lines) =~= strings_view(lines) + seq![]);
                false
            },
        };
        if failed {
            proof {
                lemma_run_defs_stop(defs@, (i + 1) as nat, defs@.len());
            }
            return SygusRun { lines, failed: true };
        }
        i = i + 1;
    }
    SygusRun { lines, failed: false }
}

} // verus!
