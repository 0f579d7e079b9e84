use pattern_sygus::extractor::{
    opcode_allowed, pdfg_eq, PDFG,
};
use pattern_sygus::extractor;
use pattern_sygus::ir::{get_maybe_cmp_code, Function, Inst, InstructionData, IntCC, Value, ValueDef};

fn s(x: &str) -> String {
    x.to_string()
}

fn extract_patterns_of_function(f: &Function) -> Vec<PDFG> {
    extractor::extract_patterns_of_function(f).unwrap()
}

fn extract_patterns_of_block(f: &Function, b: usize) -> Vec<PDFG> {
    extractor::extract_patterns_of_block(f, b).unwrap()
}

fn inst(op: &str, args: Vec<usize>, results: Vec<usize>) -> Inst {
    Inst { opcode: s(op), data: InstructionData::Other, args, results }
}

fn result(ty: &str, inst: usize) -> Value {
    Value { ty: s(ty), def: ValueDef::Result(inst, 0) }
}

fn param(ty: &str) -> Value {
    Value { ty: s(ty), def: ValueDef::Param(0, 0) }
}

/// v0 = param; i0: v1 = iconst; i1: v2 = iadd v1 v1; i2: return v2
fn add_of_consts() -> Function {
    Function {
        blocks: vec![vec![0, 1, 2]],
        insts: vec![inst("iconst", vec![], vec![1]), inst("iadd", vec![1, 1], vec![2]), inst("return", vec![2], vec![])],
        values: vec![param("i32"), result("i32", 0), result("i32", 1)],
    }
}

#[test]
fn extractor_opcodes() {
    assert!(opcode_allowed(&s("iconst")));
    assert!(opcode_allowed(&s("imul_imm")));
    assert!(opcode_allowed(&s("band_not")));
    assert!(!opcode_allowed(&s("return")));
    assert!(!opcode_allowed(&s("fadd")));
}

#[test]
fn compare_codes() {
    assert_eq!(get_maybe_cmp_code(&InstructionData::IntCompare { cond: IntCC::SignedLessThan }), Some(IntCC::SignedLessThan));
    assert_eq!(
        get_maybe_cmp_code(&InstructionData::IntCompareImm { cond: IntCC::UnsignedGreaterThanOrEqual }),
        Some(IntCC::UnsignedGreaterThanOrEqual)
    );
    assert_eq!(get_maybe_cmp_code(&InstructionData::Other), None);
    assert_eq!(IntCC::Equal.to_static_str(), "eq");
    assert_eq!(IntCC::UnsignedLessThanOrEqual.to_static_str(), "ule");
}

#[test]
fn single_block_pattern() {
    let f = add_of_consts();
    assert!(f.check_indices());
    let ps = extract_patterns_of_block(&f, 0);
    assert_eq!(ps.len(), 1);
    assert_eq!(ps[0].inst, 1);
    assert_eq!(ps[0].to_string(), "((i32 iadd  (i32 iconst ) (i32 iconst )))");
    assert_eq!(ps[0].fmt_mach(), "(i32 iadd  (i32 iconst ) (i32 iconst ))");
    assert_eq!(
        ps[0].debug_string(),
        "(\n(i32 iadd \n\t(i32 iconst \n\t\t)\n\t(i32 iconst \n\t\t)\n\t)\n)\n"
    );
}

#[test]
fn arguments_from_outside_are_types() {
    // i0: v1 = iadd v0 v0 with v0 a block parameter
    let f = Function {
        blocks: vec![vec![0]],
        insts: vec![inst("iadd", vec![0, 0], vec![1])],
        values: vec![param("i64"), result("i64", 0)],
    };
    let ps = extract_patterns_of_function(&f);
    assert_eq!(ps.len(), 1);
    assert_eq!(ps[0].to_string(), "((i64 iadd  (i64 value) (i64 value)))");
}

#[test]
fn disallowed_definitions_are_types() {
    // i0: v1 = fadd; i1: v2 = bnot v1
    let f = Function {
        blocks: vec![vec![0, 1]],
        insts: vec![inst("fadd", vec![], vec![1]), inst("bnot", vec![1], vec![2])],
        values: vec![param("i8"), result("f32", 0), result("i8", 1)],
    };
    let ps = extract_patterns_of_function(&f);
    assert_eq!(ps.len(), 1);
    assert_eq!(ps[0].fmt_mach(), "(i8 bnot  (f32 value))");
}

#[test]
fn compare_condition_printed() {
    let f = Function {
        blocks: vec![vec![0]],
        insts: vec![Inst {
            opcode: s("icmp"),
            data: InstructionData::IntCompare { cond: IntCC::NotEqual },
            args: vec![0, 0],
            results: vec![1],
        }],
        values: vec![param("i32"), result("i8", 0)],
    };
    let ps = extract_patterns_of_function(&f);
    assert_eq!(ps[0].fmt_mach(), "(i8 icmp ne (i32 value) (i32 value))");
}

/// A chain of `n` negations: i_k: v_{k+1} = ineg v_k, v0 a parameter.
fn chain(n: usize) -> Function {
    let mut insts = Vec::new();
    let mut values = vec![param("i16")];
    for k in 0..n {
        insts.push(inst("ineg", vec![k], vec![k + 1]));
        values.push(result("i16", k));
    }
    Function { blocks: vec![(0..n).collect()], insts, values }
}

fn depth(p: &PDFG) -> usize {
    p.args.iter().map(|a| match a { Ok(x) => 1 + depth(x), Err(_) => 0 }).max().unwrap_or(0)
}

#[test]
fn nesting_is_limited() {
    let f = chain(8);
    let ps = extract_patterns_of_function(&f);
    assert_eq!(ps.len(), 2);
    assert_eq!(ps[0].inst, 7);
    assert_eq!(depth(&ps[0]), 4);
    assert!(ps[0].indent_ok(0));
    assert!(!ps[0].indent_ok(usize::MAX - 3));
    assert_eq!(
        ps[0].fmt_mach(),
        "(i16 ineg  (i16 ineg  (i16 ineg  (i16 ineg  (i16 ineg  (i16 value))))))"
    );
    // the instruction at the cut-off was visited, so the scan goes on below it
    assert_eq!(ps[1].inst, 1);
    assert_eq!(ps[1].fmt_mach(), "(i16 ineg  (i16 ineg  (i16 value)))");
}

#[test]
fn siblings_share_the_nesting_budget() {
    // a `bor` of the same `iadd` five times: each operand that becomes a
    // pattern raises the nesting for the operands after it
    let f = Function {
        blocks: vec![vec![0, 1, 2, 3]],
        insts: vec![
            inst("iconst", vec![], vec![1]),
            inst("iconst", vec![], vec![2]),
            inst("iadd", vec![1, 2], vec![3]),
            inst("bor", vec![3, 3, 3, 3, 3], vec![4]),
        ],
        values: vec![param("i32"), result("i32", 0), result("i32", 1), result("i32", 2), result("i32", 3)],
    };
    let ps = extract_patterns_of_function(&f);
    assert_eq!(ps.len(), 1);
    assert_eq!(
        ps[0].fmt_mach(),
        "(i32 bor  (i32 iadd  (i32 iconst ) (i32 iconst )) (i32 iadd  (i32 iconst ) (i32 iconst )) (i32 iadd  (i32 iconst ) (i32 value)) (i32 iadd  (i32 value) (i32 value)) (i32 value))"
    );
}

#[test]
fn same_patterns_kept_once() {
    // two blocks with the same shape at different instructions
    let f = Function {
        blocks: vec![vec![0], vec![1], vec![2]],
        insts: vec![inst("ineg", vec![0], vec![1]), inst("ineg", vec![0], vec![2]), inst("bnot", vec![0], vec![3])],
        values: vec![param("i8"), result("i8", 0), result("i8", 1), result("i8", 2)],
    };
    let ps = extract_patterns_of_function(&f);
    assert_eq!(ps.len(), 2);
    assert_eq!(ps[0].inst, 0);
    assert_eq!(ps[1].fmt_mach(), "(i8 bnot  (i8 value))");
    let b1 = extract_patterns_of_block(&f, 1);
    assert!(pdfg_eq(&b1[0], &ps[0]));
    assert!(b1[0] == ps[0]);
    assert!(b1[0] != ps[1]);
    assert!(ps[0] == b1[0]);
    assert_ne!(b1[0].inst, ps[0].inst);
}

#[test]
fn index_validity() {
    assert!(add_of_consts().check_indices());
    let mut g = add_of_consts();
    g.insts[1].args = vec![9];
    assert!(!g.check_indices());
    let mut r = add_of_consts();
    r.insts[1].results = vec![9];
    assert!(!r.check_indices());
    let mut h = add_of_consts();
    h.blocks = vec![vec![5]];
    assert!(!h.check_indices());
    let mut k = add_of_consts();
    k.values[2] = result("i32", 7);
    assert!(!k.check_indices());
}

#[test]
fn root_without_one_result_fails() {
    let mut f = add_of_consts();
    f.insts[1].results = vec![2, 2];
    assert!(extractor::extract_patterns_of_block(&f, 0).is_none());
    assert!(extractor::extract_patterns_of_function(&f).is_none());
    // a root with no result at all fails too
    let mut g = add_of_consts();
    g.insts[1].results = vec![];
    assert!(extractor::extract_patterns_of_function(&g).is_none());
}

#[test]
fn only_roots_need_one_result() {
    // the `iconst` has two results but is met first as an operand, so it is
    // never a root
    let mut f = add_of_consts();
    f.insts[0].results = vec![1, 0];
    let ps = extract_patterns_of_function(&f);
    assert_eq!(ps.len(), 1);
    // a disallowed instruction may have any number of results
    let mut r = add_of_consts();
    r.insts[2].results = vec![];
    assert_eq!(extract_patterns_of_function(&r).len(), 1);
}

#[test]
fn failing_later_block_fails_whole_function() {
    let mut f = Function {
        blocks: vec![vec![0], vec![1]],
        insts: vec![inst("ineg", vec![0], vec![1]), inst("bnot", vec![0], vec![])],
        values: vec![param("i8"), result("i8", 0)],
    };
    assert_eq!(extractor::extract_patterns_of_block(&f, 0).unwrap().len(), 1);
    assert!(extractor::extract_patterns_of_block(&f, 1).is_none());
    assert!(extractor::extract_patterns_of_function(&f).is_none());
    f.insts[1].results = vec![1];
    assert_eq!(extractor::extract_patterns_of_function(&f).unwrap().len(), 2);
}

#[test]
fn empty_function_has_no_patterns() {
    let f = Function { blocks: vec![], insts: vec![], values: vec![] };
    assert!(extract_patterns_of_function(&f).is_empty());
}

fn node_count(p: &PDFG) -> usize {
    1 + p.args.iter().map(|a| match a { Ok(x) => node_count(x), Err(_) => 0 }).sum::<usize>()
}

fn args_match(f: &Function, p: &PDFG) -> bool {
    p.args.len() == f.insts[p.inst].args.len()
        && p.args.iter().all(|a| match a { Ok(x) => args_match(f, x), Err(_) => true })
}

#[test]
fn block_patterns_are_bounded() {
    // a full binary tree of `iadd`s five levels deep over constants
    let mut insts = vec![inst("iconst", vec![], vec![1])];
    let mut values = vec![param("i32"), result("i32", 0)];
    let mut top = 1;
    for _ in 0..5 {
        let i = insts.len();
        insts.push(inst("iadd", vec![top, top], vec![values.len()]));
        values.push(result("i32", i));
        top = values.len() - 1;
    }
    let n = insts.len();
    let f = Function { blocks: vec![(0..n).collect()], insts, values };
    assert!(f.check_indices());
    let ps = extract_patterns_of_block(&f, 0);
    assert!(!ps.is_empty());
    for p in &ps {
        assert!(node_count(p) <= 16);
        assert!(depth(p) <= 4);
        assert!(args_match(&f, p));
        assert!(opcode_allowed(&p.op));
    }
    assert_eq!(ps.len(), 1);
    assert_eq!(node_count(&ps[0]), 12);
}
