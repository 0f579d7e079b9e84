use pattern_sygus::insn_type::{all_types, InsnType};
use pattern_sygus::isle::{Def, Pattern};
use pattern_sygus::opcode::opcode_allowed;
use pattern_sygus::rules::{handle_opcode_term, handle_term, parse_type, pattern2sygus, term_is_ok};
use pattern_sygus::sygus::{add_or_return_string, is_valid_pattern, Pattern2Sygus, PatternPart};

fn s(x: &str) -> String {
    x.to_string()
}

fn term(sym: &str, args: Vec<Pattern>) -> Pattern {
    Pattern::Term { sym: s(sym), args }
}

fn var(name: &str) -> Pattern {
    Pattern::Var { var: s(name) }
}

fn lower(p: Pattern) -> Def {
    Def::Rule { pattern: term("lower", vec![p]) }
}

fn leaf(part: PatternPart) -> Pattern2Sygus {
    Pattern2Sygus { pattern: part, args: Vec::new() }
}

fn strs(v: &[&str]) -> Vec<String> {
    v.iter().map(|x| x.to_string()).collect()
}

#[test]
fn bitwidths_and_names() {
    assert_eq!(InsnType::BV8.bitwidth_of(), 8);
    assert_eq!(InsnType::BV16.bitwidth_of(), 16);
    assert_eq!(InsnType::BV32.bitwidth_of(), 32);
    assert_eq!(InsnType::BV64.bitwidth_of(), 64);
    assert_eq!(InsnType::BV8.to_string(), "i8");
    assert_eq!(InsnType::BV64.to_string(), "i64");
    assert_eq!(InsnType::BV16.debug_string(), "BV16");
}

#[test]
fn name_is_i_and_width() {
    for t in all_types() {
        assert_eq!(t.to_string(), format!("i{}", t.bitwidth_of()));
    }
}

#[test]
fn all_types_in_order() {
    assert_eq!(all_types(), vec![InsnType::BV8, InsnType::BV16, InsnType::BV32, InsnType::BV64]);
}

#[test]
fn allowed_opcodes() {
    assert!(opcode_allowed(&s("iadd")));
    assert!(opcode_allowed(&s("sextend")));
    assert!(!opcode_allowed(&s("iconst")));
    assert!(!opcode_allowed(&s("fadd")));
}

#[test]
fn add_or_return_on_empty_starts_list() {
    assert_eq!(add_or_return_string(Vec::new(), s("x")), strs(&["x"]));
}

#[test]
fn add_or_return_extends_each() {
    assert_eq!(add_or_return_string(strs(&["a", "b"]), s("x")), strs(&["a x", "b x"]));
}

#[test]
fn explode_gives_six_widenings() {
    let p = PatternPart::ExtendedVar(Box::new(PatternPart::Var(s("x"))));
    assert_eq!(
        p.explode_extended_var(),
        strs(&[
            "(i8 ((_ zero_extend 56) value))",
            "(i8 ((_ sign_extend 56) value))",
            "(i16 ((_ zero_extend 48) value))",
            "(i16 ((_ sign_extend 48) value))",
            "(i32 ((_ zero_extend 32) value))",
            "(i32 ((_ sign_extend 32) value))",
        ])
    );
}

#[test]
fn part_display() {
    assert_eq!(PatternPart::Var(s("x")).to_string(), "var_x");
    assert_eq!(PatternPart::Imm12Var(Box::new(PatternPart::Var(s("x")))).to_string(), "imm_12_var_x");
    assert_eq!(PatternPart::ExtendedVar(Box::new(PatternPart::Wildcard)).to_string(), "x_wildcard");
    assert_eq!(PatternPart::Wildcard.to_string(), "wildcard");
    assert_eq!(PatternPart::Other(s("foo")).to_string(), "foo");
    assert_eq!(PatternPart::And.to_string(), "and ");
    assert_eq!(PatternPart::BindPattern(s("y")).to_string(), "y = ");
    assert_eq!(PatternPart::BoolConst(true).to_string(), "btrue");
    assert_eq!(PatternPart::BoolConst(false).to_string(), "bfalse");
    assert_eq!(PatternPart::IntConst(-42).to_string(), "i-42");
    assert_eq!(PatternPart::IntConst(0).to_string(), "i0");
    assert_eq!(PatternPart::IntConst(i128::MIN).to_string(), format!("i{}", i128::MIN));
    assert_eq!(PatternPart::IntConst(i128::MAX).to_string(), format!("i{}", i128::MAX));
    assert_eq!(PatternPart::PrimConst(s("I8")).to_string(), "pI8");
    assert_eq!(
        PatternPart::Insn(s("iadd"), Some(vec![InsnType::BV8, InsnType::BV16])).to_string(),
        "iadd Some([BV8, BV16])"
    );
    assert_eq!(PatternPart::Insn(s("iadd"), Some(vec![])).to_string(), "iadd Some([])");
    assert_eq!(PatternPart::Insn(s("iadd"), None).to_string(), "iadd None");
}

#[test]
fn tree_display_indents() {
    let t = Pattern2Sygus {
        pattern: PatternPart::Insn(s("iadd"), Some(vec![InsnType::BV32])),
        args: vec![
            Box::new(leaf(PatternPart::Var(s("x")))),
            Box::new(Pattern2Sygus {
                pattern: PatternPart::Insn(s("ineg"), Some(vec![InsnType::BV32])),
                args: vec![Box::new(leaf(PatternPart::Wildcard))],
            }),
        ],
    };
    assert!(t.indent_ok(0));
    assert!(!t.indent_ok(usize::MAX - 1));
    assert_eq!(
        t.to_string(),
        "iadd Some([BV32])\n\tvar_x\n\tineg Some([BV32])\n\t\twildcard\n"
    );
    assert_eq!(t.fmt_with_indent(2), "iadd Some([BV32])\n\t\t\tvar_x\n\t\t\tineg Some([BV32])\n\t\t\t\twildcard\n");
}

#[test]
fn types_of_type_patterns() {
    assert_eq!(parse_type(&term("fits_in_16", vec![var("ty")])), Some(vec![InsnType::BV8, InsnType::BV16]));
    assert_eq!(parse_type(&term("ty_int_ref_scalar_64_extract", vec![])), Some(vec![InsnType::BV64]));
    assert_eq!(parse_type(&Pattern::ConstPrim { val: s("I32") }), Some(vec![InsnType::BV32]));
    assert_eq!(parse_type(&Pattern::ConstPrim { val: s("F32") }), None);
    assert_eq!(parse_type(&Pattern::Wildcard), Some(all_types()));
    assert_eq!(
        parse_type(&Pattern::And { subpats: vec![term("fits_in_8", vec![]), Pattern::Wildcard] }),
        Some(vec![InsnType::BV8])
    );
    assert_eq!(parse_type(&Pattern::And { subpats: vec![] }), None);
    assert_eq!(parse_type(&var("ty")), None);
    assert_eq!(parse_type(&term("foo", vec![])), None);
}

#[test]
fn sygus_of_simple_add() {
    let p = handle_term(&term("iadd", vec![term("fits_in_64", vec![var("ty")]), var("x"), var("y")])).unwrap();
    assert!(is_valid_pattern(&p));
    assert_eq!(
        p.as_sygus_pattern(Vec::new(), &InsnType::BV32),
        strs(&["(i32 iadd (i32 value) (i32 value) )"])
    );
}

#[test]
fn sygus_continues_input() {
    let p = leaf(PatternPart::Wildcard);
    assert_eq!(p.as_sygus_pattern(strs(&["a", "b"]), &InsnType::BV8), strs(&["a (i8 value)", "b (i8 value)"]));
}

#[test]
fn sygus_of_imm12() {
    let p = leaf(PatternPart::Imm12Var(Box::new(PatternPart::Var(s("x")))));
    assert_eq!(
        p.as_sygus_pattern(Vec::new(), &InsnType::BV64),
        strs(&["(i64 ((_ zero_extend 52) ((_ extract 11 0) value)))"])
    );
}

#[test]
fn sygus_extended_var_on_empty_input_gives_nothing() {
    let p = leaf(PatternPart::ExtendedVar(Box::new(PatternPart::Var(s("x")))));
    assert_eq!(p.as_sygus_pattern(Vec::new(), &InsnType::BV64), Vec::<String>::new());
}

#[test]
fn sygus_other_node_printed() {
    let p = leaf(PatternPart::IntConst(7));
    assert_eq!(p.as_sygus_pattern(strs(&["a"]), &InsnType::BV8), strs(&["a i7"]));
}

#[test]
fn opcode_terms_become_instructions() {
    let p = handle_term(&term("isub", vec![term("fits_in_32", vec![var("ty")]), var("a"), Pattern::Wildcard])).unwrap();
    match &p.pattern {
        PatternPart::Insn(op, types) => {
            assert_eq!(op, "isub");
            assert_eq!(types, &Some(vec![InsnType::BV8, InsnType::BV16, InsnType::BV32]));
        }
        _ => panic!("expected an instruction"),
    }
    assert_eq!(p.args.len(), 2);
}

#[test]
fn disallowed_opcode_gives_nothing() {
    assert!(handle_term(&term("fadd", vec![Pattern::Wildcard, var("x")])).is_none());
    assert!(handle_opcode_term(&term("fadd", vec![Pattern::Wildcard]), Some(s("fadd"))).is_none());
}

#[test]
fn non_opcode_term_is_other() {
    let p = handle_term(&term("foo", vec![var("x"), Pattern::MacroArg { index: 0 }])).unwrap();
    assert_eq!(p.pattern.to_string(), "foo");
    assert_eq!(p.args.len(), 1);
    let q = handle_opcode_term(&term("iadd", vec![var("x")]), None).unwrap();
    assert_eq!(q.pattern.to_string(), "iadd");
}

#[test]
fn ishl_keeps_wildcard_type_operand() {
    let p = handle_term(&term("ishl", vec![Pattern::Wildcard, var("x"), var("y")])).unwrap();
    assert_eq!(p.args.len(), 3);
    assert_eq!(p.args[0].pattern.to_string(), "wildcard");
    let q = handle_term(&term("ishl", vec![term("fits_in_64", vec![var("ty")]), var("x"), var("y")])).unwrap();
    assert_eq!(q.args.len(), 2);
}

#[test]
fn value_extractors_wrap_their_argument() {
    let p = handle_term(&term("imm12_from_value", vec![var("k")])).unwrap();
    assert_eq!(p.pattern.to_string(), "imm_12_var_k");
    let q = handle_term(&term("extended_value_from_value", vec![var("k")])).unwrap();
    assert_eq!(q.pattern.to_string(), "x_var_k");
    assert!(handle_term(&term("imm12_from_value", vec![])).is_none());
}

#[test]
fn other_patterns() {
    assert_eq!(handle_term(&Pattern::ConstBool { val: true }).unwrap().pattern.to_string(), "btrue");
    assert_eq!(handle_term(&Pattern::ConstInt { val: 5 }).unwrap().pattern.to_string(), "i5");
    assert_eq!(handle_term(&Pattern::ConstPrim { val: s("I8") }).unwrap().pattern.to_string(), "pI8");
    let b = handle_term(&Pattern::BindPattern { var: s("v"), subpat: Box::new(Pattern::Wildcard) }).unwrap();
    assert_eq!(b.pattern.to_string(), "v = ");
    assert_eq!(b.args.len(), 1);
    let a = handle_term(&Pattern::And { subpats: vec![var("a"), var("b")] }).unwrap();
    assert!(!is_valid_pattern(&a));
    assert!(handle_term(&Pattern::MacroArg { index: 1 }).is_none());
}

#[test]
fn validity() {
    let no_types = leaf(PatternPart::Insn(s("iadd"), None));
    assert!(!is_valid_pattern(&no_types));
    let no_args = leaf(PatternPart::Insn(s("iadd"), Some(vec![InsnType::BV8])));
    assert!(!is_valid_pattern(&no_args));
    let bad_child = Pattern2Sygus {
        pattern: PatternPart::Insn(s("iadd"), Some(vec![InsnType::BV8])),
        args: vec![Box::new(leaf(PatternPart::BindPattern(s("x"))))],
    };
    assert!(!is_valid_pattern(&bad_child));
    assert!(is_valid_pattern(&leaf(PatternPart::Var(s("x")))));
    let empty_types = Pattern2Sygus {
        pattern: PatternPart::Insn(s("iadd"), Some(vec![])),
        args: vec![Box::new(leaf(PatternPart::Var(s("x"))))],
    };
    assert!(!is_valid_pattern(&empty_types));
    let untyped_below_other = Pattern2Sygus {
        pattern: PatternPart::Insn(s("iadd"), Some(vec![InsnType::BV8])),
        args: vec![Box::new(Pattern2Sygus {
            pattern: PatternPart::Other(s("foo")),
            args: vec![Box::new(leaf(PatternPart::Insn(s("isub"), None)))],
        })],
    };
    assert!(!is_valid_pattern(&untyped_below_other));
    let untyped_in_wrapped = Pattern2Sygus {
        pattern: PatternPart::Insn(s("iadd"), Some(vec![InsnType::BV8])),
        args: vec![Box::new(leaf(PatternPart::Imm12Var(Box::new(PatternPart::Insn(s("isub"), None)))))],
    };
    assert!(!is_valid_pattern(&untyped_in_wrapped));
    let typed_below_other = Pattern2Sygus {
        pattern: PatternPart::Insn(s("iadd"), Some(vec![InsnType::BV8])),
        args: vec![Box::new(Pattern2Sygus {
            pattern: PatternPart::Other(s("foo")),
            args: vec![Box::new(leaf(PatternPart::Insn(s("isub"), Some(vec![InsnType::BV8]))))],
        })],
    };
    assert!(is_valid_pattern(&typed_below_other));
}

#[test]
fn untyped_sub_instruction_gives_no_lines() {
    let defs = vec![lower(term(
        "iadd",
        vec![term("fits_in_64", vec![var("ty")]), term("foo", vec![term("isub", vec![var("x"), var("y")])]), var("z")],
    ))];
    let run = pattern2sygus(defs);
    assert!(!run.failed);
    assert!(run.lines.is_empty());
}

#[test]
fn empty_opcode_term_cannot_be_handled() {
    assert!(!term_is_ok(&term("iadd", vec![])));
    assert!(term_is_ok(&term("fadd", vec![])));
    assert!(term_is_ok(&term("foo", vec![])));
}

#[test]
fn rules_to_lines() {
    let defs = vec![
        Def::Other,
        lower(term("iadd", vec![term("fits_in_16", vec![var("ty")]), var("x"), var("y")])),
        Def::Rule { pattern: term("simplify", vec![term("iadd", vec![Pattern::Wildcard, var("x"), var("y")])]) },
    ];
    let run = pattern2sygus(defs);
    assert!(!run.failed);
    assert_eq!(
        run.lines,
        strs(&[
            "((i8 iadd (i8 value) (i8 value) ))",
            "((i16 iadd (i16 value) (i16 value) ))",
        ])
    );
}

#[test]
fn extended_values_give_six_lines_each() {
    let defs = vec![lower(term(
        "iadd",
        vec![term("ty_int_ref_scalar_64_extract", vec![]), var("x"), term("extended_value_from_value", vec![var("y")])],
    ))];
    let run = pattern2sygus(defs);
    assert!(!run.failed);
    assert_eq!(run.lines.len(), 6);
    assert_eq!(run.lines[0], "((i64 iadd (i64 value) (i8 ((_ zero_extend 56) value)) ))");
    assert_eq!(run.lines[5], "((i64 iadd (i64 value) (i32 ((_ sign_extend 32) value)) ))");
}

#[test]
fn invalid_rules_give_no_lines() {
    let defs = vec![
        lower(var("x")),
        lower(term("iadd", vec![var("ty"), var("x")])),
        lower(term("iadd", vec![term("fits_in_8", vec![])])),
        lower(term("fadd", vec![term("fits_in_8", vec![]), var("x")])),
    ];
    let run = pattern2sygus(defs);
    assert!(!run.failed);
    assert!(run.lines.is_empty());
}

#[test]
fn nested_type_mismatch_stops() {
    let inner = term("isub", vec![term("fits_in_8", vec![var("ty")]), var("a"), var("b")]);
    let defs = vec![
        lower(term("iadd", vec![term("fits_in_16", vec![var("ty")]), inner, var("c")])),
        lower(term("ineg", vec![term("fits_in_8", vec![var("ty")]), var("x")])),
    ];
    let run = pattern2sygus(defs);
    assert!(run.failed);
    assert_eq!(run.lines, strs(&["((i8 iadd (i8 isub (i8 value) (i8 value) ) (i8 value) ))"]));
}

#[test]
fn narrow_imm12_stops() {
    let defs = vec![lower(term(
        "iadd",
        vec![term("fits_in_64", vec![var("ty")]), var("x"), term("imm12_from_value", vec![var("k")])],
    ))];
    let run = pattern2sygus(defs);
    assert!(run.failed);
    assert!(run.lines.is_empty());
}

#[test]
fn lower_without_arguments_stops() {
    let defs = vec![Def::Rule { pattern: term("lower", vec![]) }, lower(term("ineg", vec![Pattern::Wildcard, var("x")]))];
    let run = pattern2sygus(defs);
    assert!(run.failed);
    assert!(run.lines.is_empty());
}

#[test]
fn opcode_without_arguments_stops() {
    let defs = vec![lower(term("iadd", vec![]))];
    let run = pattern2sygus(defs);
    assert!(run.failed);
}

#[test]
fn every_line_parenthesized() {
    let defs = vec![lower(term("bnot", vec![Pattern::Wildcard, var("x")]))];
    let run = pattern2sygus(defs);
    assert_eq!(run.lines.len(), 4);
    for l in &run.lines {
        assert!(l.starts_with('(') && l.ends_with(')'));
    }
}

#[test]
fn inputs_are_kept_as_prefixes_in_order() {
    // an add with an extended operand: from no input it gives six strings;
    // from two inputs, each input followed by each of those six, in order
    let p = Pattern2Sygus {
        pattern: PatternPart::Insn(s("iadd"), Some(vec![InsnType::BV32])),
        args: vec![
            Box::new(leaf(PatternPart::ExtendedVar(Box::new(PatternPart::Var(s("x")))))),
            Box::new(leaf(PatternPart::Var(s("y")))),
        ],
    };
    let alone = p.as_sygus_pattern(Vec::new(), &InsnType::BV32);
    assert_eq!(alone.len(), 6);
    let both = p.as_sygus_pattern(strs(&["a", "b c"]), &InsnType::BV32);
    let mut expected = Vec::new();
    for x in ["a", "b c"] {
        for e in &alone {
            expected.push(format!("{} {}", x, e));
        }
    }
    assert_eq!(both, expected);
}
