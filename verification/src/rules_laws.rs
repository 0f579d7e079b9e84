//! What tree building makes of opcode terms, and which types a type
//! pattern admits, for every input.
use vstd::prelude::*;
use crate::insn_type::InsnType;
use crate::isle::Pattern;
use crate::opcode::{is_opcode_name, sygus_opcode_names};
use crate::rules::{term_tree_of, tree_of, type_spec};
use crate::sygus::PartView;

verus! {

/// The opcodes that a production may contain: the integer comparison,
/// minimum and maximum, bit selection, arithmetic, bitwise, rotation, shift,
/// bit counting and extension opcodes.
pub open spec fn production_opcodes() -> Seq<Seq<char>> {
    seq![
        "icmp"@, "smin"@, "umin"@, "smax"@, "umax"@, "bitselect"@, "iadd"@, "isub"@, "ineg"@,
        "iabs"@, "imul"@, "udiv"@, "sdiv"@, "urem"@, "srem"@, "band"@, "bor"@, "bxor"@, "bnot"@,
        "rotl"@, "rotr"@, "ishl"@, "ushr"@, "sshr"@, "clz"@, "cls"@, "ctz"@, "popcnt"@,
        "uextend"@, "sextend"@,
    ]
}

proof fn lemma_production_opcodes_are_allowed()
    ensures
        production_opcodes() == sygus_opcode_names(),
{
    assert(production_opcodes() =~= sygus_opcode_names());
}

/// A term that names one of the production opcodes, applied to a type
/// pattern and operands, becomes an instruction node for that opcode, typed
/// by the types that its first argument admits.
pub proof fn lemma_production_opcode_term(t: Pattern, k: int)
    requires
        0 <= k < production_opcodes().len(),
        t matches Pattern::Term { sym, args } && sym@ == production_opcodes()[k] && is_opcode_name(sym@)
            && args@.len() > 0,
    ensures
        tree_of(t) matches Some(tr) && tr.pattern == PartView::Insn(production_opcodes()[k], type_spec(t->args@[0])),
{
    lemma_production_opcodes_are_allowed();
    assert(sygus_opcode_names()[k] == t->sym@);
    assert(tree_of(t) == term_tree_of(t, true));
}

/// A term that names an opcode outside the production opcodes gives no
/// tree at all.
pub proof fn lemma_other_opcode_term(t: Pattern)
    requires
        t matches Pattern::Term { sym, .. } && is_opcode_name(sym@) && !production_opcodes().contains(sym@),
    ensures
        tree_of(t) is None,
{
    lemma_production_opcodes_are_allowed();
    assert(tree_of(t) == term_tree_of(t, true));
}

/// A term whose symbol names no opcode never becomes an instruction node.
pub proof fn lemma_non_opcode_term(t: Pattern)
    requires
        t matches Pattern::Term { sym, .. } && !is_opcode_name(sym@),
    ensures
        tree_of(t) matches Some(tr) ==> !(tr.pattern is Insn),
{
    assert(tree_of(t) == term_tree_of(t, false));
}

/// Whether `s` lists types from narrowest to widest, each once.
pub open spec fn narrowest_first(s: Seq<InsnType>) -> bool {
    forall|i: int, j: int| 0 <= i < j < s.len() ==> #[trigger] s[i].width() < #[trigger] s[j].width()
}

/// Whether `s` holds exactly the types of width at most `n`, narrowest
/// first.
pub open spec fn exactly_up_to(s: Seq<InsnType>, n: nat) -> bool {
    &&& narrowest_first(s)
    &&& forall|ty: InsnType| s.contains(ty) <==> ty.width() <= n
}

proof fn lemma_up_to_8()
    ensures
        exactly_up_to(seq![InsnType::BV8], 8),
{
    let s = seq![InsnType::BV8];
    assert forall|ty: InsnType| s.contains(ty) <==> ty.width() <= 8 by {
        if ty.width() <= 8 {
            assert(s[0] == ty);
        }
    }
}

proof fn lemma_up_to_16()
    ensures
        exactly_up_to(seq![InsnType::BV8, InsnType::BV16], 16),
{
    let s = seq![InsnType::BV8, InsnType::BV16];
    assert forall|ty: InsnType| s.contains(ty) <==> ty.width() <= 16 by {
        if s.contains(ty) {
            let i = choose|i: int| 0 <= i < s.len() && s[i] == ty;
            assert(i == 0 || i == 1);
        }
        match ty {
            InsnType::BV8 => assert(s[0] == ty),
            InsnType::BV16 => assert(s[1] == ty),
            _ => {},
        }
    }
}

proof fn lemma_up_to_32()
    ensures
        exactly_up_to(seq![InsnType::BV8, InsnType::BV16, InsnType::BV32], 32),
{
    let s = seq![InsnType::BV8, InsnType::BV16, InsnType::BV32];
    assert forall|ty: InsnType| s.contains(ty) <==> ty.width() <= 32 by {
        if s.contains(ty) {
            let i = choose|i: int| 0 <= i < s.len() && s[i] == ty;
            assert(i == 0 || i == 1 || i == 2);
        }
        match ty {
            InsnType::BV8 => assert(s[0] == ty),
            InsnType::BV16 => assert(s[1] == ty),
            InsnType::BV32 => assert(s[2] == ty),
            _ => {},
        }
    }
}

proof fn lemma_up_to_64(s: Seq<InsnType>)
    requires
        s == seq![InsnType::BV8, InsnType::BV16, InsnType::BV32, InsnType::BV64],
    ensures
        exactly_up_to(s, 64),
{
    assert forall|ty: InsnType| s.contains(ty) <==> ty.width() <= 64 by {
        match ty {
            InsnType::BV8 => assert(s[0] == ty),
            InsnType::BV16 => assert(s[1] == ty),
            InsnType::BV32 => assert(s[2] == ty),
            InsnType::BV64 => assert(s[3] == ty),
        }
    }
}

/// `fits_in_N` admits exactly the types whose width is at most `N`,
/// narrowest first.
pub proof fn lemma_fits_in_types(t: Pattern, n: nat)
    requires
        t matches Pattern::Term { sym, .. } && ((sym@ == "fits_in_8"@ && n == 8) || (sym@ == "fits_in_16"@
            && n == 16) || (sym@ == "fits_in_32"@ && n == 32) || (sym@ == "fits_in_64"@ && n == 64)),
    ensures
        type_spec(t) matches Some(s) && exactly_up_to(s, n),
{
    reveal_strlit("ty_int_ref_scalar_64_extract");
    reveal_strlit("fits_in_8");
    reveal_strlit("fits_in_16");
    reveal_strlit("fits_in_32");
    reveal_strlit("fits_in_64");
    assert("ty_int_ref_scalar_64_extract"@.len() == 28);
    assert("fits_in_8"@.len() == 9);
    assert("fits_in_16"@.len() == 10 && "fits_in_16"@[8] == '1');
    assert("fits_in_32"@.len() == 10 && "fits_in_32"@[8] == '3');
    assert("fits_in_64"@.len() == 10 && "fits_in_64"@[8] == '6');
    lemma_up_to_8();
    lemma_up_to_16();
    lemma_up_to_32();
    if n == 64 {
        lemma_up_to_64(type_spec(t)->Some_0);
    }
}

/// A wildcard type pattern admits every type, narrowest first.
pub proof fn lemma_wildcard_types()
    ensures
        type_spec(Pattern::Wildcard) matches Some(s) && exactly_up_to(s, 64),
{
    lemma_up_to_64(type_spec(Pattern::Wildcard)->Some_0);
}

/// A constant type `IN` admits the one type of width `N`, as does the
/// 64-bit scalar extractor for width 64.
pub proof fn lemma_single_type(t: Pattern, n: nat)
    requires
        (t matches Pattern::ConstPrim { val } && ((val@ == "I8"@ && n == 8) || (val@ == "I16"@ && n == 16) || (
        val@ == "I32"@ && n == 32) || (val@ == "I64"@ && n == 64))) || (t matches Pattern::Term { sym, .. }
            && sym@ == "ty_int_ref_scalar_64_extract"@ && n == 64),
    ensures
        type_spec(t) matches Some(s) && s.len() == 1 && s[0].width() == n,
{
    reveal_strlit("I8");
    reveal_strlit("I16");
    reveal_strlit("I32");
    reveal_strlit("I64");
    reveal_strlit("ty_int_ref_scalar_64_extract");
    assert("I8"@.len() == 2);
    assert("I16"@.len() == 3 && "I16"@[1] == '1');
    assert("I32"@.len() == 3 && "I32"@[1] == '3');
    assert("I64"@.len() == 3 && "I64"@[1] == '6');
}

} // verus!
