//! Cranelift opcode names and the opcodes that productions may use.
use vstd::prelude::*;

verus! {

/// Whether cranelift_codegen's `Opcode::from_str` accepts `name`.
pub uninterp spec fn is_opcode_name(name: Seq<char>) -> bool;

/// Looks `name` up with cranelift_codegen's `<Opcode as FromStr>::from_str`
/// and, when it names an opcode, renders that opcode back to its name with
/// the opcode's `Display` impl.
///
/// The contract claims two things of the outside code. Success depends on the
/// name alone (the lookup probes a constant table). And a success gives back
/// the very name that was looked up: the table matches a key only when it is
/// equal to the entry's `opcode_name`, and `Display` writes `opcode_name`.
#[verifier::external_body]
pub(crate) fn opcode_from_name(name: &str) -> (res: Option<String>)
    ensures
        res is Some <==> is_opcode_name(name@),
        res matches Some(s) ==> s@ == name@,
{
    match <cranelift_codegen::ir::Opcode as std::str::FromStr>::from_str(name) {
        Ok(op) => Some(op.to_string()),
        Err(_) => None,
    }
}

/// Whether `s` has the same characters as the literal `lit`.
pub fn string_is(s: &String, lit: &str) -> (b: bool)
    ensures
        b == (s@ == lit@),
{
    let t = String::from_str(lit);
    s.eq(&t)
}

/// The opcodes that a SyGuS production may contain, by name.
pub open spec fn sygus_opcode_names() -> Seq<Seq<char>> {
    seq![
        "icmp"@, "smin"@, "umin"@, "smax"@, "umax"@, "bitselect"@, "iadd"@, "isub"@,
        "ineg"@, "iabs"@, "imul"@, "udiv"@, "sdiv"@, "urem"@, "srem"@, "band"@, "bor"@,
        "bxor"@, "bnot"@, "rotl"@, "rotr"@, "ishl"@, "ushr"@, "sshr"@, "clz"@, "cls"@,
        "ctz"@, "popcnt"@, "uextend"@, "sextend"@,
    ]
}

/// Whether the opcode named `op` may appear in a SyGuS production.
pub fn opcode_allowed(op: &String) -> (b: bool)
    ensures
        b == sygus_opcode_names().contains(op@),
{
    let names: [&str; 30] = [
        "icmp", "smin", "umin", "smax", "umax", "bitselect", "iadd", "isub", "ineg", "iabs",
        "imul", "udiv", "sdiv", "urem", "srem", "band", "bor", "bxor", "bnot", "rotl", "rotr",
        "ishl", "ushr", "sshr", "clz", "cls", "ctz", "popcnt", "uextend", "sextend",
    ];
    let ghost table = names@.map_values(|s: &str| s@);
    assert(table =~= sygus_opcode_names());
    let mut i: usize = 0;
    while i < 30
        invariant
            0 <= i <= 30,
            table == names@.map_values(|s: &str| s@),
            table == sygus_opcode_names(),
            forall|k: int| 0 <= k < i ==> table[k] != op@,
        decreases 30 - i,
    {
        if string_is(op, names[i]) {
            assert(table[i as int] == op@);
            return true;
        }
        i = i + 1;
    }
    assert(!table.contains(op@));
    false
}

} // verus!
