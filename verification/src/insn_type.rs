//! The bit-vector widths that SyGuS productions are generated for.
use vstd::prelude::*;
use crate::decimal::{decimal_seq, digit_char};

verus! {

/// A scalar integer type of one of the four widths that the grammar covers.
#[derive(Debug, Clone, Copy, PartialEq, Eq, Structural)]
pub enum InsnType {
    BV8,
    BV16,
    BV32,
    BV64,
}

impl InsnType {
    /// The width in bits.
    pub open spec fn width(self) -> nat {
        match self {
            InsnType::BV8 => 8,
            InsnType::BV16 => 16,
            InsnType::BV32 => 32,
            InsnType::BV64 => 64,
        }
    }

    /// How the type is printed in a production: `i8`, `i16`, `i32` or `i64`.
    pub open spec fn name(self) -> Seq<char> {
        match self {
            InsnType::BV8 => "i8"@,
            InsnType::BV16 => "i16"@,
            InsnType::BV32 => "i32"@,
            InsnType::BV64 => "i64"@,
        }
    }

    /// How the variant is printed by its `Debug` impl.
    pub open spec fn debug_name(self) -> Seq<char> {
        match self {
            InsnType::BV8 => "BV8"@,
            InsnType::BV16 => "BV16"@,
            InsnType::BV32 => "BV32"@,
            InsnType::BV64 => "BV64"@,
        }
    }

    /// The width of the type in bits.
    pub fn bitwidth_of(&self) -> (w: u32)
        ensures
            w == self.width(),
    {
        match self {
            InsnType::BV8 => 8,
            InsnType::BV16 => 16,
            InsnType::BV32 => 32,
            InsnType::BV64 => 64,
        }
    }

    /// The type's name as it appears in productions.
    pub fn to_string(&self) -> (s: String)
        ensures
            s@ == self.name(),
    {
        match self {
            InsnType::BV8 => String::from_str("i8"),
            InsnType::BV16 => String::from_str("i16"),
            InsnType::BV32 => String::from_str("i32"),
            InsnType::BV64 => String::from_str("i64"),
        }
    }

    /// The variant's name, as `{:?}` prints it.
    pub fn debug_string(&self) -> (s: String)
        ensures
            s@ == self.debug_name(),
    {
        match self {
            InsnType::BV8 => String::from_str("BV8"),
            InsnType::BV16 => String::from_str("BV16"),
            InsnType::BV32 => String::from_str("BV32"),
            InsnType::BV64 => String::from_str("BV64"),
        }
    }
}

/// Every type, narrowest first.
pub open spec fn all_types_seq() -> Seq<InsnType> {
    seq![InsnType::BV8, InsnType::BV16, InsnType::BV32, InsnType::BV64]
}

/// All four types, narrowest first.
pub fn all_types() -> (v: Vec<InsnType>)
    ensures
        v@ == all_types_seq(),
{
    vec![InsnType::BV8, InsnType::BV16, InsnType::BV32, InsnType::BV64]
}

/// A type's printed name is `i` followed by its width in decimal.
pub proof fn lemma_name_is_width(t: InsnType)
    ensures
        t.name() == seq!['i'] + decimal_seq(t.width()),
{
    reveal_strlit("i8");
    reveal_strlit("i16");
    reveal_strlit("i32");
    reveal_strlit("i64");
    assert(decimal_seq(1) == seq![digit_char(1)]);
    assert(decimal_seq(3) == seq![digit_char(3)]);
    assert(decimal_seq(6) == seq![digit_char(6)]);
    match t {
        InsnType::BV8 => {
            assert(t.name() =~= seq!['i'] + decimal_seq(8));
        },
        InsnType::BV16 => {
            assert(decimal_seq(16) == decimal_seq(1).push(digit_char(6)));
            assert(t.name() =~= seq!['i'] + decimal_seq(16));
        },
        InsnType::BV32 => {
            assert(decimal_seq(32) == decimal_seq(3).push(digit_char(2)));
            assert(t.name() =~= seq!['i'] + decimal_seq(32));
        },
        InsnType::BV64 => {
            assert(decimal_seq(64) == decimal_seq(6).push(digit_char(4)));
            assert(t.name() =~= seq!['i'] + decimal_seq(64));
        },
    }
}

/// `all_types` lists each type exactly once, in increasing width.
pub proof fn lemma_all_types_complete(t: InsnType)
    ensures
        all_types_seq().contains(t),
        all_types_seq().len() == 4,
        forall|i: int, j: int| 0 <= i < j < 4 ==> all_types_seq()[i].width() < all_types_seq()[j].width(),
{
    match t {
        InsnType::BV8 => assert(all_types_seq()[0] == t),
        InsnType::BV16 => assert(all_types_seq()[1] == t),
        InsnType::BV32 => assert(all_types_seq()[2] == t),
        InsnType::BV64 => assert(all_types_seq()[3] == t),
    }
}

} // verus!
