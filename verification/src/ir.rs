//! The parts of a Cranelift function that pattern extraction reads.
use vstd::prelude::*;

verus! {

/// An integer comparison condition.
#[derive(Debug, Clone, Copy, PartialEq, Eq, Structural)]
pub enum IntCC {
    Equal,
    NotEqual,
    SignedLessThan,
    SignedGreaterThanOrEqual,
    SignedGreaterThan,
    SignedLessThanOrEqual,
    UnsignedLessThan,
    UnsignedGreaterThanOrEqual,
    UnsignedGreaterThan,
    UnsignedLessThanOrEqual,
}

impl IntCC {
    /// The condition's short name, as Cranelift prints it.
    pub open spec fn name(self) -> Seq<char> {
        match self {
            IntCC::Equal => "eq"@,
            IntCC::NotEqual => "ne"@,
            IntCC::SignedGreaterThan => "sgt"@,
            IntCC::SignedGreaterThanOrEqual => "sge"@,
            IntCC::SignedLessThan => "slt"@,
            IntCC::SignedLessThanOrEqual => "sle"@,
            IntCC::UnsignedGreaterThan => "ugt"@,
            IntCC::UnsignedGreaterThanOrEqual => "uge"@,
            IntCC::UnsignedLessThan => "ult"@,
            IntCC::UnsignedLessThanOrEqual => "ule"@,
        }
    }

    /// The condition's short name: `eq`, `ne`, `slt`, and so on.
    pub fn to_static_str(&self) -> (s: String)
        ensures
            s@ == self.name(),
    {
        match self {
            IntCC::Equal => String::from_str("eq"),
            IntCC::NotEqual => String::from_str("ne"),
            IntCC::SignedGreaterThan => String::from_str("sgt"),
            IntCC::SignedGreaterThanOrEqual => String::from_str("sge"),
            IntCC::SignedLessThan => String::from_str("slt"),
            IntCC::SignedLessThanOrEqual => String::from_str("sle"),
            IntCC::UnsignedGreaterThan => String::from_str("ugt"),
            IntCC::UnsignedGreaterThanOrEqual => String::from_str("uge"),
            IntCC::UnsignedLessThan => String::from_str("ult"),
            IntCC::UnsignedLessThanOrEqual => String::from_str("ule"),
        }
    }
}

/// The instruction formats that carry a comparison condition; every other
/// format is `Other`.
pub enum InstructionData {
    IntCompare { cond: IntCC },
    IntCompareImm { cond: IntCC },
    Other,
}

/// The condition of an instruction's format, if it has one.
pub open spec fn cond_of(data: InstructionData) -> Option<IntCC> {
    match data {
        InstructionData::IntCompare { cond } => Some(cond),
        InstructionData::IntCompareImm { cond } => Some(cond),
        InstructionData::Other => None,
    }
}

/// The comparison condition of an instruction, when its format has one.
pub fn get_maybe_cmp_code(inst: &InstructionData) -> (res: Option<IntCC>)
    ensures
        res == cond_of(*inst),
{
    match inst {
        InstructionData::IntCompare { cond } => Some(*cond),
        InstructionData::IntCompareImm { cond } => Some(*cond),
        InstructionData::Other => None,
    }
}

/// Where a value comes from: a result of an instruction (by index, and the
/// result's position), a block parameter, or an alias of other values.
pub enum ValueDef {
    Result(usize, usize),
    Param(usize, usize),
    Union(usize, usize),
}

/// An instruction: its opcode's name, its format, its argument values and
/// its result values (all by index).
pub struct Inst {
    pub opcode: String,
    pub data: InstructionData,
    pub args: Vec<usize>,
    pub results: Vec<usize>,
}

/// A value: the name of its type and where it comes from.
pub struct Value {
    pub ty: String,
    pub def: ValueDef,
}

/// A function body: its blocks in layout order, each the indices of its
/// instructions in layout order, with the instructions and values that the
/// indices refer to.
pub struct Function {
    pub blocks: Vec<Vec<usize>>,
    pub insts: Vec<Inst>,
    pub values: Vec<Value>,
}

impl Function {
    /// Every index refers to an instruction or value that exists.
    pub open spec fn indices_valid(&self) -> bool {
        &&& forall|j: int, k: int|
            0 <= j < self.insts@.len() && 0 <= k < self.insts@[j].args@.len()
                ==> #[trigger] self.insts@[j].args@[k] < self.values@.len()
        &&& forall|j: int, k: int|
            0 <= j < self.insts@.len() && 0 <= k < self.insts@[j].results@.len()
                ==> #[trigger] self.insts@[j].results@[k] < self.values@.len()
        &&& forall|v: int|
            0 <= v < self.values@.len() ==> match #[trigger] self.values@[v].def {
                ValueDef::Result(i, _) => i < self.insts@.len(),
                _ => true,
            }
        &&& forall|b: int, k: int|
            0 <= b < self.blocks@.len() && 0 <= k < self.blocks@[b]@.len()
                ==> #[trigger] self.blocks@[b]@[k] < self.insts@.len()
    }

    /// Whether every index refers to an instruction or value that exists:
    /// see `indices_valid`.
    pub fn check_indices(&self) -> (ok: bool)
        ensures
            ok == self.indices_valid(),
    {
        let nv = self.values.len();
        let ni = self.insts.len();
        let mut j: usize = 0;
        while j < ni
            invariant
                0 <= j <= ni,
                ni == self.insts@.len(),
                nv == self.values@.len(),
                forall|a: int, k: int|
                    0 <= a < j && 0 <= k < self.insts@[a].args@.len() ==> #[trigger] self.insts@[a].args@[k] < nv,
                forall|a: int, k: int|
                    0 <= a < j && 0 <= k < self.insts@[a].results@.len() ==> #[trigger] self.insts@[a].results@[k] < nv,
            decreases ni - j,
        {
            let inst = &self.insts[j];
            let mut k: usize = 0;
            while k < inst.args.len()
                invariant
                    0 <= k <= inst.args.len(),
                    j < ni,
                    ni == self.insts@.len(),
                    nv == self.values@.len(),
                    *inst == self.insts@[j as int],
                    forall|m: int| 0 <= m < k ==> #[trigger] inst.args@[m] < nv,
                decreases inst.args.len() - k,
            {
                if inst.args[k] >= nv {
                    assert(self.insts@[j as int].args@[k as int] >= nv);
                    return false;
                }
                k = k + 1;
            }
            let mut k: usize = 0;
            while k < inst.results.len()
                invariant
                    0 <= k <= inst.results.len(),
                    j < ni,
                    ni == self.insts@.len(),
                    nv == self.values@.len(),
                    *inst == self.insts@[j as int],
                    forall|m: int| 0 <= m < k ==> #[trigger] inst.results@[m] < nv,
                decreases inst.results.len() - k,
            {
                if inst.results[k] >= nv {
                    assert(self.insts@[j as int].results@[k as int] >= nv);
                    return false;
                }
                k = k + 1;
            }
            proof {
                assert forall|a: int, k: int|
                    0 <= a < j + 1 && 0 <= k < self.insts@[a].args@.len() implies #[trigger] self.insts@[a].args@[k] < nv by {
                    if a == j {
                        assert(self.insts@[a].args@[k] == inst.args@[k]);
                    }
                }
                assert forall|a: int, k: int|
                    0 <= a < j + 1 && 0 <= k < self.insts@[a].results@.len() implies #[trigger] self.insts@[a].results@[k] < nv by {
                    if a == j {
                        assert(self.insts@[a].results@[k] == inst.results@[k]);
                    }
                }
            }
            j = j + 1;
        }
        let mut v: usize = 0;
        while v < nv
            invariant
                0 <= v <= nv,
                ni == self.insts@.len(),
                nv == self.values@.len(),
                forall|w: int|
                    0 <= w < v ==> match #[trigger] self.values@[w].def {
                        ValueDef::Result(i, _) => i < ni,
                        _ => true,
                    },
            decreases nv - v,
        {
            match &self.values[v].def {
                ValueDef::Result(i, _) => {
                    if *i >= ni {
                        return false;
                    }
                },
                _ => {},
            }
            v = v + 1;
        }
        let mut b: usize = 0;
        while b < self.blocks.len()
            invariant
                0 <= b <= self.blocks.len(),
                ni == self.insts@.len(),
                forall|c: int, k: int|
                    0 <= c < b && 0 <= k < self.blocks@[c]@.len() ==> #[trigger] self.blocks@[c]@[k] < ni,
            decreases self.blocks.len() - b,
        {
            let block = &self.blocks[b];
            let mut k: usize = 0;
            while k < block.len()
                invariant
                    0 <= k <= block.len(),
                    b < self.blocks@.len(),
                    ni == self.insts@.len(),
                    *block == self.blocks@[b as int],
                    forall|m: int| 0 <= m < k ==> #[trigger] block@[m] < ni,
                decreases block.len() - k,
            {
                if block[k] >= ni {
                    assert(self.blocks@[b as int]@[k as int] >= ni);
                    return false;
                }
                k = k + 1;
            }
            proof {
                assert forall|c: int, k: int|
                    0 <= c < b + 1 && 0 <= k < self.blocks@[c]@.len() implies #[trigger] self.blocks@[c]@[k] < ni by {
                    if c == b {
                        assert(self.blocks@[c]@[k] == block@[k]);
                    }
                }
            }
            b = b + 1;
        }
        true
    }

    /// The comparison condition of instruction `j`, if its format has one.
    pub open spec fn cond_at(&self, j: usize) -> Option<IntCC> {
        cond_of(self.insts@[j as int].data)
    }

    /// The comparison condition of instruction `j`, if its format has one.
    pub fn inst_cond(&self, j: usize) -> (c: Option<IntCC>)
        requires
            j < self.insts.len(),
        ensures
            c == self.cond_at(j),
    {
        get_maybe_cmp_code(&self.insts[j].data)
    }
}

} // verus!
