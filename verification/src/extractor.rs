//! Small data-flow patterns extracted from the blocks of a function.
use vstd::prelude::*;
use crate::ir::{Function, IntCC, ValueDef};
use crate::opcode::string_is;
use crate::sygus::{tab_string, tabs};
use vstd::std_specs::cmp::PartialEqSpecImpl;

verus! {

/// A pattern: an instruction with its opcode, result type and comparison
/// condition, and for each argument either the pattern that computes it or,
/// when the pattern stops there, the argument's type.
pub struct PDFG {
    pub inst: usize,
    pub op: String,
    pub ty: String,
    pub cond: Option<IntCC>,
    pub args: Vec<Result<PDFG, String>>,
}

/// The mathematical value of a `PDFG`.
pub struct PdfgView {
    pub inst: usize,
    pub op: Seq<char>,
    pub ty: Seq<char>,
    pub cond: Option<IntCC>,
    pub args: Seq<Result<PdfgView, Seq<char>>>,
}

/// The value of a pattern.
pub open spec fn pdfg_view(p: PDFG) -> PdfgView
    decreases p,
{
    PdfgView {
        inst: p.inst,
        op: p.op@,
        ty: p.ty@,
        cond: p.cond,
        args: Seq::new(
            p.args@.len(),
            |i: int|
                if 0 <= i < p.args@.len() {
                    match p.args@[i] {
                        Ok(c) => Ok(pdfg_view(c)),
                        Err(t) => Err(t@),
                    }
                } else {
                    Err(seq![])
                },
        ),
    }
}

impl View for PDFG {
    type V = PdfgView;

    open spec fn view(&self) -> PdfgView {
        pdfg_view(*self)
    }
}

/// The value of one argument of a pattern.
pub open spec fn arg_view(a: Result<PDFG, String>) -> Result<PdfgView, Seq<char>> {
    match a {
        Ok(c) => Ok(c@),
        Err(t) => Err(t@),
    }
}

/// The longest chain of nested patterns below the root.
pub const MAX_PATTERN_SIZE: u32 = 4;

/// The opcodes that a pattern may hold.
pub open spec fn extract_opcode_names() -> Seq<Seq<char>> {
    seq![
        "icmp"@, "smin"@, "umin"@, "smax"@, "umax"@, "iconst"@, "bitselect"@, "iadd"@, "isub"@,
        "ineg"@, "iabs"@, "imul_imm"@, "imul"@, "udiv"@, "sdiv"@, "urem"@, "srem"@, "band"@,
        "bor"@, "bxor"@, "bnot"@, "band_not"@, "rotl"@, "rotr"@, "ishl"@, "ushr"@, "sshr"@,
        "clz"@, "cls"@, "ctz"@, "popcnt"@, "uextend"@, "sextend"@,
    ]
}

/// Whether the opcode named `op` may be part of a pattern.
pub fn opcode_allowed(op: &String) -> (b: bool)
    ensures
        b == extract_opcode_names().contains(op@),
{
    let names: [&str; 33] = [
        "icmp", "smin", "umin", "smax", "umax", "iconst", "bitselect", "iadd", "isub", "ineg",
        "iabs", "imul_imm", "imul", "udiv", "sdiv", "urem", "srem", "band", "bor", "bxor", "bnot",
        "band_not", "rotl", "rotr", "ishl", "ushr", "sshr", "clz", "cls", "ctz", "popcnt",
        "uextend", "sextend",
    ];
    let ghost table = names@.map_values(|s: &str| s@);
    assert(table =~= extract_opcode_names());
    let mut i: usize = 0;
    while i < 33
        invariant
            0 <= i <= 33,
            table == names@.map_values(|s: &str| s@),
            table == extract_opcode_names(),
            forall|k: int| 0 <= k < i ==> table[k] != op@,
        decreases 33 - i,
    {
        if string_is(op, names[i]) {
            assert(table[i as int] == op@);
            return true;
        }
        i = i + 1;
    }
    assert(!table.contains(op@));
    false
}


/// Whether the opcode named `op` may be part of a pattern.
pub open spec fn extract_allowed(op: Seq<char>) -> bool {
    extract_opcode_names().contains(op)
}

/// How far `size` is from the limit on nesting.
pub open spec fn size_measure(size: nat) -> nat {
    if size < MAX_PATTERN_SIZE {
        (MAX_PATTERN_SIZE - size) as nat
    } else {
        0
    }
}

/// The number of arguments of instruction `inst`.
pub open spec fn num_args(f: Function, inst: usize) -> nat {
    if inst < f.insts@.len() {
        f.insts@[inst as int].args@.len()
    } else {
        0
    }
}

/// What following the arguments `i..` of instruction `inst` gives, at
/// nesting `size` and with `visited` the instructions seen so far: for each
/// argument, the pattern of the allowed instruction that defines it while
/// the nesting stays below the limit (each such pattern raising the nesting
/// for the arguments after it), or else the argument's type; and the
/// instructions seen afterwards (every defining instruction met counts as
/// seen).
pub open spec fn arg_nodes(f: Function, inst: usize, i: nat, size: nat, visited: Seq<usize>) -> (
    Seq<Result<PdfgView, Seq<char>>>,
    Seq<usize>,
)
    decreases size_measure(size), num_args(f, inst) - i,
{
    if i >= num_args(f, inst) {
        (seq![], visited)
    } else {
        let v = f.insts@[inst as int].args@[i as int];
        let ty = f.values@[v as int].ty@;
        match f.values@[v as int].def {
            ValueDef::Result(j, _) => {
                let vis1 = visited.push(j);
                if !extract_allowed(f.insts@[j as int].opcode@) || size >= MAX_PATTERN_SIZE {
                    let rest = arg_nodes(f, inst, i + 1, size, vis1);
                    (seq![Err(ty)] + rest.0, rest.1)
                } else {
                    let kids = arg_nodes(f, j, 0, size + 1, vis1);
                    let node = PdfgView {
                        inst: j,
                        op: f.insts@[j as int].opcode@,
                        ty: ty,
                        cond: f.cond_at(j),
                        args: kids.0,
                    };
                    let rest = arg_nodes(f, inst, i + 1, size + 1, kids.1);
                    (seq![Ok(node)] + rest.0, rest.1)
                }
            },
            _ => {
                let rest = arg_nodes(f, inst, i + 1, size, visited);
                (seq![Err(ty)] + rest.0, rest.1)
            },
        }
    }
}

/// The values of a list of pattern arguments.
pub open spec fn args_view(v: Seq<Result<PDFG, String>>) -> Seq<Result<PdfgView, Seq<char>>> {
    v.map_values(|a: Result<PDFG, String>| arg_view(a))
}

proof fn lemma_pdfg_parts(p: PDFG)
    ensures
        p@ == (PdfgView { inst: p.inst, op: p.op@, ty: p.ty@, cond: p.cond, args: args_view(p.args@) }),
{
    assert(p@.args =~= args_view(p.args@));
}

/// Follows the arguments of `pdfg`'s instruction, appending to its
/// arguments what `arg_nodes` says, from nesting `size`.
fn extract_pattern_from_insts(pdfg: &mut PDFG, f: &Function, visited: &mut Vec<usize>, size: u32)
    requires
        f.indices_valid(),
        old(pdfg).inst < f.insts@.len(),
    ensures
        final(pdfg).inst == old(pdfg).inst,
        final(pdfg).op == old(pdfg).op,
        final(pdfg).ty == old(pdfg).ty,
        final(pdfg).cond == old(pdfg).cond,
        args_view(final(pdfg).args@) == args_view(old(pdfg).args@) + arg_nodes(*f, old(pdfg).inst, 0, size as nat, old(visited)@).0,
        final(visited)@ == arg_nodes(*f, old(pdfg).inst, 0, size as nat, old(visited)@).1,
    decreases size_measure(size as nat),
{
    let mut cur: u32 = size;
    let inst = pdfg.inst;
    let ghost full = arg_nodes(*f, inst, 0, size as nat, visited@);
    let ghost old_args = args_view(pdfg.args@);
    let nargs = f.insts[inst].args.len();
    let mut i: usize = 0;
    while i < nargs
        invariant
            f.indices_valid(),
            inst < f.insts@.len(),
            pdfg.inst == inst,
            pdfg.op == old(pdfg).op,
            pdfg.ty == old(pdfg).ty,
            pdfg.cond == old(pdfg).cond,
            nargs == f.insts@[inst as int].args@.len(),
            num_args(*f, inst) == nargs,
            0 <= i <= nargs,
            cur >= size,
            full.0 == args_view(pdfg.args@).skip(old_args.len() as int) + arg_nodes(*f, inst, i as nat, cur as nat, visited@).0,
            full.1 == arg_nodes(*f, inst, i as nat, cur as nat, visited@).1,
            args_view(pdfg.args@).take(old_args.len() as int) == old_args,
            old_args.len() <= args_view(pdfg.args@).len(),
        decreases nargs - i,
    {
        let arg = f.insts[inst].args[i];
        let ty = f.values[arg].ty.clone();
        let ghost before = args_view(pdfg.args@);
        match &f.values[arg].def {
            ValueDef::Result(j, _) => {
                let j = *j;
                visited.push(j);
                let opcode = f.insts[j].opcode.clone();
                if !opcode_allowed(&opcode) || cur >= MAX_PATTERN_SIZE {
                    pdfg.args.push(Err(ty));
                    assert(args_view(pdfg.args@) =~= before.push(Err(ty@)));
                } else {
                    let mut arg_pdfg = PDFG {
                        inst: j,
                        op: opcode,
                        ty: ty,
                        cond: f.inst_cond(j),
                        args: Vec::new(),
                    };
                    assert(args_view(arg_pdfg.args@) =~= seq![]);
                    cur = cur + 1;
                    extract_pattern_from_insts(&mut arg_pdfg, f, visited, cur);
                    proof { lemma_pdfg_parts(arg_pdfg); }
                    let ghost node = arg_pdfg@;
                    pdfg.args.push(Ok(arg_pdfg));
                    assert(args_view(pdfg.args@) =~= before.push(Ok(node)));
                }
            },
            _ => {
                pdfg.args.push(Err(ty));
                assert(args_view(pdfg.args@) =~= before.push(Err(ty@)));
            },
        }
        assert(args_view(pdfg.args@).take(old_args.len() as int) =~= old_args);
        assert(args_view(pdfg.args@).skip(old_args.len() as int) =~= before.skip(old_args.len() as int).push(args_view(pdfg.args@).last()));
        i = i + 1;
    }
    assert(args_view(pdfg.args@) =~= old_args + args_view(pdfg.args@).skip(old_args.len() as int));
}


/// What one step of scanning a block does with instruction `inst`, given the
/// patterns found so far and the instructions seen: a seen instruction is
/// skipped; one whose opcode may not be in a pattern is marked seen; any
/// other becomes the root of a new pattern, typed by its result.
pub open spec fn block_step(f: Function, inst: usize, st: (Seq<PdfgView>, Seq<usize>)) -> (
    Seq<PdfgView>,
    Seq<usize>,
) {
    if st.1.contains(inst) {
        st
    } else if !extract_allowed(f.insts@[inst as int].opcode@) {
        (st.0, st.1.push(inst))
    } else {
        let result = f.insts@[inst as int].results@[0];
        let kids = arg_nodes(f, inst, 0, 0, st.1.push(inst));
        (
            st.0.push(
                PdfgView {
                    inst: inst,
                    op: f.insts@[inst as int].opcode@,
                    ty: f.values@[result as int].ty@,
                    cond: f.cond_at(inst),
                    args: kids.0,
                },
            ),
            kids.1,
        )
    }
}

/// The state after scanning the first `k` instructions of `order`.
pub open spec fn block_state(f: Function, order: Seq<usize>, k: nat) -> (Seq<PdfgView>, Seq<usize>)
    decreases k,
{
    if k == 0 || k > order.len() {
        (seq![], seq![])
    } else {
        block_step(f, order[k - 1], block_state(f, order, (k - 1) as nat))
    }
}

/// The patterns of a block: its instructions scanned from last to first.
pub open spec fn block_patterns(f: Function, block: Seq<usize>) -> Seq<PdfgView> {
    block_state(f, block.reverse(), block.len()).0
}

/// Whether the scan meets `order[m]` as the root of a new pattern (not yet
/// seen, with an opcode that may start one) while that instruction does not
/// have exactly one result.
pub open spec fn root_fails_at(f: Function, order: Seq<usize>, m: int) -> bool {
    let inst = order[m];
    &&& !block_state(f, order, m as nat).1.contains(inst)
    &&& extract_allowed(f.insts@[inst as int].opcode@)
    &&& f.insts@[inst as int].results@.len() != 1
}

/// Whether one of the first `k` steps of the scan of `order` fails.
pub open spec fn scan_fails_upto(f: Function, order: Seq<usize>, k: nat) -> bool {
    exists|m: int| 0 <= m < k && m < order.len() && #[trigger] root_fails_at(f, order, m)
}

/// Whether scanning the block fails: it meets, as the root of a new
/// pattern, an instruction that does not have exactly one result.
pub open spec fn block_fails(f: Function, block: Seq<usize>) -> bool {
    scan_fails_upto(f, block.reverse(), block.len())
}

/// Whether scanning one of the blocks of `f` fails.
pub open spec fn function_fails(f: Function) -> bool {
    exists|b: int| 0 <= b < f.blocks@.len() && #[trigger] block_fails(f, f.blocks@[b]@)
}

fn contains_inst(v: &Vec<usize>, x: usize) -> (b: bool)
    ensures
        b == v@.contains(x),
{
    let mut i: usize = 0;
    while i < v.len()
        invariant
            0 <= i <= v.len(),
            forall|k: int| 0 <= k < i ==> v@[k] != x,
        decreases v.len() - i,
    {
        if v[i] == x {
            assert(v@[i as int] == x);
            return true;
        }
        i = i + 1;
    }
    false
}

/// The patterns rooted in block `b` (see `block_patterns`), or nothing when
/// the scan meets a root that does not have exactly one result (see
/// `block_fails`).
pub fn extract_patterns_of_block(f: &Function, b: usize) -> (res: Option<Vec<PDFG>>)
    requires
        f.indices_valid(),
        b < f.blocks@.len(),
    ensures
        res is None <==> block_fails(*f, f.blocks@[b as int]@),
        res matches Some(out) ==> out@.map_values(|p: PDFG| p@) == block_patterns(*f, f.blocks@[b as int]@),
{
    let block = &f.blocks[b];
    let ghost order = block@.reverse();
    let mut pdfg_buf: Vec<PDFG> = Vec::new();
    let mut visited_insts: Vec<usize> = Vec::new();
    let mut k: usize = block.len();
    assert(pdfg_buf@.map_values(|p: PDFG| p@) =~= seq![]);
    while k > 0
        invariant
            f.indices_valid(),
            b < f.blocks@.len(),
            block == f.blocks@[b as int],
            order == block@.reverse(),
            0 <= k <= block.len(),
            !scan_fails_upto(*f, order, (block.len() - k) as nat),
            pdfg_buf@.map_values(|p: PDFG| p@) == block_state(*f, order, (block.len() - k) as nat).0,
            visited_insts@ == block_state(*f, order, (block.len() - k) as nat).1,
        decreases k,
    {
        k = k - 1;
        let inst = block[k];
        let ghost m: int = (block.len() - k - 1) as int;
        assert(order[m] == inst);
        assert(inst < f.insts@.len());
        let ghost before = pdfg_buf@.map_values(|p: PDFG| p@);
        if contains_inst(&visited_insts, inst) {
        } else {
            let opcode = f.insts[inst].opcode.clone();
            if !opcode_allowed(&opcode) {
                visited_insts.push(inst);
            } else {
                if f.insts[inst].results.len() != 1 {
                    assert(root_fails_at(*f, order, m));
                    return None;
                }
                let result = f.insts[inst].results[0];
                let mut pdfg = PDFG {
                    inst: inst,
                    op: opcode,
                    ty: f.values[result].ty.clone(),
                    cond: f.inst_cond(inst),
                    args: Vec::new(),
                };
                assert(args_view(pdfg.args@) =~= seq![]);
                visited_insts.push(inst);
                extract_pattern_from_insts(&mut pdfg, f, &mut visited_insts, 0);
                proof { lemma_pdfg_parts(pdfg); }
                pdfg_buf.push(pdfg);
                assert(pdfg_buf@.map_values(|p: PDFG| p@) =~= before.push(pdfg@));
            }
        }
        proof {
            assert(!root_fails_at(*f, order, m));
            assert forall|w: int| 0 <= w < m + 1 && w < order.len() implies !#[trigger] root_fails_at(*f, order, w) by {
                if w < m {
                    assert(!scan_fails_upto(*f, order, m as nat));
                }
            }
        }
    }
    Some(pdfg_buf)
}


/// Two patterns are the same when they agree in everything but the
/// instructions they were found at: opcode, type, condition, and argument by
/// argument, the same sub-pattern or the same type.
pub open spec fn same_pattern(a: PdfgView, b: PdfgView) -> bool
    decreases a,
{
    &&& a.op == b.op
    &&& a.ty == b.ty
    &&& a.cond == b.cond
    &&& a.args.len() == b.args.len()
    &&& forall|i: int|
        0 <= i < a.args.len() ==> match (#[trigger] a.args[i], b.args[i]) {
            (Ok(x), Ok(y)) => same_pattern(x, y),
            (Err(t), Err(u)) => t == u,
            _ => false,
        }
}

fn same_cond(a: &Option<IntCC>, b: &Option<IntCC>) -> (r: bool)
    ensures
        r == (*a == *b),
{
    match (a, b) {
        (Some(x), Some(y)) => *x == *y,
        (None, None) => true,
        _ => false,
    }
}

/// Whether two patterns are the same: see `same_pattern`.
pub fn pdfg_eq(a: &PDFG, b: &PDFG) -> (r: bool)
    ensures
        r == same_pattern(a@, b@),
    decreases a,
{
    if !a.op.eq(&b.op) || !a.ty.eq(&b.ty) || !same_cond(&a.cond, &b.cond) || a.args.len() != b.args.len() {
        return false;
    }
    proof {
        lemma_pdfg_parts(*a);
        lemma_pdfg_parts(*b);
    }
    let mut i: usize = 0;
    while i < a.args.len()
        invariant
            0 <= i <= a.args.len(),
            a.args.len() == b.args.len(),
            a@.args == args_view(a.args@),
            b@.args == args_view(b.args@),
            same_pattern(a@, b@) == (forall|k: int|
                0 <= k < a@.args.len() ==> match (#[trigger] a@.args[k], b@.args[k]) {
                    (Ok(x), Ok(y)) => same_pattern(x, y),
                    (Err(t), Err(u)) => t == u,
                    _ => false,
                }),
            forall|k: int|
                0 <= k < i ==> match (#[trigger] a@.args[k], b@.args[k]) {
                    (Ok(x), Ok(y)) => same_pattern(x, y),
                    (Err(t), Err(u)) => t == u,
                    _ => false,
                },
        decreases a.args.len() - i,
    {
        let same = match (&a.args[i], &b.args[i]) {
            (Ok(x), Ok(y)) => pdfg_eq(x, y),
            (Err(t), Err(u)) => t.eq(u),
            _ => false,
        };
        assert(a@.args[i as int] == arg_view(a.args@[i as int]));
        assert(b@.args[i as int] == arg_view(b.args@[i as int]));
        if !same {
            return false;
        }
        i = i + 1;
    }
    true
}

impl PartialEq for PDFG {
    fn eq(&self, other: &Self) -> (r: bool) {
        pdfg_eq(self, other)
    }
}

impl PartialEqSpecImpl for PDFG {
    open spec fn obeys_eq_spec() -> bool {
        true
    }

    open spec fn eq_spec(&self, other: &PDFG) -> bool {
        same_pattern(self@, other@)
    }
}

/// Whether `acc` holds a pattern that is the same as `p`.
pub open spec fn has_same(acc: Seq<PdfgView>, p: PdfgView) -> bool {
    exists|k: int| 0 <= k < acc.len() && same_pattern(#[trigger] acc[k], p)
}

/// `acc` with the first `k` patterns of `ps` added in turn, each only when no
/// pattern already there is the same.
pub open spec fn add_new(acc: Seq<PdfgView>, ps: Seq<PdfgView>, k: nat) -> Seq<PdfgView>
    decreases k,
{
    if k == 0 || k > ps.len() {
        acc
    } else {
        let prev = add_new(acc, ps, (k - 1) as nat);
        if has_same(prev, ps[k - 1]) {
            prev
        } else {
            prev.push(ps[k - 1])
        }
    }
}

/// The distinct patterns of the first `n` blocks, in the order found.
pub open spec fn function_patterns_upto(f: Function, n: nat) -> Seq<PdfgView>
    decreases n,
{
    if n == 0 || n > f.blocks@.len() {
        seq![]
    } else {
        let ps = block_patterns(f, f.blocks@[n - 1]@);
        add_new(function_patterns_upto(f, (n - 1) as nat), ps, ps.len())
    }
}

/// The distinct patterns of a function: those of each block, in layout
/// order, each kept only when no pattern kept before is the same.
pub open spec fn function_patterns(f: Function) -> Seq<PdfgView> {
    function_patterns_upto(f, f.blocks@.len())
}

/// The distinct patterns of `f` (see `function_patterns`), or nothing when
/// scanning one of its blocks fails (see `function_fails`).
pub fn extract_patterns_of_function(f: &Function) -> (res: Option<Vec<PDFG>>)
    requires
        f.indices_valid(),
    ensures
        res is None <==> function_fails(*f),
        res matches Some(out) ==> out@.map_values(|p: PDFG| p@) == function_patterns(*f),
{
    let mut pdfg_buf: Vec<PDFG> = Vec::new();
    assert(pdfg_buf@.map_values(|p: PDFG| p@) =~= seq![]);
    let mut b: usize = 0;
    while b < f.blocks.len()
        invariant
            f.indices_valid(),
            0 <= b <= f.blocks.len(),
            forall|c: int| 0 <= c < b ==> !#[trigger] block_fails(*f, f.blocks@[c]@),
            pdfg_buf@.map_values(|p: PDFG| p@) == function_patterns_upto(*f, b as nat),
        decreases f.blocks.len() - b,
    {
        let mut found = match extract_patterns_of_block(f, b) {
            Some(found) => found,
            None => {
                assert(block_fails(*f, f.blocks@[b as int]@));
                return None;
            },
        };
        let ghost ps = found@.map_values(|p: PDFG| p@);
        let ghost start = pdfg_buf@.map_values(|p: PDFG| p@);
        let count = found.len();
        let mut n: usize = 0;
        while n < count
            invariant
                0 <= n <= count,
                ps.len() == count,
                ps == block_patterns(*f, f.blocks@[b as int]@),
                start == function_patterns_upto(*f, b as nat),
                found@.map_values(|p: PDFG| p@) == ps.skip(n as int),
                found@.len() == count - n,
                pdfg_buf@.map_values(|p: PDFG| p@) == add_new(start, ps, n as nat),
            decreases count - n,
        {
            let ghost before = found@;
            assert(before.map_values(|p: PDFG| p@)[0] == ps[n as int]);
            let new_pdfg = found.remove(0);
            assert(found@.map_values(|p: PDFG| p@) =~= ps.skip(n + 1)) by {
                assert forall|m: int| 0 <= m < found@.len() implies found@[m]@ == ps[n + 1 + m] by {
                    assert(found@[m] == before[m + 1]);
                    assert(before.map_values(|p: PDFG| p@)[m + 1] == ps.skip(n as int)[m + 1]);
                }
            }
            assert(new_pdfg@ == ps[n as int]);
            let ghost acc = pdfg_buf@.map_values(|p: PDFG| p@);
            let mut any = false;
            let mut k: usize = 0;
            while k < pdfg_buf.len()
                invariant
                    0 <= k <= pdfg_buf.len(),
                    acc == pdfg_buf@.map_values(|p: PDFG| p@),
                    any == exists|m: int| 0 <= m < k && same_pattern(#[trigger] acc[m], new_pdfg@),
                decreases pdfg_buf.len() - k,
            {
                if pdfg_buf[k] == new_pdfg {
                    assert(same_pattern(acc[k as int], new_pdfg@));
                    any = true;
                }
                k = k + 1;
            }
            assert(any == has_same(acc, ps[n as int]));
            if !any {
                pdfg_buf.push(new_pdfg);
                assert(pdfg_buf@.map_values(|p: PDFG| p@) =~= acc.push(ps[n as int]));
            }
            n = n + 1;
        }
        b = b + 1;
    }
    Some(pdfg_buf)
}


/// The condition's name, or nothing.
pub open spec fn cond_text(c: Option<IntCC>) -> Seq<char> {
    match c {
        Some(x) => x.name(),
        None => seq![],
    }
}

/// How a pattern is printed on one line: `(ty op cond` and, for each
/// argument, a space and its sub-pattern or `(ty value)`, then `)`.
pub open spec fn mach_text(p: PdfgView) -> Seq<char>
    decreases p, 1nat,
{
    "("@ + p.ty + " "@ + p.op + " "@ + cond_text(p.cond) + mach_pieces(p).flatten() + ")"@
}

/// The printed arguments of `p`, each after a space.
pub open spec fn mach_pieces(p: PdfgView) -> Seq<Seq<char>>
    decreases p, 0nat,
{
    Seq::new(
        p.args.len(),
        |i: int|
            if 0 <= i < p.args.len() {
                " "@ + match p.args[i] {
                    Ok(x) => mach_text(x),
                    Err(t) => "("@ + t + " value)"@,
                }
            } else {
                seq![]
            },
    )
}

/// How a pattern is printed over several lines at nesting `depth`.
pub open spec fn indent_text(p: PdfgView, depth: nat) -> Seq<char>
    decreases p, 1nat,
{
    "("@ + p.ty + " "@ + p.op + " "@ + cond_text(p.cond) + "\n"@ + indent_pieces(p, depth).flatten()
        + tabs(depth + 1) + ")\n"@
}

/// The printed arguments of `p`, each on its own indented lines.
pub open spec fn indent_pieces(p: PdfgView, depth: nat) -> Seq<Seq<char>>
    decreases p, 0nat,
{
    Seq::new(
        p.args.len(),
        |i: int|
            if 0 <= i < p.args.len() {
                tabs(depth + 1) + match p.args[i] {
                    Ok(x) => indent_text(x, depth + 1),
                    Err(t) => "("@ + t + " value)\n"@,
                }
            } else {
                seq![]
            },
    )
}

/// Whether printing `p` from `depth` keeps every indentation below
/// `usize::MAX`.
pub open spec fn pdfg_indent_fits(p: PdfgView, depth: nat) -> bool
    decreases p,
{
    &&& depth + 1 < usize::MAX
    &&& forall|i: int|
        0 <= i < p.args.len() ==> match #[trigger] p.args[i] {
            Ok(x) => pdfg_indent_fits(x, depth + 1),
            Err(_) => true,
        }
}

fn cond_string(c: &Option<IntCC>) -> (s: String)
    ensures
        s@ == cond_text(*c),
{
    match c {
        Some(x) => x.to_static_str(),
        None => String::new(),
    }
}

impl PDFG {
    /// Prints the pattern on one line: see `mach_text`.
    pub fn fmt_mach(&self) -> (s: String)
        ensures
            s@ == mach_text(self@),
        decreases self,
    {
        proof { lemma_pdfg_parts(*self); }
        let cond = cond_string(&self.cond);
        let mut s = String::from_str("(").concat(self.ty.as_str()).concat(" ").concat(
            self.op.as_str(),
        ).concat(" ").concat(cond.as_str());
        let ghost head = s@;
        let ghost pieces = mach_pieces(self@);
        let mut i: usize = 0;
        while i < self.args.len()
            invariant
                0 <= i <= self.args.len(),
                self@.args == args_view(self.args@),
                pieces == mach_pieces(self@),
                s@ == head + pieces.take(i as int).flatten(),
            decreases self.args.len() - i,
        {
            let ghost before = s@;
            s.append(" ");
            match &self.args[i] {
                Ok(x) => {
                    let sub = x.fmt_mach();
                    s.append(sub.as_str());
                },
                Err(ty) => {
                    s.append("(");
                    s.append(ty.as_str());
                    s.append(" value)");
                },
            }
            proof {
                assert(self@.args[i as int] == arg_view(self.args@[i as int]));
                assert(s@ =~= before + pieces[i as int]);
                assert(pieces.take(i + 1) =~= pieces.take(i as int).push(pieces[i as int]));
                pieces.take(i as int).lemma_flatten_push(pieces[i as int]);
            }
            i = i + 1;
        }
        assert(pieces.take(self.args.len() as int) =~= pieces);
        s.append(")");
        s
    }

    /// Prints the pattern over several lines at nesting `depth`: see
    /// `indent_text`.
    pub fn fmt_with_indent(&self, depth: usize) -> (s: String)
        requires
            pdfg_indent_fits(self@, depth as nat),
        ensures
            s@ == indent_text(self@, depth as nat),
        decreases self,
    {
        proof { lemma_pdfg_parts(*self); }
        let cond = cond_string(&self.cond);
        let mut s = String::from_str("(").concat(self.ty.as_str()).concat(" ").concat(
            self.op.as_str(),
        ).concat(" ").concat(cond.as_str()).concat("\n");
        let ghost head = s@;
        let ghost pieces = indent_pieces(self@, depth as nat);
        let mut i: usize = 0;
        while i < self.args.len()
            invariant
                0 <= i <= self.args.len(),
                pdfg_indent_fits(self@, depth as nat),
                self@.args == args_view(self.args@),
                pieces == indent_pieces(self@, depth as nat),
                s@ == head + pieces.take(i as int).flatten(),
            decreases self.args.len() - i,
        {
            let ghost before = s@;
            let t = tab_string(depth + 1);
            s.append(t.as_str());
            assert(self@.args[i as int] == arg_view(self.args@[i as int]));
            match &self.args[i] {
                Ok(x) => {
                    assert(pdfg_indent_fits(x@, (depth + 1) as nat));
                    let sub = x.fmt_with_indent(depth + 1);
                    s.append(sub.as_str());
                },
                Err(ty) => {
                    s.append("(");
                    s.append(ty.as_str());
                    s.append(" value)\n");
                },
            }
            proof {
                assert(s@ =~= before + pieces[i as int]);
                assert(pieces.take(i + 1) =~= pieces.take(i as int).push(pieces[i as int]));
                pieces.take(i as int).lemma_flatten_push(pieces[i as int]);
            }
            i = i + 1;
        }
        assert(pieces.take(self.args.len() as int) =~= pieces);
        let t = tab_string(depth + 1);
        s.append(t.as_str());
        s.append(")\n");
        s
    }

    /// Whether printing the pattern from `depth` keeps every indentation
    /// below `usize::MAX`: see `pdfg_indent_fits`.
    pub fn indent_ok(&self, depth: usize) -> (b: bool)
        ensures
            b == pdfg_indent_fits(self@, depth as nat),
        decreases self,
    {
        if depth >= usize::MAX - 1 {
            return false;
        }
        proof { lemma_pdfg_parts(*self); }
        let mut i: usize = 0;
        while i < self.args.len()
            invariant
                0 <= i <= self.args.len(),
                depth + 1 < usize::MAX,
                self@.args == args_view(self.args@),
                forall|k: int|
                    0 <= k < i ==> match #[trigger] self@.args[k] {
                        Ok(x) => pdfg_indent_fits(x, (depth + 1) as nat),
                        Err(_) => true,
                    },
            decreases self.args.len() - i,
        {
            assert(self@.args[i as int] == arg_view(self.args@[i as int]));
            match &self.args[i] {
                Ok(x) => {
                    if !x.indent_ok(depth + 1) {
                        return false;
                    }
                },
                Err(_) => {},
            }
            i = i + 1;
        }
        true
    }

    /// Prints the pattern as its `Display` impl does: `(` + the one-line
    /// form + `)`.
    pub fn to_string(&self) -> (s: String)
        ensures
            s@ == "("@ + mach_text(self@) + ")"@,
    {
        let m = self.fmt_mach();
        String::from_str("(").concat(m.as_str()).concat(")")
    }

    /// Prints the pattern as its `Debug` impl does: `(`, a line break, the
    /// indented form from depth zero, then `)` and a line break.
    pub fn debug_string(&self) -> (s: String)
        requires
            pdfg_indent_fits(self@, 0),
        ensures
            s@ == "(\n"@ + indent_text(self@, 0) + ")\n"@,
    {
        let m = self.fmt_with_indent(0);
        String::from_str("(\n").concat(m.as_str()).concat(")\n")
    }
}

} // verus!
