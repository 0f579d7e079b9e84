//! Pattern trees built from ISLE rules, and the SyGuS productions they give.
use vstd::prelude::*;
use crate::decimal::{decimal_i128, decimal_seq, decimal_u128, int_decimal};
use crate::insn_type::InsnType;

verus! {

/// One node of a pattern tree.
pub enum PatternPart {
    /// An instruction: the opcode's name and the types it may have.
    Insn(String, Option<Vec<InsnType>>),
    Var(String),
    Imm12Var(Box<PatternPart>),
    ExtendedVar(Box<PatternPart>),
    Wildcard,
    Other(String),
    And,
    BindPattern(String),
    BoolConst(bool),
    IntConst(i128),
    PrimConst(String),
}

/// A pattern tree: a node and the trees below it.
pub struct Pattern2Sygus {
    pub pattern: PatternPart,
    pub args: Vec<Box<Pattern2Sygus>>,
}

/// The mathematical value of a `PatternPart`.
pub enum PartView {
    Insn(Seq<char>, Option<Seq<InsnType>>),
    Var(Seq<char>),
    Imm12Var(Box<PartView>),
    ExtendedVar(Box<PartView>),
    Wildcard,
    Other(Seq<char>),
    And,
    BindPattern(Seq<char>),
    BoolConst(bool),
    IntConst(i128),
    PrimConst(Seq<char>),
}

/// The mathematical value of a `Pattern2Sygus`.
pub struct SygusTree {
    pub pattern: PartView,
    pub args: Seq<SygusTree>,
}

/// The types of an instruction node, as a sequence.
pub open spec fn types_view(t: Option<Vec<InsnType>>) -> Option<Seq<InsnType>> {
    match t {
        Some(v) => Some(v@),
        None => None,
    }
}

/// The value of a node.
pub open spec fn part_view(p: PatternPart) -> PartView
    decreases p,
{
    match p {
        PatternPart::Insn(op, tys) => PartView::Insn(op@, types_view(tys)),
        PatternPart::Var(id) => PartView::Var(id@),
        PatternPart::Imm12Var(b) => PartView::Imm12Var(Box::new(part_view(*b))),
        PatternPart::ExtendedVar(b) => PartView::ExtendedVar(Box::new(part_view(*b))),
        PatternPart::Wildcard => PartView::Wildcard,
        PatternPart::Other(id) => PartView::Other(id@),
        PatternPart::And => PartView::And,
        PatternPart::BindPattern(id) => PartView::BindPattern(id@),
        PatternPart::BoolConst(b) => PartView::BoolConst(b),
        PatternPart::IntConst(i) => PartView::IntConst(i),
        PatternPart::PrimConst(s) => PartView::PrimConst(s@),
    }
}

/// The value of a tree.
pub open spec fn tree_view(p: Pattern2Sygus) -> SygusTree
    decreases p,
{
    SygusTree {
        pattern: part_view(p.pattern),
        args: Seq::new(
            p.args@.len(),
            |i: int|
                if 0 <= i < p.args@.len() {
                    tree_view(*p.args@[i])
                } else {
                    SygusTree { pattern: PartView::Wildcard, args: seq![] }
                },
        ),
    }
}

impl View for PatternPart {
    type V = PartView;

    open spec fn view(&self) -> PartView {
        part_view(*self)
    }
}

impl View for Pattern2Sygus {
    type V = SygusTree;

    open spec fn view(&self) -> SygusTree {
        tree_view(*self)
    }
}

/// The strings of `s` joined with `sep` between neighbours.
pub open spec fn join(s: Seq<Seq<char>>, sep: Seq<char>) -> Seq<char>
    decreases s.len(),
{
    if s.len() == 0 {
        seq![]
    } else if s.len() == 1 {
        s[0]
    } else {
        join(s.drop_last(), sep) + sep + s.last()
    }
}

/// How `{:?}` prints a list of types: `None`, or `Some([BV8, BV16])`.
pub open spec fn types_debug(t: Option<Seq<InsnType>>) -> Seq<char> {
    match t {
        None => "None"@,
        Some(v) => "Some(["@ + join(v.map_values(|x: InsnType| x.debug_name()), ", "@) + "])"@,
    }
}

/// How a node is printed.
pub open spec fn part_display(p: PartView) -> Seq<char>
    decreases p,
{
    match p {
        PartView::Var(id) => "var_"@ + id,
        PartView::Imm12Var(b) => "imm_12_"@ + part_display(*b),
        PartView::ExtendedVar(b) => "x_"@ + part_display(*b),
        PartView::Wildcard => "wildcard"@,
        PartView::Insn(op, tys) => op + " "@ + types_debug(tys),
        PartView::Other(id) => id,
        PartView::And => "and "@,
        PartView::BindPattern(id) => id + " = "@,
        PartView::BoolConst(b) => "b"@ + if b {
            "true"@
        } else {
            "false"@
        },
        PartView::IntConst(i) => "i"@ + int_decimal(i as int),
        PartView::PrimConst(s) => "p"@ + s,
    }
}

/// Prints a list of types as `{:?}` does.
pub fn types_debug_string(t: &Option<Vec<InsnType>>) -> (s: String)
    ensures
        s@ == types_debug(types_view(*t)),
{
    match t {
        None => String::from_str("None"),
        Some(v) => {
            let mut s = String::from_str("Some([");
            let ghost names = v@.map_values(|x: InsnType| x.debug_name());
            let mut i: usize = 0;
            while i < v.len()
                invariant
                    0 <= i <= v.len(),
                    names == v@.map_values(|x: InsnType| x.debug_name()),
                    s@ == "Some(["@ + join(names.take(i as int), ", "@),
                decreases v.len() - i,
            {
                let name = v[i].debug_string();
                assert(names.take(i + 1).drop_last() =~= names.take(i as int));
                if i > 0 {
                    s.append(", ");
                }
                s.append(name.as_str());
                proof {
                    if i == 0 {
                        assert(names.take(1) =~= seq![names[0]]);
                    }
                }
                assert(s@ =~= "Some(["@ + join(names.take(i + 1), ", "@));
                i = i + 1;
            }
            assert(names.take(v.len() as int) =~= names);
            s.append("])");
            s
        },
    }
}

impl PatternPart {
    /// Prints the node: `var_x`, `imm_12_…`, `x_…`, `wildcard`, the opcode
    /// and its types, and so on.
    pub fn to_string(&self) -> (s: String)
        ensures
            s@ == part_display(self@),
        decreases self,
    {
        match self {
            PatternPart::Var(id) => String::from_str("var_").concat(id.as_str()),
            PatternPart::Imm12Var(b) => {
                let inner = b.to_string();
                String::from_str("imm_12_").concat(inner.as_str())
            },
            PatternPart::ExtendedVar(b) => {
                let inner = b.to_string();
                String::from_str("x_").concat(inner.as_str())
            },
            PatternPart::Wildcard => String::from_str("wildcard"),
            PatternPart::Insn(op, tys) => {
                let t = types_debug_string(tys);
                op.clone().concat(" ").concat(t.as_str())
            },
            PatternPart::Other(id) => id.clone(),
            PatternPart::And => String::from_str("and "),
            PatternPart::BindPattern(id) => id.clone().concat(" = "),
            PatternPart::BoolConst(b) => {
                if *b {
                    String::from_str("b").concat("true")
                } else {
                    String::from_str("b").concat("false")
                }
            },
            PatternPart::IntConst(i) => {
                let d = decimal_i128(*i);
                String::from_str("i").concat(d.as_str())
            },
            PatternPart::PrimConst(s) => String::from_str("p").concat(s.as_str()),
        }
    }
}


/// `n` tab characters.
pub open spec fn tabs(n: nat) -> Seq<char> {
    Seq::new(n, |i: int| '\t')
}

/// How a tree is printed at nesting `depth`: the node on a line of its own,
/// then each subtree indented by one more tab than `depth`.
pub open spec fn render(t: SygusTree, depth: nat) -> Seq<char>
    decreases t, 1nat,
{
    part_display(t.pattern) + seq!['\n'] + render_pieces(t, depth).flatten()
}

/// The printed subtrees of `t`, each with its indentation.
pub open spec fn render_pieces(t: SygusTree, depth: nat) -> Seq<Seq<char>>
    decreases t, 0nat,
{
    Seq::new(
        t.args.len(),
        |i: int|
            if 0 <= i < t.args.len() {
                tabs(depth + 1) + render(t.args[i], depth + 1)
            } else {
                seq![]
            },
    )
}

/// Whether indenting `t` from `depth` keeps every nesting level below
/// `usize::MAX`.
pub open spec fn indent_fits(t: SygusTree, depth: nat) -> bool
    decreases t,
{
    &&& depth < usize::MAX
    &&& forall|i: int| 0 <= i < t.args.len() ==> indent_fits(#[trigger] t.args[i], depth + 1)
}

pub(crate) fn tab_string(n: usize) -> (s: String)
    ensures
        s@ == tabs(n as nat),
{
    let mut s = String::new();
    let mut i: usize = 0;
    while i < n
        invariant
            0 <= i <= n,
            s@ == tabs(i as nat),
        decreases n - i,
    {
        proof { reveal_strlit("\t"); }
        s.append("\t");
        assert(s@ =~= tabs((i + 1) as nat));
        i = i + 1;
    }
    s
}

impl Pattern2Sygus {
    /// Prints the tree at nesting `depth`, as its `Display` impl does from
    /// depth zero.
    pub fn fmt_with_indent(&self, depth: usize) -> (s: String)
        requires
            indent_fits(self@, depth as nat),
        ensures
            s@ == render(self@, depth as nat),
        decreases self,
    {
        proof { reveal_strlit("\n"); }
        let mut s = self.pattern.to_string();
        s.append("\n");
        let ghost pieces = render_pieces(self@, depth as nat);
        let ghost head = s@;
        let mut i: usize = 0;
        while i < self.args.len()
            invariant
                0 <= i <= self.args.len(),
                indent_fits(self@, depth as nat),
                self@.args.len() == self.args@.len(),
                forall|k: int| 0 <= k < self.args@.len() ==> self@.args[k] == (*self.args@[k])@,
                pieces == render_pieces(self@, depth as nat),
                s@ == head + pieces.take(i as int).flatten(),
            decreases self.args.len() - i,
        {
            assert(indent_fits(self@.args[i as int], (depth + 1) as nat));
            let t = tab_string(depth + 1);
            let sub = (&*self.args[i]).fmt_with_indent(depth + 1);
            s.append(t.as_str());
            s.append(sub.as_str());
            proof {
                assert(pieces.take(i + 1) =~= pieces.take(i as int).push(pieces[i as int]));
                pieces.take(i as int).lemma_flatten_push(pieces[i as int]);
            }
            i = i + 1;
        }
        assert(pieces.take(self.args.len() as int) =~= pieces);
        s
    }

    /// Whether printing the tree from `depth` keeps every indentation below
    /// `usize::MAX`: see `indent_fits`.
    pub fn indent_ok(&self, depth: usize) -> (b: bool)
        ensures
            b == indent_fits(self@, depth as nat),
        decreases self,
    {
        if depth == usize::MAX {
            return false;
        }
        let mut i: usize = 0;
        while i < self.args.len()
            invariant
                0 <= i <= self.args.len(),
                depth < usize::MAX,
                self@.args.len() == self.args@.len(),
                forall|k: int| 0 <= k < self.args@.len() ==> self@.args[k] == (*self.args@[k])@,
                forall|k: int| 0 <= k < i ==> indent_fits(#[trigger] self@.args[k], (depth + 1) as nat),
            decreases self.args.len() - i,
        {
            if depth + 1 == usize::MAX {
                assert(!indent_fits(self@.args[i as int], (depth + 1) as nat));
                return false;
            }
            if !self.args[i].indent_ok(depth + 1) {
                assert(!indent_fits(self@.args[i as int], (depth + 1) as nat));
                return false;
            }
            i = i + 1;
        }
        true
    }

    /// Prints the tree, as its `Display` impl does.
    pub fn to_string(&self) -> (s: String)
        requires
            indent_fits(self@, 0),
        ensures
            s@ == render(self@, 0),
    {
        self.fmt_with_indent(0)
    }
}


/// The characters of each string in `v`.
pub open spec fn strings_view(v: Vec<String>) -> Seq<Seq<char>> {
    v@.map_values(|s: String| s@)
}

/// `[s]` when `v` is empty; otherwise each string of `v` followed by a space
/// and `s`.
pub open spec fn add_or_return(v: Seq<Seq<char>>, s: Seq<char>) -> Seq<Seq<char>> {
    if v.len() == 0 {
        seq![s]
    } else {
        v.map_values(|x: Seq<char>| x + seq![' '] + s)
    }
}

/// Extends every string of `vector` by a space and `string`; when there is
/// none, starts the list with `string`.
pub fn add_or_return_string(vector: Vec<String>, string: String) -> (res: Vec<String>)
    ensures
        strings_view(res) == add_or_return(strings_view(vector), string@),
{
    if vector.len() == 0 {
        let mut out = Vec::new();
        out.push(string);
        assert(strings_view(out) =~= seq![string@]);
        out
    } else {
        let mut out: Vec<String> = Vec::new();
        let mut i: usize = 0;
        proof { reveal_strlit(" "); }
        while i < vector.len()
            invariant
                0 <= i <= vector.len(),
                out@.len() == i,
                forall|k: int| 0 <= k < i ==> #[trigger] out@[k]@ == vector@[k]@ + seq![' '] + string@,
            decreases vector.len() - i,
        {
            proof { reveal_strlit(" "); }
            let x = vector[i].clone().concat(" ").concat(string.as_str());
            out.push(x);
            i = i + 1;
        }
        assert(strings_view(out) =~= strings_view(vector).map_values(
            |x: Seq<char>| x + seq![' '] + string@,
        ));
        out
    }
}

/// The two ways, zero and sign extension, of widening a value of type `t`
/// to 64 bits.
pub open spec fn extensions_of(t: InsnType) -> Seq<Seq<char>> {
    seq![
        "("@ + t.name() + " ((_ zero_extend "@ + decimal_seq((64 - t.width()) as nat)
            + ") value))"@,
        "("@ + t.name() + " ((_ sign_extend "@ + decimal_seq((64 - t.width()) as nat)
            + ") value))"@,
    ]
}

/// The six widenings that an extended value stands for.
pub open spec fn extended_forms() -> Seq<Seq<char>> {
    extensions_of(InsnType::BV8) + extensions_of(InsnType::BV16) + extensions_of(InsnType::BV32)
}

fn extension_string(t: InsnType, zero: bool) -> (s: String)
    requires
        t.width() < 64,
    ensures
        s@ == if zero {
            extensions_of(t)[0]
        } else {
            extensions_of(t)[1]
        },
{
    let name = t.to_string();
    let amount = decimal_u128((64 - t.bitwidth_of()) as u128);
    let mut s = String::from_str("(");
    s.append(name.as_str());
    if zero {
        s.append(" ((_ zero_extend ");
    } else {
        s.append(" ((_ sign_extend ");
    }
    s.append(amount.as_str());
    s.append(") value))");
    s
}

impl PatternPart {
    /// The six widenings of an extended value: zero and sign extension from
    /// 8, 16 and 32 bits to 64.
    pub fn explode_extended_var(&self) -> (out: Vec<String>)
        requires
            self is ExtendedVar,
        ensures
            strings_view(out) == extended_forms(),
    {
        let mut out: Vec<String> = Vec::new();
        let smaller_types = vec![InsnType::BV8, InsnType::BV16, InsnType::BV32];
        let mut i: usize = 0;
        while i < 3
            invariant
                0 <= i <= 3,
                smaller_types@ == seq![InsnType::BV8, InsnType::BV16, InsnType::BV32],
                strings_view(out) == (if i == 0 {
                    seq![]
                } else if i == 1 {
                    extensions_of(InsnType::BV8)
                } else if i == 2 {
                    extensions_of(InsnType::BV8) + extensions_of(InsnType::BV16)
                } else {
                    extended_forms()
                }),
            decreases 3 - i,
        {
            let ty = smaller_types[i];
            let zext = extension_string(ty, true);
            let sext = extension_string(ty, false);
            let ghost before = strings_view(out);
            out.push(zext);
            out.push(sext);
            assert(strings_view(out) =~= before + extensions_of(ty));
            i = i + 1;
        }
        out
    }
}


/// The strings that `t` produces for type `ty`, each continuing one of the
/// `input` strings (or starting afresh when there are none).
pub open spec fn sygus_strings(t: SygusTree, input: Seq<Seq<char>>, ty: InsnType) -> Seq<Seq<char>>
    decreases t, t.args.len() + 1,
{
    match t.pattern {
        PartView::Insn(op, _) => {
            let opened = add_or_return(input, "("@ + ty.name() + " "@ + op);
            add_or_return(sygus_args(t, t.args.len(), opened, ty), ")"@)
        },
        PartView::Var(_) => add_or_return(input, "("@ + ty.name() + " value)"@),
        PartView::Wildcard => add_or_return(input, "("@ + ty.name() + " value)"@),
        PartView::Imm12Var(_) => add_or_return(
            input,
            "("@ + ty.name() + " ((_ zero_extend "@ + decimal_seq((ty.width() - 12) as nat)
                + ") ((_ extract 11 0) value)))"@,
        ),
        PartView::ExtendedVar(_) => input.map_values(
            |o: Seq<char>| extended_forms().map_values(|x: Seq<char>| o + seq![' '] + x),
        ).flatten(),
        _ => add_or_return(input, part_display(t.pattern)),
    }
}

/// The strings after the first `k` subtrees of `t` have each continued the
/// strings before them, starting from `start`.
pub open spec fn sygus_args(t: SygusTree, k: nat, start: Seq<Seq<char>>, ty: InsnType) -> Seq<Seq<char>>
    decreases t, k,
{
    if k == 0 || k > t.args.len() {
        start
    } else {
        sygus_strings(t.args[k - 1], sygus_args(t, (k - 1) as nat, start, ty), ty)
    }
}

/// Whether producing strings for `ty` from `t` stays clear of the two
/// failures in doing so: an instruction reached through instructions that
/// has no types or lacks `ty`, and a 12-bit immediate in a type narrower
/// than 12 bits.
pub open spec fn sygus_ready(t: SygusTree, ty: InsnType) -> bool
    decreases t,
{
    match t.pattern {
        PartView::Insn(_, tys) => {
            &&& tys is Some
            &&& tys.unwrap().contains(ty)
            &&& forall|i: int| 0 <= i < t.args.len() ==> sygus_ready(#[trigger] t.args[i], ty)
        },
        PartView::Imm12Var(_) => ty.width() >= 12,
        _ => true,
    }
}

/// The shape that a valid pattern has: every instruction reached through
/// instructions has types and at least one operand, and no conjunction or
/// binding stands there.
pub open spec fn valid_shape(t: SygusTree) -> bool
    decreases t,
{
    match t.pattern {
        PartView::Insn(_, tys) => {
            &&& tys is Some
            &&& t.args.len() > 0
            &&& forall|i: int| 0 <= i < t.args.len() ==> valid_shape(#[trigger] t.args[i])
        },
        PartView::And => false,
        PartView::BindPattern(_) => false,
        _ => true,
    }
}

/// Whether every instruction that the node `p` holds, directly or inside a
/// wrapped variable, has at least one type.
pub open spec fn part_typed(p: PartView) -> bool
    decreases p,
{
    match p {
        PartView::Insn(_, tys) => tys is Some && tys.unwrap().len() > 0,
        PartView::Imm12Var(b) => part_typed(*b),
        PartView::ExtendedVar(b) => part_typed(*b),
        _ => true,
    }
}

/// Whether every instruction anywhere in `t`, under any kind of node, has at
/// least one type.
pub open spec fn all_insns_typed(t: SygusTree) -> bool
    decreases t,
{
    &&& part_typed(t.pattern)
    &&& forall|i: int| 0 <= i < t.args.len() ==> all_insns_typed(#[trigger] t.args[i])
}

/// A pattern is valid when it is properly typed, every instruction and
/// sub-instruction in it having at least one type, and it has the shape of
/// `valid_shape`.
pub open spec fn valid_pattern(t: SygusTree) -> bool {
    valid_shape(t) && all_insns_typed(t)
}

fn types_contain(tys: &Vec<InsnType>, ty: &InsnType) -> (b: bool)
    ensures
        b == tys@.contains(*ty),
{
    let mut i: usize = 0;
    while i < tys.len()
        invariant
            0 <= i <= tys.len(),
            forall|k: int| 0 <= k < i ==> tys@[k] != *ty,
        decreases tys.len() - i,
    {
        if tys[i] == *ty {
            assert(tys@[i as int] == *ty);
            return true;
        }
        i = i + 1;
    }
    false
}

fn has_valid_shape(p: &Pattern2Sygus) -> (b: bool)
    ensures
        b == valid_shape(p@),
    decreases p,
{
    match &p.pattern {
        PatternPart::Insn(_, types) => {
            match types {
                None => false,
                Some(_) => {
                    let mut acc = true;
                    let mut i: usize = 0;
                    while i < p.args.len()
                        invariant
                            0 <= i <= p.args.len(),
                            p@.args.len() == p.args@.len(),
                            forall|k: int| 0 <= k < p.args@.len() ==> p@.args[k] == (*p.args@[k])@,
                            acc == forall|k: int| 0 <= k < i ==> valid_shape(#[trigger] p@.args[k]),
                        decreases p.args.len() - i,
                    {
                        let ghost old_acc = acc;
                        if acc {
                            acc = has_valid_shape(&*p.args[i]);
                        }
                        proof {
                            if old_acc {
                                assert(acc == valid_shape(p@.args[i as int]));
                            } else {
                                let w = choose|k: int| 0 <= k < i && !valid_shape(#[trigger] p@.args[k]);
                                assert(0 <= w < i + 1 && !valid_shape(p@.args[w]));
                            }
                            if !acc && old_acc {
                                assert(!valid_shape(p@.args[i as int]));
                            }
                        }
                        i = i + 1;
                    }
                    p.args.len() > 0 && acc
                },
            }
        },
        PatternPart::And => false,
        PatternPart::BindPattern(_) => false,
        _ => true,
    }
}

fn part_is_typed(p: &PatternPart) -> (b: bool)
    ensures
        b == part_typed(p@),
    decreases p,
{
    match p {
        PatternPart::Insn(_, types) => match types {
            Some(tys) => tys.len() > 0,
            None => false,
        },
        PatternPart::Imm12Var(b) => part_is_typed(b),
        PatternPart::ExtendedVar(b) => part_is_typed(b),
        _ => true,
    }
}

fn insns_are_typed(p: &Pattern2Sygus) -> (b: bool)
    ensures
        b == all_insns_typed(p@),
    decreases p,
{
    if !part_is_typed(&p.pattern) {
        return false;
    }
    let mut i: usize = 0;
    while i < p.args.len()
        invariant
            0 <= i <= p.args.len(),
            part_typed(p@.pattern),
            p@.args.len() == p.args@.len(),
            forall|k: int| 0 <= k < p.args@.len() ==> p@.args[k] == (*p.args@[k])@,
            forall|k: int| 0 <= k < i ==> all_insns_typed(#[trigger] p@.args[k]),
        decreases p.args.len() - i,
    {
        if !insns_are_typed(&*p.args[i]) {
            assert(!all_insns_typed(p@.args[i as int]));
            return false;
        }
        i = i + 1;
    }
    true
}

/// Whether `p` is a valid pattern: see `valid_pattern`.
pub fn is_valid_pattern(p: &Pattern2Sygus) -> (b: bool)
    ensures
        b == valid_pattern(p@),
{
    has_valid_shape(p) && insns_are_typed(p)
}

impl Pattern2Sygus {
    /// The SyGuS strings that this tree produces for type `ty`, each
    /// continuing one of `input_strings`.
    pub fn as_sygus_pattern(&self, input_strings: Vec<String>, ty: &InsnType) -> (out: Vec<String>)
        requires
            sygus_ready(self@, *ty),
        ensures
            strings_view(out) == sygus_strings(self@, strings_view(input_strings), *ty),
        decreases self,
    {
        match &self.pattern {
            PatternPart::Insn(op, types) => {
                let name = ty.to_string();
                let out_s = String::from_str("(").concat(name.as_str()).concat(" ").concat(op.as_str());
                let mut out_vec = add_or_return_string(input_strings, out_s);
                let ghost opened = strings_view(out_vec);
                let mut i: usize = 0;
                while i < self.args.len()
                    invariant
                        0 <= i <= self.args.len(),
                        sygus_ready(self@, *ty),
                        self@.pattern is Insn,
                        self@.args.len() == self.args@.len(),
                        forall|k: int| 0 <= k < self.args@.len() ==> self@.args[k] == (*self.args@[k])@,
                        strings_view(out_vec) == sygus_args(self@, i as nat, opened, *ty),
                    decreases self.args.len() - i,
                {
                    assert(sygus_ready(self@.args[i as int], *ty));
                    out_vec = (&*self.args[i]).as_sygus_pattern(out_vec, ty);
                    i = i + 1;
                }
                add_or_return_string(out_vec, String::from_str(")"))
            },
            PatternPart::Var(_) => {
                let name = ty.to_string();
                let s = String::from_str("(").concat(name.as_str()).concat(" value)");
                add_or_return_string(input_strings, s)
            },
            PatternPart::Wildcard => {
                let name = ty.to_string();
                let s = String::from_str("(").concat(name.as_str()).concat(" value)");
                add_or_return_string(input_strings, s)
            },
            PatternPart::Imm12Var(_) => {
                let name = ty.to_string();
                let amount = decimal_u128((ty.bitwidth_of() - 12) as u128);
                let s = String::from_str("(").concat(name.as_str()).concat(" ((_ zero_extend ").concat(
                    amount.as_str(),
                ).concat(") ((_ extract 11 0) value)))");
                add_or_return_string(input_strings, s)
            },
            PatternPart::ExtendedVar(_) => {
                let forms = self.pattern.explode_extended_var();
                let ghost input = strings_view(input_strings);
                let ghost rows = input.map_values(
                    |o: Seq<char>| extended_forms().map_values(|x: Seq<char>| o + seq![' '] + x),
                );
                let mut new_paths: Vec<String> = Vec::new();
                let mut i: usize = 0;
                while i < input_strings.len()
                    invariant
                        0 <= i <= input_strings.len(),
                        input == strings_view(input_strings),
                        strings_view(forms) == extended_forms(),
                        rows == input.map_values(
                            |o: Seq<char>| extended_forms().map_values(|x: Seq<char>| o + seq![' '] + x),
                        ),
                        rows.len() == input.len(),
                        input.len() == input_strings.len(),
                        strings_view(new_paths) == rows.take(i as int).flatten(),
                    decreases input_strings.len() - i,
                {
                    let ghost before = strings_view(new_paths);
                    let mut j: usize = 0;
                    while j < forms.len()
                        invariant
                            0 <= j <= forms.len(),
                            0 <= i < input_strings.len(),
                            input == strings_view(input_strings),
                            strings_view(forms) == extended_forms(),
                            rows.len() == input.len(),
                            input.len() == input_strings.len(),
                            rows[i as int].len() == forms.len(),
                            strings_view(new_paths) == before + rows[i as int].take(j as int),
                            rows[i as int] == extended_forms().map_values(|x: Seq<char>| input[i as int] + seq![' '] + x),
                        decreases forms.len() - j,
                    {
                        proof { reveal_strlit(" "); }
                        let x = input_strings[i].clone().concat(" ").concat(forms[j].as_str());
                        let ghost prev = strings_view(new_paths);
                        new_paths.push(x);
                        assert(strings_view(new_paths) =~= prev.push(x@));
                        assert(forms@[j as int]@ == extended_forms()[j as int]);
                        assert(rows[i as int][j as int] == x@);
                        assert(rows[i as int].take(j + 1) =~= rows[i as int].take(j as int).push(x@));
                        j = j + 1;
                    }
                    proof {
                        assert(rows[i as int].take(forms.len() as int) =~= rows[i as int]);
                        assert(rows.take(i + 1) =~= rows.take(i as int).push(rows[i as int]));
                        rows.take(i as int).lemma_flatten_push(rows[i as int]);
                    }
                    i = i + 1;
                }
                assert(rows.take(input_strings.len() as int) =~= rows);
                new_paths
            },
            _ => {
                let s = self.pattern.to_string();
                add_or_return_string(input_strings, s)
            },
        }
    }
}

} // verus!
