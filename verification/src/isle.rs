//! The parts of an ISLE program that building pattern trees reads.
use vstd::prelude::*;

verus! {

/// A left-hand-side pattern of an ISLE rule (source positions left out).
#[allow(inconsistent_fields)]
pub enum Pattern {
    /// A mention of a variable.
    Var { var: String },
    /// Binds a variable to whatever the sub-pattern matches.
    BindPattern { var: String, subpat: Box<Pattern> },
    /// A constant boolean.
    ConstBool { val: bool },
    /// A constant integer.
    ConstInt { val: i128 },
    /// An external constant, by name.
    ConstPrim { val: String },
    /// An application of a term to argument patterns.
    Term { sym: String, args: Vec<Pattern> },
    /// Matches anything.
    Wildcard,
    /// All of the sub-patterns must match.
    And { subpats: Vec<Pattern> },
    /// A macro argument in a template.
    MacroArg { index: usize },
}

/// A top-level ISLE definition: a rule with its left-hand side, or any other
/// kind of definition.
pub enum Def {
    Rule { pattern: Pattern },
    Other,
}

} // verus!
