//! The recursive grammar edges and what each of them costs.
use vstd::prelude::*;

verus! {

/// Weight units in the whole budget. `2^32` exceeds the square of every pinned
/// depth (at most 9330), so weights made by integer division still tell
/// neighbouring depths apart; see `integer_weight_overflows_after_depth`.
pub const WEIGHT_SCALE: u64 = 0x1_0000_0000;

/// Total logical recursion budget, in [`WEIGHT_SCALE`] units. It stands for a
/// native stack of 1 MiB.
pub const PARSER_STACK_BUDGET: u64 = WEIGHT_SCALE;

/// One recursive grammar edge.
///
/// An edge is charged at the place in the parser that runs once per nesting
/// level (the entry of a container, never once per flat sibling). A construct
/// that crosses several edges per level costs their sum.
#[derive(Clone, Copy, Debug, PartialEq, Eq, Structural)]
pub enum ParserStackFrame {
    /// `( Expression )` primary; overflows first at depth 718.
    Parenthesized,
    /// `[ Element ]` array literal entry; overflows first at depth 743.
    ArrayLiteral,
    /// `{ Property }` object literal entry. `({a:...})` crosses a parenthesis
    /// and one of these per level and overflows first at depth 355; bare
    /// objects nested inside the first one do at 701.
    ObjectLiteral,
    /// Argument list entry of a call or construct (`f(`, `new F(`), once per
    /// list; overflows first at depth 743.
    CallArguments,
    /// Operand of a prefix unary `!`, `void`, `typeof` or `await`; overflows
    /// first at depth 9330.
    Unary,
    /// `Conditional ? consequent : alternate`; overflows first at depth 8164.
    Conditional,
    /// Every arrow function (`x =>`); concise chains overflow first at depth
    /// 4665.
    Arrow,
    /// What an arrow function with a block body costs beyond [`Self::Arrow`];
    /// `x => {` chains overflow first at depth 1420.
    ArrowBlockBody,
    /// Template substitution; overflows first at depth 635.
    Template,
    /// Head of an `if`, `while`, `do`, `with`, `for` or `switch` statement,
    /// without its body block. Heads without braces overflow first at depth
    /// 3438; a braced body adds [`Self::Block`] and they do at 1675.
    StatementHead,
    /// Block body entry (`{`), shared by blocks and `try` bodies; overflows
    /// first at depth 3266.
    Block,
    /// Function or generator body entry (`function f(){`); overflows first at
    /// depth 2613.
    FunctionBody,
    /// Bracket member access key `base[ Expression ]`; overflows first at
    /// depth 726.
    MemberAccess,
}

impl ParserStackFrame {
    /// The cost of one edge, in [`WEIGHT_SCALE`] units.
    pub open spec fn spec_weight(self) -> u64 {
        match self {
            ParserStackFrame::Parenthesized => 5_990_191,
            ParserStackFrame::ArrayLiteral => 5_788_365,
            ParserStackFrame::ObjectLiteral => 6_114_011,
            ParserStackFrame::CallArguments => 5_788_365,
            ParserStackFrame::Unary => 460_388,
            ParserStackFrame::Conditional => 526_150,
            ParserStackFrame::Arrow => 920_876,
            ParserStackFrame::ArrowBlockBody => 2_105_880,
            ParserStackFrame::Template => 6_774_396,
            ParserStackFrame::StatementHead => 1_249_264,
            ParserStackFrame::Block => 1_315_055,
            ParserStackFrame::FunctionBody => 1_644_321,
            ParserStackFrame::MemberAccess => 5_924_092,
        }
    }

    /// The cost of one edge, in [`WEIGHT_SCALE`] units.
    #[verifier::when_used_as_spec(spec_weight)]
    pub fn weight(self) -> (weight: u64)
        ensures
            weight == self.spec_weight(),
    {
        match self {
            ParserStackFrame::Parenthesized => 5_990_191,
            ParserStackFrame::ArrayLiteral => 5_788_365,
            ParserStackFrame::ObjectLiteral => 6_114_011,
            ParserStackFrame::CallArguments => 5_788_365,
            ParserStackFrame::Unary => 460_388,
            ParserStackFrame::Conditional => 526_150,
            ParserStackFrame::Arrow => 920_876,
            ParserStackFrame::ArrowBlockBody => 2_105_880,
            ParserStackFrame::Template => 6_774_396,
            ParserStackFrame::StatementHead => 1_249_264,
            ParserStackFrame::Block => 1_315_055,
            ParserStackFrame::FunctionBody => 1_644_321,
            ParserStackFrame::MemberAccess => 5_924_092,
        }
    }
}

} // verus!
