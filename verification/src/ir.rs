//! The indexed IR an obligation collector consumes: dense, append-only
//! tables whose small-integer indices double as identities.  Children
//! always sit at smaller indices than their parents, so one pass in
//! index order meets every dependency before its user.

use crate::id::Pos;
use vstd::prelude::*;

verus! {

/// Arithmetic operators of expressions.
#[derive(Clone, Copy, PartialEq, Eq, Structural, Debug)]
pub enum Op {
    /// Addition.
    Add,
    /// Subtraction.
    Sub,
    /// Multiplication.
    Mul,
    /// Integer division.
    Div,
    /// Remainder.
    Mod,
}

/// The primitive uninterpreted functions of the encoding.
#[derive(Clone, Copy, PartialEq, Eq, Structural, Debug)]
pub enum Func {
    /// Two to the power of the argument.
    Pow2,
    /// Base-two logarithm.
    Log2,
    /// Bounded sine.
    SinB,
    /// Bounded cosine.
    CosB,
}

/// An expression over parameters and concrete numbers.
#[allow(inconsistent_fields)]
pub enum Expr {
    /// A parameter, by index.
    Param(usize),
    /// A concrete number.
    Concrete(u64),
    /// A binary operation over earlier expressions.
    Bin {
        /// The operator.
        op: Op,
        /// Left operand, at a smaller index.
        lhs: usize,
        /// Right operand, at a smaller index.
        rhs: usize,
    },
    /// An application of a primitive function to earlier expressions.
    Fn {
        /// The function.
        op: Func,
        /// Arguments, at smaller indices.
        args: Vec<usize>,
    },
}

/// A time: an event advanced by an expression-valued offset.
pub struct Time {
    /// The event, by index.
    pub event: usize,
    /// The offset expression, by index.
    pub offset: usize,
}

/// Comparison operators of propositions.
#[derive(Clone, Copy, PartialEq, Eq, Structural, Debug)]
pub enum Cmp {
    /// Strictly greater.
    Gt,
    /// Greater or equal.
    Gte,
    /// Equal.
    Eq,
}

/// A comparison between two operands.
pub struct CmpOp<T> {
    /// The operator.
    pub op: Cmp,
    /// Left operand.
    pub lhs: T,
    /// Right operand.
    pub rhs: T,
}

/// Either a unit expression or a symbolic difference of two times.
pub enum TimeSub {
    /// A plain expression, by index.
    Unit(usize),
    /// The difference of two times.
    Sym {
        /// Minuend time, by index.
        l: usize,
        /// Subtrahend time, by index.
        r: usize,
    },
}

/// A proposition over expressions, times and earlier propositions.
pub enum Prop {
    /// Trivially true.
    True,
    /// Trivially false.
    False,
    /// A comparison of expressions.
    Cmp(CmpOp<usize>),
    /// A comparison of times.
    TimeCmp(CmpOp<usize>),
    /// A comparison of time differences.
    TimeSubCmp(CmpOp<TimeSub>),
    /// Negation of an earlier proposition.
    Not(usize),
    /// Conjunction of earlier propositions.
    And(usize, usize),
    /// Disjunction of earlier propositions.
    Or(usize, usize),
    /// Implication between earlier propositions.
    Implies(usize, usize),
}

/// Is a fact assumed or to be proved?
#[derive(Clone, Copy, PartialEq, Eq, Structural, Debug)]
pub enum FactKind {
    /// May be assumed.
    Assume,
    /// Must be proved.
    Assert,
}

/// A propositional fact with provenance.
#[derive(Clone, Copy, PartialEq, Eq, Structural, Debug)]
pub struct Fact {
    /// The proposition, by index.
    pub prop: usize,
    /// The reason record, by index into the info table.
    pub reason: usize,
    /// Assumed or asserted.
    pub kind: FactKind,
}

/// Provenance of a fact.
#[derive(Clone, Copy, PartialEq, Eq, Structural, Debug)]
pub enum Info {
    /// An assertion demanded at a source position.
    Assert(Pos),
    /// Nothing is known about who generated the fact.
    Unknown,
}

/// A command of the control program, as far as the collector cares.
pub enum IrCommand {
    /// A fact callback.
    Fact(Fact),
    /// A conditional with two scoped branches.
    If(IfCmd),
    /// A loop with a scoped body.
    Loop(LoopCmd),
}

/// A conditional's branches.
pub struct IfCmd {
    /// Commands of the then branch.
    pub then_cmds: Vec<IrCommand>,
    /// Commands of the else branch.
    pub alt_cmds: Vec<IrCommand>,
}

/// A loop body.
pub struct LoopCmd {
    /// Commands of the body.
    pub body: Vec<IrCommand>,
}

/// One component of the IR: dense tables and the control program.
/// The tables are populated during lowering; the collector treats them
/// as read-only.
pub struct Component {
    /// Display names of the parameters, by index.
    pub params: Vec<String>,
    /// Display names of the events, by index.
    pub events: Vec<String>,
    /// Expressions; children at smaller indices.
    pub exprs: Vec<Expr>,
    /// Times over events and expressions.
    pub times: Vec<Time>,
    /// Propositions; proposition children at smaller indices.
    pub props: Vec<Prop>,
    /// Provenance records.
    pub infos: Vec<Info>,
    /// The control program.
    pub cmds: Vec<IrCommand>,
}

/// An expression at index `i` only references parameters and earlier
/// expressions.
pub open spec fn expr_wf(e: Expr, i: int, n_params: int) -> bool {
    match e {
        Expr::Param(p) => (p as int) < n_params,
        Expr::Concrete(_) => true,
        Expr::Bin { op, lhs, rhs } => (lhs as int) < i && (rhs as int) < i,
        Expr::Fn { op, args } => forall|j: int|
            0 <= j < args@.len() ==> (#[trigger] args@[j] as int) < i,
    }
}

/// A proposition at index `i` only references declared expressions and
/// times, and earlier propositions.
pub open spec fn prop_wf(p: Prop, i: int, n_exprs: int, n_times: int) -> bool {
    match p {
        Prop::True => true,
        Prop::False => true,
        Prop::Cmp(c) => (c.lhs as int) < n_exprs && (c.rhs as int) < n_exprs,
        Prop::TimeCmp(c) => (c.lhs as int) < n_times && (c.rhs as int) < n_times,
        Prop::TimeSubCmp(c) => timesub_wf(c.lhs, n_exprs, n_times) && timesub_wf(
            c.rhs,
            n_exprs,
            n_times,
        ),
        Prop::Not(q) => (q as int) < i,
        Prop::And(l, r) => (l as int) < i && (r as int) < i,
        Prop::Or(l, r) => (l as int) < i && (r as int) < i,
        Prop::Implies(l, r) => (l as int) < i && (r as int) < i,
    }
}

/// A time difference only references declared expressions and times.
pub open spec fn timesub_wf(ts: TimeSub, n_exprs: int, n_times: int) -> bool {
    match ts {
        TimeSub::Unit(e) => (e as int) < n_exprs,
        TimeSub::Sym { l, r } => (l as int) < n_times && (r as int) < n_times,
    }
}

/// A fact references a declared proposition and info record.
pub open spec fn fact_wf(f: Fact, n_props: int, n_infos: int) -> bool {
    (f.prop as int) < n_props && (f.reason as int) < n_infos
}

/// Every fact in a command tree is declared.
pub open spec fn cmd_facts_wf(c: IrCommand, n_props: int, n_infos: int) -> bool
    decreases c,
{
    match c {
        IrCommand::Fact(f) => fact_wf(f, n_props, n_infos),
        IrCommand::If(x) => (forall|i: int|
            0 <= i < x.then_cmds@.len() ==> cmd_facts_wf(
                #[trigger] x.then_cmds@[i],
                n_props,
                n_infos,
            )) && (forall|i: int|
            0 <= i < x.alt_cmds@.len() ==> cmd_facts_wf(
                #[trigger] x.alt_cmds@[i],
                n_props,
                n_infos,
            )),
        IrCommand::Loop(x) => forall|i: int|
            0 <= i < x.body@.len() ==> cmd_facts_wf(#[trigger] x.body@[i], n_props, n_infos),
    }
}

impl Component {
    /// The arena invariant: every index in every table points below
    /// itself or into a fully declared table.
    pub open spec fn wf(&self) -> bool {
        &&& forall|i: int|
            0 <= i < self.exprs@.len() ==> expr_wf(
                #[trigger] self.exprs@[i],
                i,
                self.params@.len() as int,
            )
        &&& forall|i: int|
            0 <= i < self.times@.len() ==> (#[trigger] self.times@[i].event as int)
                < self.events@.len() && (self.times@[i].offset as int) < self.exprs@.len()
        &&& forall|i: int|
            0 <= i < self.props@.len() ==> prop_wf(
                #[trigger] self.props@[i],
                i,
                self.exprs@.len() as int,
                self.times@.len() as int,
            )
        &&& forall|i: int|
            0 <= i < self.cmds@.len() ==> cmd_facts_wf(
                #[trigger] self.cmds@[i],
                self.props@.len() as int,
                self.infos@.len() as int,
            )
    }
}

/// The consequent of a proposition: the right side of an implication,
/// otherwise the proposition itself.
pub open spec fn consequent_s(props: Seq<Prop>, i: int) -> int {
    match props[i] {
        Prop::Implies(_, r) => r as int,
        _ => i,
    }
}

/// No facts may appear inside a scoped construct once facts have been
/// hoisted; top-level facts must all be assertions.
pub open spec fn no_facts(cmds: Seq<IrCommand>, i: int) -> bool
    decreases cmds, cmds.len() - i,
{
    if i < 0 || i >= cmds.len() {
        true
    } else {
        (match cmds[i] {
            IrCommand::Fact(_) => false,
            IrCommand::If(x) => no_facts(x.then_cmds@, 0) && no_facts(x.alt_cmds@, 0),
            IrCommand::Loop(x) => no_facts(x.body@, 0),
        }) && no_facts(cmds, i + 1)
    }
}

/// The hoist-facts invariant: every fact sits at the top level and is
/// an assertion.
pub open spec fn hoisted(cmds: Seq<IrCommand>) -> bool {
    forall|i: int|
        0 <= i < cmds.len() ==> match #[trigger] cmds[i] {
            IrCommand::Fact(f) => f.kind is Assert,
            IrCommand::If(x) => no_facts(x.then_cmds@, 0) && no_facts(x.alt_cmds@, 0),
            IrCommand::Loop(x) => no_facts(x.body@, 0),
        }
}

/// The asserted facts at the top level, in order.
pub open spec fn top_facts(cmds: Seq<IrCommand>, i: int) -> Seq<Fact>
    decreases cmds.len() - i,
{
    if i < 0 || i >= cmds.len() {
        Seq::empty()
    } else {
        (match cmds[i] {
            IrCommand::Fact(f) => seq![f],
            _ => Seq::<Fact>::empty(),
        }) + top_facts(cmds, i + 1)
    }
}

} // verus!
