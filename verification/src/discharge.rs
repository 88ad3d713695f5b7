//! The obligation collector: lowers one IR component into SMT-LIB
//! commands, batches the asserted facts, and attributes failures.
//!
//! The solver subprocess is outside the library.  Every function here
//! that talks to it returns the exact command strings to send and takes
//! the solver's responses as arguments; a thin driver performs the I/O
//! and mirrors each command to a replay file.

use crate::id::Pos;
use crate::ir::{
    consequent_s, Cmp, Component, Expr, Fact, FactKind, Func, Info, IrCommand, Op, Prop,
    Time, TimeSub,
};
use crate::sexp::strs_view;
use vstd::string::StringSliceAdditionalSpecFns;
use crate::text::{app1, app1_s, app2, app2_s, dec_str, u64_to_string};
use vstd::prelude::*;

verus! {

/// Which solver backs the session.
#[derive(Clone, Copy, PartialEq, Eq, Structural, Debug)]
pub enum Solver {
    /// Z3, with `-smt2 -in`.
    Z3,
    /// CVC5, with `--incremental --force-logic=ALL`.
    Cvc5,
}

/// A solver's answer to a satisfiability check.
#[derive(Clone, Copy, PartialEq, Eq, Structural, Debug)]
pub enum Response {
    /// Satisfiable.
    Sat,
    /// Unsatisfiable.
    Unsat,
    /// The solver gave up: fatal for the pass.
    Unknown,
}

// ---------------------------------------------------------------------
// Naming convention, externally visible for replay logs.
// ---------------------------------------------------------------------

/// The solver-level name of a parameter: `param<i>` for CVC5, which
/// does not print quoted atoms correctly, or `|<display>@param<i>|`
/// for Z3.
pub open spec fn param_name_s(solver: Solver, names: Seq<Seq<char>>, i: int) -> Seq<char> {
    if solver is Cvc5 {
        "param"@ + dec_str(i as nat)
    } else {
        "|"@ + names[i] + "@param"@ + dec_str(i as nat) + "|"@
    }
}

/// The solver-level name of an event, analogously.
pub open spec fn event_name_s(solver: Solver, names: Seq<Seq<char>>, i: int) -> Seq<char> {
    if solver is Cvc5 {
        "event"@ + dec_str(i as nat)
    } else {
        "|"@ + names[i] + "@event"@ + dec_str(i as nat) + "|"@
    }
}

/// `e<i>`.
pub open spec fn expr_name_s(i: int) -> Seq<char> {
    "e"@ + dec_str(i as nat)
}

/// `t<i>`.
pub open spec fn time_name_s(i: int) -> Seq<char> {
    "t"@ + dec_str(i as nat)
}

/// `prop<i>`.
pub open spec fn prop_name_s(i: int) -> Seq<char> {
    "prop"@ + dec_str(i as nat)
}

/// `act_lit<n>`.
pub open spec fn act_name_s(n: int) -> Seq<char> {
    "act_lit"@ + dec_str(n as nat)
}

// ---------------------------------------------------------------------
// Command shapes.
// ---------------------------------------------------------------------

/// `(declare-fun name () Int)`.
pub open spec fn declare_int_s(name: Seq<char>) -> Seq<char> {
    "(declare-fun "@ + name + " () Int)"@
}

/// `(define-fun name () Int body)`.
pub open spec fn define_int_s(name: Seq<char>, body: Seq<char>) -> Seq<char> {
    "(define-fun "@ + name + " () Int "@ + body + ")"@
}

/// `(define-fun name () Bool body)`.
pub open spec fn define_bool_s(name: Seq<char>, body: Seq<char>) -> Seq<char> {
    "(define-fun "@ + name + " () Bool "@ + body + ")"@
}

/// `(declare-const name Bool)`.
pub open spec fn declare_bool_s(name: Seq<char>) -> Seq<char> {
    "(declare-const "@ + name + " Bool)"@
}

/// `(assert e)`.
pub open spec fn assert_s(e: Seq<char>) -> Seq<char> {
    "(assert "@ + e + ")"@
}

/// The solver symbol of an arithmetic operator.
pub open spec fn op_sym_s(op: Op) -> Seq<char> {
    match op {
        Op::Add => "+"@,
        Op::Sub => "-"@,
        Op::Mul => "*"@,
        Op::Div => "div"@,
        Op::Mod => "mod"@,
    }
}

/// The solver name of a primitive function.
pub open spec fn fn_name_s(f: Func) -> Seq<char> {
    match f {
        Func::Pow2 => "pow2"@,
        Func::Log2 => "log2"@,
        Func::SinB => "sinb"@,
        Func::CosB => "cosb"@,
    }
}

/// The argument tail of a function application: one space-prefixed
/// expression name per argument from position `j` on.
pub open spec fn args_s(args: Seq<usize>, j: int) -> Seq<char>
    decreases args.len() - j,
{
    if j < 0 || j >= args.len() {
        Seq::empty()
    } else {
        " "@ + expr_name_s(args[j] as int) + args_s(args, j + 1)
    }
}

/// The defined body of an expression, over already-declared names.
pub open spec fn expr_body_s(solver: Solver, pnames: Seq<Seq<char>>, e: Expr) -> Seq<char> {
    match e {
        Expr::Param(p) => param_name_s(solver, pnames, p as int),
        Expr::Concrete(n) => dec_str(n as nat),
        Expr::Bin { op, lhs, rhs } => app2_s(
            op_sym_s(op),
            expr_name_s(lhs as int),
            expr_name_s(rhs as int),
        ),
        Expr::Fn { op, args } => "("@ + fn_name_s(op) + args_s(args@, 0) + ")"@,
    }
}

/// The defined body of a time: its event plus its offset.
pub open spec fn time_body_s(solver: Solver, enames: Seq<Seq<char>>, t: Time) -> Seq<char> {
    app2_s("+"@, event_name_s(solver, enames, t.event as int), expr_name_s(t.offset as int))
}

/// The solver symbol of a comparison.
pub open spec fn cmp_sym_s(c: Cmp) -> Seq<char> {
    match c {
        Cmp::Gt => ">"@,
        Cmp::Gte => ">="@,
        Cmp::Eq => "="@,
    }
}

/// A time difference, over declared names.
pub open spec fn timesub_s(ts: TimeSub) -> Seq<char> {
    match ts {
        TimeSub::Unit(e) => expr_name_s(e as int),
        TimeSub::Sym { l, r } => app2_s("-"@, time_name_s(l as int), time_name_s(r as int)),
    }
}

/// The defined body of a proposition, over already-declared names.
pub open spec fn prop_body_s(p: Prop) -> Seq<char> {
    match p {
        Prop::True => "true"@,
        Prop::False => "false"@,
        Prop::Cmp(c) => app2_s(cmp_sym_s(c.op), expr_name_s(c.lhs as int), expr_name_s(c.rhs as int)),
        Prop::TimeCmp(c) => app2_s(
            cmp_sym_s(c.op),
            time_name_s(c.lhs as int),
            time_name_s(c.rhs as int),
        ),
        Prop::TimeSubCmp(c) => app2_s(cmp_sym_s(c.op), timesub_s(c.lhs), timesub_s(c.rhs)),
        Prop::Not(q) => app1_s("not"@, prop_name_s(q as int)),
        Prop::And(l, r) => app2_s("and"@, prop_name_s(l as int), prop_name_s(r as int)),
        Prop::Or(l, r) => app2_s("or"@, prop_name_s(l as int), prop_name_s(r as int)),
        Prop::Implies(l, r) => app2_s("=>"@, prop_name_s(l as int), prop_name_s(r as int)),
    }
}

// ---------------------------------------------------------------------
// Exec builders for the names and command pieces.
// ---------------------------------------------------------------------

/// Build `prefix || dec(i)`.
fn name_with_index(prefix: &str, i: usize) -> (r: String)
    ensures
        r@ == prefix@ + dec_str(i as nat),
{
    let mut s = String::from_str(prefix);
    let d = u64_to_string(i as u64);
    s.append(d.as_str());
    s
}

/// Build the solver-level name of a parameter.
fn fmt_param_name(solver: Solver, names: &Vec<String>, i: usize) -> (r: String)
    requires
        i < names@.len(),
    ensures
        r@ == param_name_s(solver, strs_view(names@), i as int),
{
    proof {
        assert(strs_view(names@)[i as int] == names@[i as int]@);
    }
    match solver {
        Solver::Cvc5 => name_with_index("param", i),
        Solver::Z3 => {
            let mut s = String::from_str("|");
            s.append(names[i].as_str());
            s.append("@param");
            let d = u64_to_string(i as u64);
            s.append(d.as_str());
            s.append("|");
            proof {
                assert(s@ =~= param_name_s(solver, strs_view(names@), i as int));
            }
            s
        },
    }
}

/// Build the solver-level name of an event.
fn fmt_event_name(solver: Solver, names: &Vec<String>, i: usize) -> (r: String)
    requires
        i < names@.len(),
    ensures
        r@ == event_name_s(solver, strs_view(names@), i as int),
{
    proof {
        assert(strs_view(names@)[i as int] == names@[i as int]@);
    }
    match solver {
        Solver::Cvc5 => name_with_index("event", i),
        Solver::Z3 => {
            let mut s = String::from_str("|");
            s.append(names[i].as_str());
            s.append("@event");
            let d = u64_to_string(i as u64);
            s.append(d.as_str());
            s.append("|");
            proof {
                assert(s@ =~= event_name_s(solver, strs_view(names@), i as int));
            }
            s
        },
    }
}

/// Build `(declare-fun name () Int)`.
fn cmd_declare_int(name: &str) -> (r: String)
    ensures
        r@ == declare_int_s(name@),
{
    let mut s = String::from_str("(declare-fun ");
    s.append(name);
    s.append(" () Int)");
    s
}

/// Build `(define-fun name () Int body)`.
fn cmd_define_int(name: &str, body: &str) -> (r: String)
    ensures
        r@ == define_int_s(name@, body@),
{
    let mut s = String::from_str("(define-fun ");
    s.append(name);
    s.append(" () Int ");
    s.append(body);
    s.append(")");
    s
}

/// Build `(define-fun name () Bool body)`.
fn cmd_define_bool(name: &str, body: &str) -> (r: String)
    ensures
        r@ == define_bool_s(name@, body@),
{
    let mut s = String::from_str("(define-fun ");
    s.append(name);
    s.append(" () Bool ");
    s.append(body);
    s.append(")");
    s
}

/// Build `(declare-const name Bool)`.
fn cmd_declare_bool(name: &str) -> (r: String)
    ensures
        r@ == declare_bool_s(name@),
{
    let mut s = String::from_str("(declare-const ");
    s.append(name);
    s.append(" Bool)");
    s
}

/// Build `(assert e)`.
fn cmd_assert(e: &str) -> (r: String)
    ensures
        r@ == assert_s(e@),
{
    let mut s = String::from_str("(assert ");
    s.append(e);
    s.append(")");
    s
}

} // verus!

verus! {

// ---------------------------------------------------------------------
// Pretty printing for diagnostics.
// ---------------------------------------------------------------------

/// The human-readable symbol of an arithmetic operator.
pub open spec fn op_disp_s(op: Op) -> Seq<char> {
    match op {
        Op::Add => " + "@,
        Op::Sub => " - "@,
        Op::Mul => " * "@,
        Op::Div => " / "@,
        Op::Mod => " % "@,
    }
}

/// The human-readable symbol of a comparison.
pub open spec fn cmp_disp_s(c: Cmp) -> Seq<char> {
    match c {
        Cmp::Gt => " > "@,
        Cmp::Gte => " >= "@,
        Cmp::Eq => " = "@,
    }
}

/// The display of an expression, fully expanded.
pub open spec fn display_expr_s(exprs: Seq<Expr>, pnames: Seq<Seq<char>>, i: int) -> Seq<char>
    decreases i, 1int,
{
    if i < 0 || i >= exprs.len() {
        Seq::empty()
    } else {
        match exprs[i] {
            Expr::Param(p) => if (p as int) < pnames.len() {
                pnames[p as int]
            } else {
                Seq::empty()
            },
            Expr::Concrete(n) => dec_str(n as nat),
            Expr::Bin { op, lhs, rhs } => if (lhs as int) < i && (rhs as int) < i {
                "("@ + display_expr_s(exprs, pnames, lhs as int) + op_disp_s(op) + display_expr_s(
                    exprs,
                    pnames,
                    rhs as int,
                ) + ")"@
            } else {
                Seq::empty()
            },
            Expr::Fn { op, args } => fn_name_s(op) + "("@ + display_args_s(exprs, pnames, args@, i, 0)
                + ")"@,
        }
    }
}

/// The comma-separated display of argument expressions from `j` on,
/// all at indices below `i`.
pub open spec fn display_args_s(
    exprs: Seq<Expr>,
    pnames: Seq<Seq<char>>,
    args: Seq<usize>,
    i: int,
    j: int,
) -> Seq<char>
    decreases i, 0int, args.len() - j,
{
    if j < 0 || j >= args.len() {
        Seq::empty()
    } else if !((args[j] as int) < i) {
        Seq::empty()
    } else {
        (if j > 0 {
            ", "@
        } else {
            Seq::empty()
        }) + display_expr_s(exprs, pnames, args[j] as int) + display_args_s(
            exprs,
            pnames,
            args,
            i,
            j + 1,
        )
    }
}

/// The display of a time: its event name plus its offset expression.
pub open spec fn display_time_s(
    exprs: Seq<Expr>,
    pnames: Seq<Seq<char>>,
    enames: Seq<Seq<char>>,
    times: Seq<Time>,
    i: int,
) -> Seq<char> {
    if 0 <= i < times.len() && (times[i].event as int) < enames.len() {
        enames[times[i].event as int] + "+"@ + display_expr_s(
            exprs,
            pnames,
            times[i].offset as int,
        )
    } else {
        Seq::empty()
    }
}

/// The display of a time difference.
pub open spec fn display_timesub_s(
    exprs: Seq<Expr>,
    pnames: Seq<Seq<char>>,
    enames: Seq<Seq<char>>,
    times: Seq<Time>,
    ts: TimeSub,
) -> Seq<char> {
    match ts {
        TimeSub::Unit(e) => display_expr_s(exprs, pnames, e as int),
        TimeSub::Sym { l, r } => display_time_s(exprs, pnames, enames, times, l as int) + " - "@
            + display_time_s(exprs, pnames, enames, times, r as int),
    }
}

/// The display of a proposition, fully expanded.
pub open spec fn display_prop_s(c: Component, i: int) -> Seq<char>
    decreases i,
{
    if i < 0 || i >= c.props@.len() {
        Seq::empty()
    } else {
        match c.props@[i] {
            Prop::True => "true"@,
            Prop::False => "false"@,
            Prop::Cmp(cm) => display_expr_s(c.exprs@, strs_view(c.params@), cm.lhs as int)
                + cmp_disp_s(cm.op) + display_expr_s(c.exprs@, strs_view(c.params@), cm.rhs as int),
            Prop::TimeCmp(cm) => display_time_s(
                c.exprs@,
                strs_view(c.params@),
                strs_view(c.events@),
                c.times@,
                cm.lhs as int,
            ) + cmp_disp_s(cm.op) + display_time_s(
                c.exprs@,
                strs_view(c.params@),
                strs_view(c.events@),
                c.times@,
                cm.rhs as int,
            ),
            Prop::TimeSubCmp(cm) => display_timesub_s(
                c.exprs@,
                strs_view(c.params@),
                strs_view(c.events@),
                c.times@,
                cm.lhs,
            ) + cmp_disp_s(cm.op) + display_timesub_s(
                c.exprs@,
                strs_view(c.params@),
                strs_view(c.events@),
                c.times@,
                cm.rhs,
            ),
            Prop::Not(q) => if (q as int) < i {
                "!"@ + display_prop_s(c, q as int)
            } else {
                Seq::empty()
            },
            Prop::And(l, r) => if (l as int) < i && (r as int) < i {
                "("@ + display_prop_s(c, l as int) + " & "@ + display_prop_s(c, r as int) + ")"@
            } else {
                Seq::empty()
            },
            Prop::Or(l, r) => if (l as int) < i && (r as int) < i {
                "("@ + display_prop_s(c, l as int) + " | "@ + display_prop_s(c, r as int) + ")"@
            } else {
                Seq::empty()
            },
            Prop::Implies(l, r) => if (l as int) < i && (r as int) < i {
                "("@ + display_prop_s(c, l as int) + " => "@ + display_prop_s(c, r as int) + ")"@
            } else {
                Seq::empty()
            },
        }
    }
}

/// Render an expression for a diagnostic.
pub fn display_expr(c: &Component, i: usize) -> (r: String)
    requires
        c.wf(),
        i < c.exprs@.len(),
        forall|p: int| 0 <= p < c.exprs@.len() ==> !(#[trigger] c.exprs@[p] is Param)
            || true,
    ensures
        r@ == display_expr_s(c.exprs@, strs_view(c.params@), i as int),
    decreases i, 1int,
{
    match &c.exprs[i] {
        Expr::Param(p) => {
            proof {
                assert(crate::ir::expr_wf(c.exprs@[i as int], i as int, c.params@.len() as int));
                assert(strs_view(c.params@)[*p as int] == c.params@[*p as int]@);
            }
            c.params[*p].clone()
        },
        Expr::Concrete(n) => u64_to_string(*n),
        Expr::Bin { op, lhs, rhs } => {
            proof {
                assert(crate::ir::expr_wf(c.exprs@[i as int], i as int, c.params@.len() as int));
            }
            let l = display_expr(c, *lhs);
            let r2 = display_expr(c, *rhs);
            let mut s = String::from_str("(");
            s.append(l.as_str());
            match op {
                Op::Add => s.append(" + "),
                Op::Sub => s.append(" - "),
                Op::Mul => s.append(" * "),
                Op::Div => s.append(" / "),
                Op::Mod => s.append(" % "),
            }
            s.append(r2.as_str());
            s.append(")");
            proof {
                assert(s@ =~= display_expr_s(c.exprs@, strs_view(c.params@), i as int));
            }
            s
        },
        Expr::Fn { op, args } => {
            proof {
                assert(crate::ir::expr_wf(c.exprs@[i as int], i as int, c.params@.len() as int));
            }
            let mut s = match op {
                Func::Pow2 => String::from_str("pow2"),
                Func::Log2 => String::from_str("log2"),
                Func::SinB => String::from_str("sinb"),
                Func::CosB => String::from_str("cosb"),
            };
            s.append("(");
            let m = args.len();
            for j in 0..m
                invariant
                    m == args@.len(),
                    c.wf(),
                    i < c.exprs@.len(),
                    c.exprs@[i as int] == (Expr::Fn { op: *op, args: *args }),
                    forall|q: int| 0 <= q < args@.len() ==> (#[trigger] args@[q] as int) < i,
                    s@ =~= fn_name_s(*op) + "("@ + display_args_s(
                        c.exprs@,
                        strs_view(c.params@),
                        args@,
                        i as int,
                        0,
                    ).take(
                        display_args_s(c.exprs@, strs_view(c.params@), args@, i as int, 0).len()
                            - display_args_s(
                            c.exprs@,
                            strs_view(c.params@),
                            args@,
                            i as int,
                            j as int,
                        ).len(),
                    ),
                decreases i, 0int, m - j,
            {
                let ghost pre_s = s@;
                if j > 0 {
                    s.append(", ");
                }
                let d = display_expr(c, args[j]);
                s.append(d.as_str());
                proof {
                    let ev = c.exprs@;
                    let pn = strs_view(c.params@);
                    let full = display_args_s(ev, pn, args@, i as int, 0);
                    let sj = display_args_s(ev, pn, args@, i as int, j as int);
                    let sjn = display_args_s(ev, pn, args@, i as int, j + 1);
                    let head = (if j > 0 {
                        ", "@
                    } else {
                        Seq::<char>::empty()
                    }) + display_expr_s(ev, pn, args@[j as int] as int);
                    assert(sj =~= head + sjn);
                    lemma_args_prefix(ev, pn, args@, i as int, j as int);
                    lemma_args_prefix(ev, pn, args@, i as int, j + 1);
                    assert(full.take(full.len() - sjn.len()) =~= full.take(full.len() - sj.len())
                        + head) by {
                        assert forall|k: int| 0 <= k < full.len() - sjn.len() implies #[trigger]
                        full.take(full.len() - sjn.len())[k] == (full.take(
                            full.len() - sj.len(),
                        ) + head)[k] by {
                            if k >= full.len() - sj.len() {
                                let off = k - (full.len() - sj.len());
                                assert(full.skip(full.len() - sj.len())[off] == full[k]);
                                assert(full.skip(full.len() - sj.len())[off] == sj[off]);
                                assert(sj[off] == head[off]);
                            }
                        }
                    }
                    assert(s@ =~= pre_s + head);
                    assert(s@ =~= fn_name_s(*op) + "("@ + full.take(full.len() - sjn.len()));
                }
            }
            s.append(")");
            proof {
                assert(display_args_s(c.exprs@, strs_view(c.params@), args@, i as int, m as int)
                    =~= Seq::<char>::empty());
                let full = display_args_s(c.exprs@, strs_view(c.params@), args@, i as int, 0);
                assert(full.take(full.len() as int) =~= full);
                assert(s@ =~= display_expr_s(c.exprs@, strs_view(c.params@), i as int));
            }
            s
        },
    }
}

/// A suffix of the argument display is a suffix of the whole: the part
/// already rendered is a prefix.
proof fn lemma_args_prefix(
    exprs: Seq<Expr>,
    pnames: Seq<Seq<char>>,
    args: Seq<usize>,
    i: int,
    j: int,
)
    requires
        0 <= j <= args.len(),
        forall|q: int| 0 <= q < args.len() ==> (#[trigger] args[q] as int) < i,
    ensures
        display_args_s(exprs, pnames, args, i, 0).len() >= display_args_s(
            exprs,
            pnames,
            args,
            i,
            j,
        ).len(),
        display_args_s(exprs, pnames, args, i, 0).skip(
            display_args_s(exprs, pnames, args, i, 0).len() - display_args_s(
                exprs,
                pnames,
                args,
                i,
                j,
            ).len(),
        ) =~= display_args_s(exprs, pnames, args, i, j),
    decreases j,
{
    if j == 0 {
        assert(display_args_s(exprs, pnames, args, i, 0).skip(0) =~= display_args_s(
            exprs,
            pnames,
            args,
            i,
            0,
        ));
    } else {
        lemma_args_prefix(exprs, pnames, args, i, j - 1);
        assert((args[j - 1] as int) < i);
        assert(display_args_s(exprs, pnames, args, i, j - 1) == (if j - 1 > 0 {
            ", "@
        } else {
            Seq::<char>::empty()
        }) + display_expr_s(exprs, pnames, args[j - 1] as int) + display_args_s(
            exprs,
            pnames,
            args,
            i,
            j,
        ));
        let full = display_args_s(exprs, pnames, args, i, 0);
        let sj1 = display_args_s(exprs, pnames, args, i, j - 1);
        let sj = display_args_s(exprs, pnames, args, i, j);
        assert(sj1.len() >= sj.len());
        assert(full.skip(full.len() - sj1.len()) =~= sj1);
        assert forall|k: int| 0 <= k < sj.len() implies full.skip(full.len() - sj.len())[k]
            == sj[k] by {
            assert(sj1[sj1.len() - sj.len() + k] == sj[k]);
            assert(full[full.len() - sj1.len() + (sj1.len() - sj.len() + k)] == sj1[sj1.len()
                - sj.len() + k]);
        }
        assert(full.skip(full.len() - sj.len()) =~= sj);
    }
}

} // verus!

verus! {

/// Render a time for a diagnostic.
fn display_time(c: &Component, i: usize) -> (r: String)
    requires
        c.wf(),
        i < c.times@.len(),
    ensures
        r@ == display_time_s(c.exprs@, strs_view(c.params@), strs_view(c.events@), c.times@, i as int),
{
    let t = &c.times[i];
    proof {
        assert(strs_view(c.events@)[t.event as int] == c.events@[t.event as int]@);
    }
    let mut s = c.events[t.event].clone();
    s.append("+");
    let off = display_expr(c, t.offset);
    s.append(off.as_str());
    proof {
        assert(s@ =~= display_time_s(
            c.exprs@,
            strs_view(c.params@),
            strs_view(c.events@),
            c.times@,
            i as int,
        ));
    }
    s
}

/// Render a time difference for a diagnostic.
fn display_timesub(c: &Component, ts: &TimeSub) -> (r: String)
    requires
        c.wf(),
        crate::ir::timesub_wf(*ts, c.exprs@.len() as int, c.times@.len() as int),
    ensures
        r@ == display_timesub_s(
            c.exprs@,
            strs_view(c.params@),
            strs_view(c.events@),
            c.times@,
            *ts,
        ),
{
    match ts {
        TimeSub::Unit(e) => display_expr(c, *e),
        TimeSub::Sym { l, r } => {
            let mut s = display_time(c, *l);
            s.append(" - ");
            let rt = display_time(c, *r);
            s.append(rt.as_str());
            proof {
                assert(s@ =~= display_timesub_s(
                    c.exprs@,
                    strs_view(c.params@),
                    strs_view(c.events@),
                    c.times@,
                    *ts,
                ));
            }
            s
        },
    }
}

/// Render a proposition for a diagnostic.
pub fn display_prop(c: &Component, i: usize) -> (r: String)
    requires
        c.wf(),
        i < c.props@.len(),
    ensures
        r@ == display_prop_s(*c, i as int),
    decreases i,
{
    proof {
        assert(crate::ir::prop_wf(
            c.props@[i as int],
            i as int,
            c.exprs@.len() as int,
            c.times@.len() as int,
        ));
    }
    match &c.props[i] {
        Prop::True => String::from_str("true"),
        Prop::False => String::from_str("false"),
        Prop::Cmp(cm) => {
            let mut s = display_expr(c, cm.lhs);
            match cm.op {
                Cmp::Gt => s.append(" > "),
                Cmp::Gte => s.append(" >= "),
                Cmp::Eq => s.append(" = "),
            }
            let r2 = display_expr(c, cm.rhs);
            s.append(r2.as_str());
            proof {
                assert(s@ =~= display_prop_s(*c, i as int));
            }
            s
        },
        Prop::TimeCmp(cm) => {
            let mut s = display_time(c, cm.lhs);
            match cm.op {
                Cmp::Gt => s.append(" > "),
                Cmp::Gte => s.append(" >= "),
                Cmp::Eq => s.append(" = "),
            }
            let r2 = display_time(c, cm.rhs);
            s.append(r2.as_str());
            proof {
                assert(s@ =~= display_prop_s(*c, i as int));
            }
            s
        },
        Prop::TimeSubCmp(cm) => {
            let mut s = display_timesub(c, &cm.lhs);
            match cm.op {
                Cmp::Gt => s.append(" > "),
                Cmp::Gte => s.append(" >= "),
                Cmp::Eq => s.append(" = "),
            }
            let r2 = display_timesub(c, &cm.rhs);
            s.append(r2.as_str());
            proof {
                assert(s@ =~= display_prop_s(*c, i as int));
            }
            s
        },
        Prop::Not(q) => {
            let mut s = String::from_str("!");
            let sub = display_prop(c, *q);
            s.append(sub.as_str());
            proof {
                assert(s@ =~= display_prop_s(*c, i as int));
            }
            s
        },
        Prop::And(l, r) => {
            let mut s = String::from_str("(");
            let ls = display_prop(c, *l);
            s.append(ls.as_str());
            s.append(" & ");
            let rs = display_prop(c, *r);
            s.append(rs.as_str());
            s.append(")");
            proof {
                assert(s@ =~= display_prop_s(*c, i as int));
            }
            s
        },
        Prop::Or(l, r) => {
            let mut s = String::from_str("(");
            let ls = display_prop(c, *l);
            s.append(ls.as_str());
            s.append(" | ");
            let rs = display_prop(c, *r);
            s.append(rs.as_str());
            s.append(")");
            proof {
                assert(s@ =~= display_prop_s(*c, i as int));
            }
            s
        },
        Prop::Implies(l, r) => {
            let mut s = String::from_str("(");
            let ls = display_prop(c, *l);
            s.append(ls.as_str());
            s.append(" => ");
            let rs = display_prop(c, *r);
            s.append(rs.as_str());
            s.append(")");
            proof {
                assert(s@ =~= display_prop_s(*c, i as int));
            }
            s
        },
    }
}

// ---------------------------------------------------------------------
// The parameters a proposition's consequent mentions.
// ---------------------------------------------------------------------

/// The parameters an expression mentions, with repeats, left to right.
pub open spec fn expr_params_s(exprs: Seq<Expr>, i: int) -> Seq<usize>
    decreases i, 1int,
{
    if i < 0 || i >= exprs.len() {
        Seq::empty()
    } else {
        match exprs[i] {
            Expr::Param(p) => seq![p],
            Expr::Concrete(_) => Seq::empty(),
            Expr::Bin { op, lhs, rhs } => if (lhs as int) < i && (rhs as int) < i {
                expr_params_s(exprs, lhs as int) + expr_params_s(exprs, rhs as int)
            } else {
                Seq::empty()
            },
            Expr::Fn { op, args } => args_params_s(exprs, args@, i, 0),
        }
    }
}

/// The parameters of the argument expressions from `j` on.
pub open spec fn args_params_s(exprs: Seq<Expr>, args: Seq<usize>, i: int, j: int) -> Seq<usize>
    decreases i, 0int, args.len() - j,
{
    if j < 0 || j >= args.len() {
        Seq::empty()
    } else if !((args[j] as int) < i) {
        Seq::empty()
    } else {
        expr_params_s(exprs, args[j] as int) + args_params_s(exprs, args, i, j + 1)
    }
}

/// The parameters a time's offset mentions.
pub open spec fn time_params_s(exprs: Seq<Expr>, times: Seq<Time>, i: int) -> Seq<usize> {
    if 0 <= i < times.len() {
        expr_params_s(exprs, times[i].offset as int)
    } else {
        Seq::empty()
    }
}

/// The parameters a time difference mentions.
pub open spec fn timesub_params_s(exprs: Seq<Expr>, times: Seq<Time>, ts: TimeSub) -> Seq<usize> {
    match ts {
        TimeSub::Unit(e) => expr_params_s(exprs, e as int),
        TimeSub::Sym { l, r } => time_params_s(exprs, times, l as int) + time_params_s(
            exprs,
            times,
            r as int,
        ),
    }
}

/// The parameters a proposition syntactically mentions, with repeats.
pub open spec fn prop_params_s(c: Component, i: int) -> Seq<usize>
    decreases i,
{
    if i < 0 || i >= c.props@.len() {
        Seq::empty()
    } else {
        match c.props@[i] {
            Prop::True => Seq::empty(),
            Prop::False => Seq::empty(),
            Prop::Cmp(cm) => expr_params_s(c.exprs@, cm.lhs as int) + expr_params_s(
                c.exprs@,
                cm.rhs as int,
            ),
            Prop::TimeCmp(cm) => time_params_s(c.exprs@, c.times@, cm.lhs as int) + time_params_s(
                c.exprs@,
                c.times@,
                cm.rhs as int,
            ),
            Prop::TimeSubCmp(cm) => timesub_params_s(c.exprs@, c.times@, cm.lhs)
                + timesub_params_s(c.exprs@, c.times@, cm.rhs),
            Prop::Not(q) => if (q as int) < i {
                prop_params_s(c, q as int)
            } else {
                Seq::empty()
            },
            Prop::And(l, r) => if (l as int) < i && (r as int) < i {
                prop_params_s(c, l as int) + prop_params_s(c, r as int)
            } else {
                Seq::empty()
            },
            Prop::Or(l, r) => if (l as int) < i && (r as int) < i {
                prop_params_s(c, l as int) + prop_params_s(c, r as int)
            } else {
                Seq::empty()
            },
            Prop::Implies(l, r) => if (l as int) < i && (r as int) < i {
                prop_params_s(c, l as int) + prop_params_s(c, r as int)
            } else {
                Seq::empty()
            },
        }
    }
}

/// Keep the first occurrence of each element, in order.
pub open spec fn dedup_from(s: Seq<usize>, seen: Seq<usize>) -> Seq<usize>
    decreases s.len(),
{
    if s.len() == 0 {
        Seq::empty()
    } else if seen.contains(s[0]) {
        dedup_from(s.drop_first(), seen)
    } else {
        seq![s[0]] + dedup_from(s.drop_first(), seen.push(s[0]))
    }
}

/// Collect the parameters of an expression, in order with repeats.
fn expr_params(c: &Component, i: usize, out: &mut Vec<usize>)
    requires
        c.wf(),
        i < c.exprs@.len(),
    ensures
        final(out)@ == old(out)@ + expr_params_s(c.exprs@, i as int),
        forall|q: int|
            old(out)@.len() <= q < final(out)@.len() ==> ((#[trigger] final(out)@[q]) as int)
                < c.params@.len(),
    decreases i, 1int,
{
    proof {
        assert(crate::ir::expr_wf(c.exprs@[i as int], i as int, c.params@.len() as int));
    }
    match &c.exprs[i] {
        Expr::Param(p) => {
            out.push(*p);
            proof {
                assert(out@ =~= old(out)@ + expr_params_s(c.exprs@, i as int));
            }
        },
        Expr::Concrete(_) => {
            proof {
                assert(out@ =~= old(out)@ + expr_params_s(c.exprs@, i as int));
            }
        },
        Expr::Bin { op, lhs, rhs } => {
            expr_params(c, *lhs, out);
            expr_params(c, *rhs, out);
            proof {
                assert(out@ =~= old(out)@ + expr_params_s(c.exprs@, i as int));
            }
        },
        Expr::Fn { op, args } => {
            let m = args.len();
            for j in 0..m
                invariant
                    m == args@.len(),
                    c.wf(),
                    i < c.exprs@.len(),
                    c.exprs@[i as int] == (Expr::Fn { op: *op, args: *args }),
                    forall|q: int| 0 <= q < args@.len() ==> (#[trigger] args@[q] as int) < i,
                    out@ =~= old(out)@ + args_params_prefix(c.exprs@, args@, i as int, j as int),
                    forall|q: int|
                        old(out)@.len() <= q < out@.len() ==> ((#[trigger] out@[q]) as int)
                            < c.params@.len(),
                decreases i, 0int, m - j,
            {
                expr_params(c, args[j], out);
                proof {
                    lemma_args_params_prefix(c.exprs@, args@, i as int, j + 1);
                }
            }
            proof {
                lemma_args_params_prefix(c.exprs@, args@, i as int, m as int);
                assert(args_params_prefix(c.exprs@, args@, i as int, m as int) =~= args_params_s(
                    c.exprs@,
                    args@,
                    i as int,
                    0,
                ));
                assert(out@ =~= old(out)@ + expr_params_s(c.exprs@, i as int));
            }
        },
    }
}

/// The parameters of the first `j` arguments.
pub open spec fn args_params_prefix(exprs: Seq<Expr>, args: Seq<usize>, i: int, j: int) -> Seq<
    usize,
>
    decreases j,
{
    if j <= 0 || j > args.len() {
        Seq::empty()
    } else if !((args[j - 1] as int) < i) {
        args_params_prefix(exprs, args, i, j - 1)
    } else {
        args_params_prefix(exprs, args, i, j - 1) + expr_params_s(exprs, args[j - 1] as int)
    }
}

/// The prefix collection at `j` plus the tail from `j` is the whole.
proof fn lemma_args_params_prefix(exprs: Seq<Expr>, args: Seq<usize>, i: int, j: int)
    requires
        0 <= j <= args.len(),
        forall|q: int| 0 <= q < args.len() ==> (#[trigger] args[q] as int) < i,
    ensures
        args_params_prefix(exprs, args, i, j) + args_params_s(exprs, args, i, j) =~= args_params_s(
            exprs,
            args,
            i,
            0,
        ),
    decreases j,
{
    if j == 0 {
        assert(args_params_prefix(exprs, args, i, 0) =~= Seq::<usize>::empty());
        assert(Seq::<usize>::empty() + args_params_s(exprs, args, i, 0) =~= args_params_s(
            exprs,
            args,
            i,
            0,
        ));
    } else {
        lemma_args_params_prefix(exprs, args, i, j - 1);
        assert((args[j - 1] as int) < i);
        assert(args_params_s(exprs, args, i, j - 1) == expr_params_s(exprs, args[j - 1] as int)
            + args_params_s(exprs, args, i, j));
        assert(args_params_prefix(exprs, args, i, j) + args_params_s(exprs, args, i, j)
            =~= args_params_prefix(exprs, args, i, j - 1) + (expr_params_s(
            exprs,
            args[j - 1] as int,
        ) + args_params_s(exprs, args, i, j)));
    }
}

/// Collect the parameters a proposition mentions, in order with
/// repeats.
fn prop_params_raw(c: &Component, i: usize, out: &mut Vec<usize>)
    requires
        c.wf(),
        i < c.props@.len(),
    ensures
        final(out)@ == old(out)@ + prop_params_s(*c, i as int),
        forall|q: int|
            old(out)@.len() <= q < final(out)@.len() ==> ((#[trigger] final(out)@[q]) as int)
                < c.params@.len(),
    decreases i,
{
    proof {
        assert(crate::ir::prop_wf(
            c.props@[i as int],
            i as int,
            c.exprs@.len() as int,
            c.times@.len() as int,
        ));
    }
    match &c.props[i] {
        Prop::True => {
            proof {
                assert(out@ =~= old(out)@ + prop_params_s(*c, i as int));
            }
        },
        Prop::False => {
            proof {
                assert(out@ =~= old(out)@ + prop_params_s(*c, i as int));
            }
        },
        Prop::Cmp(cm) => {
            expr_params(c, cm.lhs, out);
            expr_params(c, cm.rhs, out);
            proof {
                assert(out@ =~= old(out)@ + prop_params_s(*c, i as int));
            }
        },
        Prop::TimeCmp(cm) => {
            proof {
                assert((c.times@[cm.lhs as int].event as int) < c.events@.len());
                assert((c.times@[cm.rhs as int].event as int) < c.events@.len());
            }
            expr_params(c, c.times[cm.lhs].offset, out);
            expr_params(c, c.times[cm.rhs].offset, out);
            proof {
                assert(out@ =~= old(out)@ + prop_params_s(*c, i as int));
            }
        },
        Prop::TimeSubCmp(cm) => {
            timesub_params(c, &cm.lhs, out);
            timesub_params(c, &cm.rhs, out);
            proof {
                assert(out@ =~= old(out)@ + prop_params_s(*c, i as int));
            }
        },
        Prop::Not(q) => {
            prop_params_raw(c, *q, out);
            proof {
                assert(out@ =~= old(out)@ + prop_params_s(*c, i as int));
            }
        },
        Prop::And(l, r) => {
            prop_params_raw(c, *l, out);
            prop_params_raw(c, *r, out);
            proof {
                assert(out@ =~= old(out)@ + prop_params_s(*c, i as int));
            }
        },
        Prop::Or(l, r) => {
            prop_params_raw(c, *l, out);
            prop_params_raw(c, *r, out);
            proof {
                assert(out@ =~= old(out)@ + prop_params_s(*c, i as int));
            }
        },
        Prop::Implies(l, r) => {
            prop_params_raw(c, *l, out);
            prop_params_raw(c, *r, out);
            proof {
                assert(out@ =~= old(out)@ + prop_params_s(*c, i as int));
            }
        },
    }
}

/// Collect the parameters of a time difference.
fn timesub_params(c: &Component, ts: &TimeSub, out: &mut Vec<usize>)
    requires
        c.wf(),
        crate::ir::timesub_wf(*ts, c.exprs@.len() as int, c.times@.len() as int),
    ensures
        final(out)@ == old(out)@ + timesub_params_s(c.exprs@, c.times@, *ts),
        forall|q: int|
            old(out)@.len() <= q < final(out)@.len() ==> ((#[trigger] final(out)@[q]) as int)
                < c.params@.len(),
{
    match ts {
        TimeSub::Unit(e) => {
            expr_params(c, *e, out);
        },
        TimeSub::Sym { l, r } => {
            proof {
                assert((c.times@[*l as int].event as int) < c.events@.len());
                assert((c.times@[*r as int].event as int) < c.events@.len());
            }
            expr_params(c, c.times[*l].offset, out);
            expr_params(c, c.times[*r].offset, out);
            proof {
                assert(out@ =~= old(out)@ + timesub_params_s(c.exprs@, c.times@, *ts));
            }
        },
    }
}

/// The parameters the proposition mentions, first occurrences only,
/// in order.
pub fn prop_params(c: &Component, i: usize) -> (r: Vec<usize>)
    requires
        c.wf(),
        i < c.props@.len(),
    ensures
        r@ == dedup_from(prop_params_s(*c, i as int), Seq::empty()),
        forall|q: int| 0 <= q < r@.len() ==> ((#[trigger] r@[q]) as int) < c.params@.len(),
{
    let mut raw: Vec<usize> = Vec::new();
    prop_params_raw(c, i, &mut raw);
    let mut out: Vec<usize> = Vec::new();
    let n = raw.len();
    proof {
        assert(raw@.skip(0) =~= raw@);
        assert(raw@ == prop_params_s(*c, i as int));
    }
    for k in 0..n
        invariant
            n == raw@.len(),
            out@ + dedup_from(raw@.skip(k as int), out@) =~= dedup_from(raw@, Seq::empty()),
            forall|a: int, b: int| 0 <= a < b < out@.len() ==> out@[a] != out@[b],
            raw@ == prop_params_s(*c, i as int),
            forall|q: int| 0 <= q < raw@.len() ==> ((#[trigger] raw@[q]) as int) < c.params@.len(),
            forall|q: int| 0 <= q < out@.len() ==> ((#[trigger] out@[q]) as int) < c.params@.len(),
    {
        proof {
            assert(raw@.skip(k as int)[0] == raw@[k as int]);
            assert(raw@.skip(k as int).drop_first() =~= raw@.skip(k + 1));
        }
        let mut found = false;
        let m = out.len();
        for t in 0..m
            invariant
                m == out@.len(),
                found <==> exists|a: int| 0 <= a < t && out@[a] == raw@[k as int],
                n == raw@.len(),
                k < n,
        {
            if out[t] == raw[k] {
                found = true;
            }
        }
        proof {
            assert(found <==> out@.contains(raw@[k as int]));
        }
        if !found {
            let ghost pre = out@;
            out.push(raw[k]);
            proof {
                assert(out@ =~= pre.push(raw@[k as int]));
                assert(dedup_from(raw@.skip(k as int), pre) =~= seq![raw@[k as int]] + dedup_from(
                    raw@.skip(k + 1),
                    pre.push(raw@[k as int]),
                ));
                assert(out@ + dedup_from(raw@.skip(k + 1), out@) =~= dedup_from(
                    raw@,
                    Seq::empty(),
                ));
            }
        } else {
            proof {
                assert(dedup_from(raw@.skip(k as int), out@) =~= dedup_from(
                    raw@.skip(k + 1),
                    out@,
                ));
            }
        }
    }
    proof {
        assert(raw@.skip(n as int) =~= Seq::<usize>::empty());
        assert(out@ + Seq::<usize>::empty() =~= out@);
    }
    out
}

} // verus!

verus! {

// ---------------------------------------------------------------------
// Counterexample assignments and diagnostics.
// ---------------------------------------------------------------------

/// A parameter assignment extracted from a solver model: pairs of
/// parameter index and value text.
pub struct Assign(pub Vec<(usize, String)>);

/// The view of an assignment: indices with value texts.
pub open spec fn assign_view(a: Assign) -> Seq<(usize, Seq<char>)> {
    a.0@.map_values(|p: (usize, String)| (p.0, p.1@))
}

/// One or more `0` digits and nothing else.
pub open spec fn all_zeros(s: Seq<char>) -> bool {
    s.len() > 0 && forall|i: int| 0 <= i < s.len() ==> s[i] == '0'
}

/// Does the text parse as the integer zero: an optional sign followed
/// by one or more `0` digits?
pub open spec fn is_zero_chars(s: Seq<char>) -> bool {
    if s.len() > 0 && (s[0] == '+' || s[0] == '-') {
        all_zeros(s.drop_first())
    } else {
        all_zeros(s)
    }
}

/// The display of an assignment: `name = value` for each entry whose
/// value is not zero, joined by commas.
pub open spec fn assign_disp_s(
    entries: Seq<(usize, Seq<char>)>,
    pnames: Seq<Seq<char>>,
    first: bool,
) -> Seq<char>
    decreases entries.len(),
{
    if entries.len() == 0 {
        Seq::empty()
    } else if is_zero_chars(entries[0].1) {
        assign_disp_s(entries.drop_first(), pnames, first)
    } else {
        (if first {
            Seq::empty()
        } else {
            ", "@
        }) + pnames[entries[0].0 as int] + " = "@ + entries[0].1 + assign_disp_s(
            entries.drop_first(),
            pnames,
            false,
        )
    }
}

/// Decide whether a value text parses as the integer zero.
fn is_zero_str(v: &str) -> (r: bool)
    ensures
        r == is_zero_chars(v@),
{
    broadcast use vstd::string::is_ascii_spec_bytes;

    if !v.is_ascii() {
        proof {
            let sv = v@;
            assert(!vstd::utf8::is_ascii_chars(sv));
            let bad = choose|i: int|
                0 <= i < sv.len() && !('\0' <= #[trigger] sv.index(i) <= '\u{7f}');
            assert(sv[bad] != '0' && sv[bad] != '+' && sv[bad] != '-');
            if is_zero_chars(sv) {
                if sv.len() > 0 && (sv[0] == '+' || sv[0] == '-') {
                    let body = sv.drop_first();
                    assert(bad != 0);
                    assert(body[bad - 1] == sv[bad]);
                    assert(body[bad - 1] == '0');
                } else {
                    assert(sv[bad] == '0');
                }
                assert(false);
            }
        }
        return false;
    }
    let bs = v.as_bytes();
    let n = bs.len();
    proof {
        vstd::string::is_ascii_spec_bytes(v);
        assert(bs@.len() == v@.len());
    }
    if n == 0 {
        proof {
            assert(!is_zero_chars(v@));
        }
        return false;
    }
    let c0 = v.get_char(0);
    let start: usize = if c0 == '+' || c0 == '-' {
        1
    } else {
        0
    };
    if n == start {
        proof {
            if start == 1 {
                assert(v@.drop_first().len() == 0);
            }
            assert(!is_zero_chars(v@));
        }
        return false;
    }
    for i in start..n
        invariant
            n == v@.len(),
            start <= n,
            start == (if v@[0] == '+' || v@[0] == '-' {
                1int
            } else {
                0int
            }),
            n > start,
            forall|j: int| start <= j < i ==> v@[j] == '0',
    {
        if v.get_char(i) != '0' {
            proof {
                let sv = v@;
                if is_zero_chars(sv) {
                    if start == 1 {
                        let body = sv.drop_first();
                        assert(body[i - 1] == sv[i as int]);
                        assert(body[i - 1] == '0');
                    } else {
                        assert(sv[i as int] == '0');
                    }
                    assert(false);
                }
            }
            return false;
        }
    }
    proof {
        let sv = v@;
        if start == 1 {
            let body = sv.drop_first();
            assert(forall|j: int| 0 <= j < body.len() ==> body[j] == sv[j + 1]);
            assert(forall|j: int| 0 <= j < body.len() ==> #[trigger] body[j] == '0');
        } else {
            assert(forall|j: int| 0 <= j < sv.len() ==> #[trigger] sv[j] == '0');
        }
        assert(is_zero_chars(sv));
    }
    true
}

impl Assign {
    /// An empty assignment.
    pub fn empty() -> (r: Assign)
        ensures
            r.0@.len() == 0,
    {
        Assign(Vec::new())
    }

    /// Is the assignment empty?
    pub fn is_empty(&self) -> (r: bool)
        ensures
            r == (self.0@.len() == 0),
    {
        self.0.len() == 0
    }

    /// Render the assignment, dropping zero-valued entries: they are
    /// covered by the trailing remark that unmentioned parameters are
    /// zero.
    pub fn display(&self, c: &Component) -> (r: String)
        requires
            forall|i: int| 0 <= i < self.0@.len() ==> (#[trigger] self.0@[i].0 as int)
                < c.params@.len(),
        ensures
            r@ == assign_disp_s(assign_view(*self), strs_view(c.params@), true),
    {
        let ghost entries = assign_view(*self);
        let mut out = String::new();
        let mut first = true;
        let n = self.0.len();
        proof {
            assert(entries.skip(0) =~= entries);
        }
        for i in 0..n
            invariant
                n == self.0@.len(),
                entries == assign_view(*self),
                forall|q: int| 0 <= q < self.0@.len() ==> (#[trigger] self.0@[q].0 as int)
                    < c.params@.len(),
                out@ + assign_disp_s(entries.skip(i as int), strs_view(c.params@), first)
                    =~= assign_disp_s(entries, strs_view(c.params@), true),
        {
            proof {
                assert(entries.skip(i as int)[0] == entries[i as int]);
                assert(entries.skip(i as int).drop_first() =~= entries.skip(i + 1));
                assert(entries[i as int] == (self.0@[i as int].0, self.0@[i as int].1@));
                assert(strs_view(c.params@)[self.0@[i as int].0 as int] == c.params@[self.0@[i
                    as int].0 as int]@);
            }
            if !is_zero_str(self.0[i].1.as_str()) {
                if !first {
                    out.append(", ");
                }
                out.append(c.params[self.0[i].0].as_str());
                out.append(" = ");
                out.append(self.0[i].1.as_str());
                first = false;
            }
        }
        proof {
            assert(entries.skip(n as int) =~= Seq::<(usize, Seq<char>)>::empty());
            assert(out@ + Seq::<char>::empty() =~= out@);
        }
        out
    }
}

/// A diagnostic: an optional anchoring position and its notes, ready
/// for an external renderer.
pub struct Diag {
    /// Where the failing statement sits, when known.
    pub pos: Option<Pos>,
    /// Human-readable notes, in order.
    pub notes: Vec<String>,
}

/// The views of a diagnostic's notes.
pub open spec fn notes_view(d: Diag) -> Seq<Seq<char>> {
    d.notes@.map_values(|s: String| s@)
}

/// The note naming the unprovable consequent.
pub open spec fn cannot_prove_note_s(c: Component, f: Fact) -> Seq<char> {
    "Cannot prove constraint: "@ + display_prop_s(c, consequent_s(c.props@, f.prop as int))
}

/// The counterexample note.
pub open spec fn counterexample_note_s(c: Component, a: Assign) -> Seq<char> {
    "Counterexample: "@ + assign_disp_s(assign_view(a), strs_view(c.params@), true)
        + " (unmentioned parameters are 0)"@
}

} // verus!

verus! {

/// An individual check in flight: which obligation, which proposition,
/// which activation literal, and, once a model was requested, which
/// parameters.
pub struct Pending {
    /// Index into the batch of obligations.
    pub fact: usize,
    /// The proposition under check.
    pub prop: usize,
    /// The activation literal's number.
    pub actlit: u32,
    /// The parameters whose values were requested, if any.
    pub params: Option<Vec<usize>>,
}

/// What is known about a proposition during failure analysis.
pub enum CheckedStatus {
    /// Not yet checked individually.
    Unchecked,
    /// Individually provable; its failure was due to conjunction with
    /// others.
    Proved,
    /// Individually refutable, with the extracted assignment.
    Failed(Assign),
}

/// `(check-sat-assuming (act_lit<n>))`.
pub open spec fn check_assuming_s(n: int) -> Seq<char> {
    "(check-sat-assuming ("@ + act_name_s(n) + "))"@
}

/// `(assert (=> act_lit<n> (not prop<p>)))`.
pub open spec fn imp_cmd_s(n: int, p: int) -> Seq<char> {
    assert_s(app2_s("=>"@, act_name_s(n), app1_s("not"@, prop_name_s(p))))
}

/// `(assert (not act_lit<n>))`.
pub open spec fn disable_cmd_s(n: int) -> Seq<char> {
    assert_s(app1_s("not"@, act_name_s(n)))
}

/// The space-separated parameter names from position `j` on.
pub open spec fn gv_tail_s(solver: Solver, pnames: Seq<Seq<char>>, ps: Seq<usize>, j: int) -> Seq<
    char,
>
    decreases ps.len() - j,
{
    if j < 0 || j >= ps.len() {
        Seq::empty()
    } else {
        (if j > 0 {
            " "@
        } else {
            Seq::empty()
        }) + param_name_s(solver, pnames, ps[j] as int) + gv_tail_s(solver, pnames, ps, j + 1)
    }
}

/// `(get-value (p1 p2 ...))`.
pub open spec fn get_value_s(solver: Solver, pnames: Seq<Seq<char>>, ps: Seq<usize>) -> Seq<char> {
    "(get-value ("@ + gv_tail_s(solver, pnames, ps, 0) + "))"@
}

/// The conjunction of the obligations' proposition names, as the
/// solver's variadic `and` renders it: a single name stands bare.
pub open spec fn and_tail_s(facts: Seq<Fact>, j: int) -> Seq<char>
    decreases facts.len() - j,
{
    if j < 0 || j >= facts.len() {
        Seq::empty()
    } else {
        " "@ + prop_name_s(facts[j].prop as int) + and_tail_s(facts, j + 1)
    }
}

/// The conjunction of all obligations.
pub open spec fn and_names_s(facts: Seq<Fact>) -> Seq<char> {
    if facts.len() == 1 {
        prop_name_s(facts[0].prop as int)
    } else {
        "(and"@ + and_tail_s(facts, 0) + ")"@
    }
}

/// The diagnostic a failing obligation produces: its anchoring
/// position and its notes.
pub open spec fn expected_diag_s(
    c: Component,
    show_models: bool,
    f: Fact,
    a: Assign,
) -> (Option<Pos>, Seq<Seq<char>>) {
    match c.infos@[f.reason as int] {
        Info::Assert(p) => (
            Some(p),
            seq![cannot_prove_note_s(c, f)] + if show_models && a.0@.len() > 0 {
                seq![counterexample_note_s(c, a)]
            } else {
                Seq::empty()
            },
        ),
        Info::Unknown => (
            None,
            seq![
                cannot_prove_note_s(c, f),
                "No information was given on who generated this error"@,
            ],
        ),
    }
}

/// The pass to discharge top-level `assert` facts of one component:
/// declares the component's tables as solver terms, batches the
/// asserted facts, checks their conjunction, and on failure attributes
/// blame obligation by obligation under fresh activation literals.
pub struct Discharge {
    /// Which solver the session drives.
    pub solver: Solver,
    /// Report the unsatisfied constraint and generate a model.
    pub show_models: bool,
    /// Are we in a scoped context?
    pub scoped: bool,
    /// Counter for activation literals generated.
    pub act_lit_count: u32,
    /// Solver names of the parameters.
    pub param_map: Vec<String>,
    /// Solver names of the events.
    pub ev_map: Vec<String>,
    /// Solver names of the expressions.
    pub expr_map: Vec<String>,
    /// Solver names of the times.
    pub time_map: Vec<String>,
    /// Solver names of the propositions.
    pub prop_map: Vec<String>,
    /// The obligations deferred to the end of the component pass.
    pub to_prove: Vec<Fact>,
    /// Propositions that have already been checked.
    pub checked: Vec<CheckedStatus>,
    /// The check currently in flight, if any.
    pub pending: Option<Pending>,
    /// Has the bulk check been issued and not yet answered?
    pub bulk_pending: bool,
    /// Diagnostics to be reported.
    pub diagnostics: Vec<Diag>,
    /// Number of errors encountered.
    pub error_count: u64,
}

/// The views of a diagnostic list.
pub open spec fn diags_view(s: Seq<Diag>) -> Seq<(Option<Pos>, Seq<Seq<char>>)> {
    s.map_values(|d: Diag| (d.pos, notes_view(d)))
}

impl Discharge {
    /// The proposition names the session declared cover the component,
    /// and every other table is aligned with it.
    pub open spec fn maps_named(&self, c: Component) -> bool {
        &&& self.param_map@.len() == c.params@.len()
        &&& forall|i: int|
            0 <= i < c.params@.len() ==> (#[trigger] self.param_map@[i])@ == param_name_s(
                self.solver,
                strs_view(c.params@),
                i,
            )
        &&& self.ev_map@.len() == c.events@.len()
        &&& forall|i: int|
            0 <= i < c.events@.len() ==> (#[trigger] self.ev_map@[i])@ == event_name_s(
                self.solver,
                strs_view(c.events@),
                i,
            )
        &&& self.expr_map@.len() == c.exprs@.len()
        &&& forall|i: int|
            0 <= i < c.exprs@.len() ==> (#[trigger] self.expr_map@[i])@ == expr_name_s(i)
        &&& self.time_map@.len() == c.times@.len()
        &&& forall|i: int|
            0 <= i < c.times@.len() ==> (#[trigger] self.time_map@[i])@ == time_name_s(i)
        &&& self.prop_map@.len() == c.props@.len()
        &&& forall|i: int|
            0 <= i < c.props@.len() ==> (#[trigger] self.prop_map@[i])@ == prop_name_s(i)
        &&& self.checked@.len() == c.props@.len()
    }

    /// Every deferred obligation points into the component's tables.
    pub open spec fn facts_ok(&self, c: Component) -> bool {
        forall|i: int|
            0 <= i < self.to_prove@.len() ==> crate::ir::fact_wf(
                #[trigger] self.to_prove@[i],
                c.props@.len() as int,
                c.infos@.len() as int,
            )
    }

    /// Every stored counterexample names only declared parameters.
    pub open spec fn checked_ok(&self, c: Component) -> bool {
        forall|i: int|
            0 <= i < self.checked@.len() ==> match #[trigger] self.checked@[i] {
                CheckedStatus::Failed(a) => forall|q: int|
                    0 <= q < a.0@.len() ==> ((#[trigger] a.0@[q]).0 as int) < c.params@.len(),
                _ => true,
            }
    }

    /// Open a session: declare the primitive functions and push one
    /// solver frame.  The returned commands open the session.
    pub fn new(solver: Solver, show_models: bool) -> (r: (Discharge, Vec<String>))
        ensures
            r.0.solver == solver,
            r.0.show_models == show_models,
            !r.0.scoped,
            !r.0.bulk_pending,
            r.0.pending is None,
            r.0.act_lit_count == 0,
            r.0.error_count == 0,
            r.0.param_map@.len() == 0,
            r.0.ev_map@.len() == 0,
            r.0.expr_map@.len() == 0,
            r.0.time_map@.len() == 0,
            r.0.prop_map@.len() == 0,
            r.0.to_prove@.len() == 0,
            r.0.checked@.len() == 0,
            r.0.diagnostics@.len() == 0,
            r.1@.len() == 5,
            r.1@[0]@ == "(declare-fun pow2 (Int) Int)"@,
            r.1@[1]@ == "(declare-fun log2 (Int) Int)"@,
            r.1@[2]@ == "(declare-fun sinb (Int Int) Int)"@,
            r.1@[3]@ == "(declare-fun cosb (Int Int) Int)"@,
            r.1@[4]@ == "(push)"@,
    {
        let d = Discharge {
            solver,
            show_models,
            scoped: false,
            act_lit_count: 0,
            param_map: Vec::new(),
            ev_map: Vec::new(),
            expr_map: Vec::new(),
            time_map: Vec::new(),
            prop_map: Vec::new(),
            to_prove: Vec::new(),
            checked: Vec::new(),
            pending: None,
            bulk_pending: false,
            diagnostics: Vec::new(),
            error_count: 0,
        };
        let mut cmds: Vec<String> = Vec::new();
        cmds.push(String::from_str("(declare-fun pow2 (Int) Int)"));
        cmds.push(String::from_str("(declare-fun log2 (Int) Int)"));
        cmds.push(String::from_str("(declare-fun sinb (Int Int) Int)"));
        cmds.push(String::from_str("(declare-fun cosb (Int Int) Int)"));
        cmds.push(String::from_str("(push)"));
        (d, cmds)
    }

    /// Reset per-component state between components: pop the solver
    /// frame and push a fresh one.
    pub fn clear_data(&mut self) -> (r: Vec<String>)
        ensures
            final(self).solver == old(self).solver,
            final(self).show_models == old(self).show_models,
            !final(self).scoped,
            !final(self).bulk_pending,
            final(self).pending is None,
            final(self).act_lit_count == 0,
            final(self).error_count == old(self).error_count,
            final(self).param_map@.len() == 0,
            final(self).ev_map@.len() == 0,
            final(self).expr_map@.len() == 0,
            final(self).time_map@.len() == 0,
            final(self).prop_map@.len() == 0,
            final(self).to_prove@.len() == 0,
            final(self).checked@.len() == 0,
            final(self).diagnostics@.len() == 0,
            r@.len() == 2,
            r@[0]@ == "(pop)"@,
            r@[1]@ == "(push)"@,
    {
        self.param_map = Vec::new();
        self.ev_map = Vec::new();
        self.expr_map = Vec::new();
        self.time_map = Vec::new();
        self.prop_map = Vec::new();
        self.to_prove = Vec::new();
        self.checked = Vec::new();
        self.pending = None;
        self.bulk_pending = false;
        self.scoped = false;
        self.act_lit_count = 0;
        self.diagnostics = Vec::new();
        let mut cmds: Vec<String> = Vec::new();
        cmds.push(String::from_str("(pop)"));
        cmds.push(String::from_str("(push)"));
        cmds
    }
}

} // verus!

verus! {

/// The bulk declarations the start phase emits, in strictly increasing
/// index order: parameters, events, expressions, times, propositions.
pub open spec fn start_cmds_s(solver: Solver, c: Component) -> Seq<Seq<char>> {
    let pn = strs_view(c.params@);
    let en = strs_view(c.events@);
    Seq::new(c.params@.len(), |i: int| declare_int_s(param_name_s(solver, pn, i))) + Seq::new(
        c.events@.len(),
        |i: int| declare_int_s(event_name_s(solver, en, i)),
    ) + Seq::new(
        c.exprs@.len(),
        |i: int| define_int_s(expr_name_s(i), expr_body_s(solver, pn, c.exprs@[i])),
    ) + Seq::new(
        c.times@.len(),
        |i: int| define_int_s(time_name_s(i), time_body_s(solver, en, c.times@[i])),
    ) + Seq::new(c.props@.len(), |i: int| define_bool_s(prop_name_s(i), prop_body_s(c.props@[i])))
}

/// The exec symbol of an arithmetic operator.
fn op_sym(op: &Op) -> (r: &'static str)
    ensures
        r@ == op_sym_s(*op),
{
    match op {
        Op::Add => "+",
        Op::Sub => "-",
        Op::Mul => "*",
        Op::Div => "div",
        Op::Mod => "mod",
    }
}

/// The exec symbol of a comparison.
fn cmp_sym(op: &Cmp) -> (r: &'static str)
    ensures
        r@ == cmp_sym_s(*op),
{
    match op {
        Cmp::Gt => ">",
        Cmp::Gte => ">=",
        Cmp::Eq => "=",
    }
}

/// Build the defined body of an expression.
fn build_expr_body(solver: Solver, c: &Component, i: usize) -> (r: String)
    requires
        c.wf(),
        i < c.exprs@.len(),
    ensures
        r@ == expr_body_s(solver, strs_view(c.params@), c.exprs@[i as int]),
{
    proof {
        assert(crate::ir::expr_wf(c.exprs@[i as int], i as int, c.params@.len() as int));
    }
    match &c.exprs[i] {
        Expr::Param(p) => fmt_param_name(solver, &c.params, *p),
        Expr::Concrete(n) => u64_to_string(*n),
        Expr::Bin { op, lhs, rhs } => {
            let l = name_with_index("e", *lhs);
            let r2 = name_with_index("e", *rhs);
            app2(op_sym(op), l.as_str(), r2.as_str())
        },
        Expr::Fn { op, args } => {
            let mut s = match op {
                Func::Pow2 => String::from_str("(pow2"),
                Func::Log2 => String::from_str("(log2"),
                Func::SinB => String::from_str("(sinb"),
                Func::CosB => String::from_str("(cosb"),
            };
            proof {
                reveal_strlit("(");
                reveal_strlit("(pow2");
                reveal_strlit("(log2");
                reveal_strlit("(sinb");
                reveal_strlit("(cosb");
                reveal_strlit("pow2");
                reveal_strlit("log2");
                reveal_strlit("sinb");
                reveal_strlit("cosb");
                assert(s@ =~= "("@ + fn_name_s(*op));
            }
            let m = args.len();
            proof {
                assert(args_s(args@, m as int) =~= Seq::<char>::empty());
            }
            for j in 0..m
                invariant
                    m == args@.len(),
                    s@ + args_s(args@, j as int) =~= "("@ + fn_name_s(*op) + args_s(args@, 0),
            {
                let ghost pre = s@;
                s.append(" ");
                let nm = name_with_index("e", args[j]);
                s.append(nm.as_str());
                proof {
                    assert(args_s(args@, j as int) =~= " "@ + expr_name_s(args@[j as int] as int)
                        + args_s(args@, j + 1));
                    assert(s@ =~= pre + (" "@ + expr_name_s(args@[j as int] as int)));
                    assert(s@ + args_s(args@, j + 1) =~= "("@ + fn_name_s(*op) + args_s(args@, 0));
                }
            }
            s.append(")");
            proof {
                assert(s@ =~= "("@ + fn_name_s(*op) + args_s(args@, 0) + ")"@);
            }
            s
        },
    }
}

/// Build the defined body of a proposition.
fn build_prop_body(c: &Component, i: usize) -> (r: String)
    requires
        c.wf(),
        i < c.props@.len(),
    ensures
        r@ == prop_body_s(c.props@[i as int]),
{
    proof {
        assert(crate::ir::prop_wf(
            c.props@[i as int],
            i as int,
            c.exprs@.len() as int,
            c.times@.len() as int,
        ));
    }
    match &c.props[i] {
        Prop::True => String::from_str("true"),
        Prop::False => String::from_str("false"),
        Prop::Cmp(cm) => {
            let l = name_with_index("e", cm.lhs);
            let r2 = name_with_index("e", cm.rhs);
            app2(cmp_sym(&cm.op), l.as_str(), r2.as_str())
        },
        Prop::TimeCmp(cm) => {
            let l = name_with_index("t", cm.lhs);
            let r2 = name_with_index("t", cm.rhs);
            app2(cmp_sym(&cm.op), l.as_str(), r2.as_str())
        },
        Prop::TimeSubCmp(cm) => {
            let l = build_timesub(&cm.lhs);
            let r2 = build_timesub(&cm.rhs);
            app2(cmp_sym(&cm.op), l.as_str(), r2.as_str())
        },
        Prop::Not(q) => {
            let nm = name_with_index("prop", *q);
            app1("not", nm.as_str())
        },
        Prop::And(l, r2) => {
            let a = name_with_index("prop", *l);
            let b = name_with_index("prop", *r2);
            app2("and", a.as_str(), b.as_str())
        },
        Prop::Or(l, r2) => {
            let a = name_with_index("prop", *l);
            let b = name_with_index("prop", *r2);
            app2("or", a.as_str(), b.as_str())
        },
        Prop::Implies(l, r2) => {
            let a = name_with_index("prop", *l);
            let b = name_with_index("prop", *r2);
            app2("=>", a.as_str(), b.as_str())
        },
    }
}

/// Build a time difference over declared names.
fn build_timesub(ts: &TimeSub) -> (r: String)
    ensures
        r@ == timesub_s(*ts),
{
    match ts {
        TimeSub::Unit(e) => name_with_index("e", *e),
        TimeSub::Sym { l, r } => {
            let a = name_with_index("t", *l);
            let b = name_with_index("t", *r);
            app2("-", a.as_str(), b.as_str())
        },
    }
}

impl Discharge {
    /// The start phase: declare every parameter, event, expression,
    /// time and proposition of the component as a solver term, in bulk
    /// and in strictly increasing index order, recording each term's
    /// solver name.
    pub fn start(&mut self, c: &Component) -> (r: Vec<String>)
        requires
            c.wf(),
            old(self).param_map@.len() == 0,
            old(self).ev_map@.len() == 0,
            old(self).expr_map@.len() == 0,
            old(self).time_map@.len() == 0,
            old(self).prop_map@.len() == 0,
            old(self).checked@.len() == 0,
            old(self).to_prove@.len() == 0,
        ensures
            final(self).maps_named(*c),
            final(self).solver == old(self).solver,
            final(self).show_models == old(self).show_models,
            final(self).scoped == old(self).scoped,
            final(self).bulk_pending == old(self).bulk_pending,
            final(self).pending == old(self).pending,
            final(self).act_lit_count == old(self).act_lit_count,
            final(self).error_count == old(self).error_count,
            final(self).to_prove@.len() == 0,
            final(self).diagnostics == old(self).diagnostics,
            forall|i: int|
                0 <= i < final(self).checked@.len() ==> (#[trigger] final(self).checked@[i])
                    is Unchecked,
            strs_view(r@) == start_cmds_s(old(self).solver, *c),
    {
        let solver = self.solver;
        let ghost pn = strs_view(c.params@);
        let ghost en = strs_view(c.events@);
        let ghost seg1 = Seq::new(c.params@.len(), |i: int| declare_int_s(param_name_s(solver, pn, i)));
        let ghost seg2 = Seq::new(c.events@.len(), |i: int| declare_int_s(event_name_s(solver, en, i)));
        let ghost seg3 = Seq::new(
            c.exprs@.len(),
            |i: int| define_int_s(expr_name_s(i), expr_body_s(solver, pn, c.exprs@[i])),
        );
        let ghost seg4 = Seq::new(
            c.times@.len(),
            |i: int| define_int_s(time_name_s(i), time_body_s(solver, en, c.times@[i])),
        );
        let ghost seg5 = Seq::new(
            c.props@.len(),
            |i: int| define_bool_s(prop_name_s(i), prop_body_s(c.props@[i])),
        );
        let mut cmds: Vec<String> = Vec::new();
        let np = c.params.len();
        for i in 0..np
            invariant
                np == c.params@.len(),
                solver == self.solver,
                pn == strs_view(c.params@),
                en == strs_view(c.events@),
                self.param_map@.len() == i,
                forall|j: int|
                    0 <= j < i ==> (#[trigger] self.param_map@[j])@ == param_name_s(solver, pn, j),
                self.ev_map@.len() == 0,
                self.expr_map@.len() == 0,
                self.time_map@.len() == 0,
                self.prop_map@.len() == 0,
                self.checked@.len() == 0,
                self.to_prove@.len() == 0,
                self.show_models == old(self).show_models,
                self.scoped == old(self).scoped,
                self.bulk_pending == old(self).bulk_pending,
                self.pending == old(self).pending,
                self.act_lit_count == old(self).act_lit_count,
                self.error_count == old(self).error_count,
                self.diagnostics == old(self).diagnostics,
                strs_view(cmds@) =~= seg1.take(i as int),
                seg1 == Seq::new(
                    c.params@.len(),
                    |q: int| declare_int_s(param_name_s(solver, pn, q)),
                ),
        {
            let nm = fmt_param_name(solver, &c.params, i);
            let cmd = cmd_declare_int(nm.as_str());
            let ghost pre = cmds@;
            let ghost cmdv = cmd@;
            self.param_map.push(nm);
            cmds.push(cmd);
            proof {
                assert(strs_view(cmds@) =~= strs_view(pre).push(cmdv));
                assert(seg1.take(i + 1) =~= seg1.take(i as int).push(seg1[i as int]));
                assert(strs_view(cmds@) =~= seg1.take(i + 1));
            }
        }
        proof {
            assert(seg1.take(np as int) =~= seg1);
        }
        let ne = c.events.len();
        for i in 0..ne
            invariant
                ne == c.events@.len(),
                np == c.params@.len(),
                solver == self.solver,
                pn == strs_view(c.params@),
                en == strs_view(c.events@),
                self.param_map@.len() == np,
                forall|j: int|
                    0 <= j < np ==> (#[trigger] self.param_map@[j])@ == param_name_s(solver, pn, j),
                self.ev_map@.len() == i,
                forall|j: int|
                    0 <= j < i ==> (#[trigger] self.ev_map@[j])@ == event_name_s(solver, en, j),
                self.expr_map@.len() == 0,
                self.time_map@.len() == 0,
                self.prop_map@.len() == 0,
                self.checked@.len() == 0,
                self.to_prove@.len() == 0,
                self.show_models == old(self).show_models,
                self.scoped == old(self).scoped,
                self.bulk_pending == old(self).bulk_pending,
                self.pending == old(self).pending,
                self.act_lit_count == old(self).act_lit_count,
                self.error_count == old(self).error_count,
                self.diagnostics == old(self).diagnostics,
                strs_view(cmds@) =~= (seg1) + seg2.take(i as int),
                seg2 == Seq::new(
                    c.events@.len(),
                    |q: int| declare_int_s(event_name_s(solver, en, q)),
                ),
        {
            let nm = fmt_event_name(solver, &c.events, i);
            let cmd = cmd_declare_int(nm.as_str());
            let ghost pre = cmds@;
            let ghost cmdv = cmd@;
            self.ev_map.push(nm);
            cmds.push(cmd);
            proof {
                assert(strs_view(cmds@) =~= strs_view(pre).push(cmdv));
                assert(seg2.take(i + 1) =~= seg2.take(i as int).push(seg2[i as int]));
                assert((seg1) + seg2.take(i + 1) =~= ((seg1) + seg2.take(i as int)).push(seg2[i as int]));
                assert(strs_view(cmds@) =~= (seg1) + seg2.take(i + 1));
            }
        }
        proof {
            assert(seg2.take(ne as int) =~= seg2);
        }
        let nx = c.exprs.len();
        for i in 0..nx
            invariant
                nx == c.exprs@.len(),
                c.wf(),
                ne == c.events@.len(),
                np == c.params@.len(),
                solver == self.solver,
                pn == strs_view(c.params@),
                en == strs_view(c.events@),
                self.param_map@.len() == np,
                forall|j: int|
                    0 <= j < np ==> (#[trigger] self.param_map@[j])@ == param_name_s(solver, pn, j),
                self.ev_map@.len() == ne,
                forall|j: int|
                    0 <= j < ne ==> (#[trigger] self.ev_map@[j])@ == event_name_s(solver, en, j),
                self.expr_map@.len() == i,
                forall|j: int| 0 <= j < i ==> (#[trigger] self.expr_map@[j])@ == expr_name_s(j),
                self.time_map@.len() == 0,
                self.prop_map@.len() == 0,
                self.checked@.len() == 0,
                self.to_prove@.len() == 0,
                self.show_models == old(self).show_models,
                self.scoped == old(self).scoped,
                self.bulk_pending == old(self).bulk_pending,
                self.pending == old(self).pending,
                self.act_lit_count == old(self).act_lit_count,
                self.error_count == old(self).error_count,
                self.diagnostics == old(self).diagnostics,
                strs_view(cmds@) =~= (seg1 + seg2) + seg3.take(i as int),
                seg3 == Seq::new(
                    c.exprs@.len(),
                    |q: int| define_int_s(expr_name_s(q), expr_body_s(solver, pn, c.exprs@[q])),
                ),
        {
            let nm = name_with_index("e", i);
            let body = build_expr_body(solver, c, i);
            let cmd = cmd_define_int(nm.as_str(), body.as_str());
            let ghost pre = cmds@;
            let ghost cmdv = cmd@;
            self.expr_map.push(nm);
            cmds.push(cmd);
            proof {
                assert(strs_view(cmds@) =~= strs_view(pre).push(cmdv));
                assert(seg3.take(i + 1) =~= seg3.take(i as int).push(seg3[i as int]));
                assert((seg1 + seg2) + seg3.take(i + 1) =~= ((seg1 + seg2) + seg3.take(i as int)).push(seg3[i as int]));
                assert(strs_view(cmds@) =~= (seg1 + seg2) + seg3.take(i + 1));
            }
        }
        proof {
            assert(seg3.take(nx as int) =~= seg3);
        }
        let nt = c.times.len();
        for i in 0..nt
            invariant
                nt == c.times@.len(),
                nx == c.exprs@.len(),
                c.wf(),
                ne == c.events@.len(),
                np == c.params@.len(),
                solver == self.solver,
                pn == strs_view(c.params@),
                en == strs_view(c.events@),
                self.param_map@.len() == np,
                forall|j: int|
                    0 <= j < np ==> (#[trigger] self.param_map@[j])@ == param_name_s(solver, pn, j),
                self.ev_map@.len() == ne,
                forall|j: int|
                    0 <= j < ne ==> (#[trigger] self.ev_map@[j])@ == event_name_s(solver, en, j),
                self.expr_map@.len() == nx,
                forall|j: int| 0 <= j < nx ==> (#[trigger] self.expr_map@[j])@ == expr_name_s(j),
                self.time_map@.len() == i,
                forall|j: int| 0 <= j < i ==> (#[trigger] self.time_map@[j])@ == time_name_s(j),
                self.prop_map@.len() == 0,
                self.checked@.len() == 0,
                self.to_prove@.len() == 0,
                self.show_models == old(self).show_models,
                self.scoped == old(self).scoped,
                self.bulk_pending == old(self).bulk_pending,
                self.pending == old(self).pending,
                self.act_lit_count == old(self).act_lit_count,
                self.error_count == old(self).error_count,
                self.diagnostics == old(self).diagnostics,
                strs_view(cmds@) =~= (seg1 + seg2 + seg3) + seg4.take(i as int),
                seg4 == Seq::new(
                    c.times@.len(),
                    |q: int| define_int_s(time_name_s(q), time_body_s(solver, en, c.times@[q])),
                ),
        {
            proof {
                assert((c.times@[i as int].event as int) < c.events@.len());
            }
            let t = &c.times[i];
            let nm = name_with_index("t", i);
            let ev = fmt_event_name(solver, &c.events, t.event);
            let off = name_with_index("e", t.offset);
            let body = app2("+", ev.as_str(), off.as_str());
            let cmd = cmd_define_int(nm.as_str(), body.as_str());
            let ghost pre = cmds@;
            let ghost cmdv = cmd@;
            self.time_map.push(nm);
            cmds.push(cmd);
            proof {
                assert(strs_view(cmds@) =~= strs_view(pre).push(cmdv));
                assert(seg4.take(i + 1) =~= seg4.take(i as int).push(seg4[i as int]));
                assert((seg1 + seg2 + seg3) + seg4.take(i + 1) =~= ((seg1 + seg2 + seg3) + seg4.take(i as int)).push(seg4[i as int]));
                assert(strs_view(cmds@) =~= (seg1 + seg2 + seg3) + seg4.take(i + 1));
            }
        }
        proof {
            assert(seg4.take(nt as int) =~= seg4);
        }
        let npr = c.props.len();
        for i in 0..npr
            invariant
                npr == c.props@.len(),
                nt == c.times@.len(),
                nx == c.exprs@.len(),
                c.wf(),
                ne == c.events@.len(),
                np == c.params@.len(),
                solver == self.solver,
                pn == strs_view(c.params@),
                en == strs_view(c.events@),
                self.param_map@.len() == np,
                forall|j: int|
                    0 <= j < np ==> (#[trigger] self.param_map@[j])@ == param_name_s(solver, pn, j),
                self.ev_map@.len() == ne,
                forall|j: int|
                    0 <= j < ne ==> (#[trigger] self.ev_map@[j])@ == event_name_s(solver, en, j),
                self.expr_map@.len() == nx,
                forall|j: int| 0 <= j < nx ==> (#[trigger] self.expr_map@[j])@ == expr_name_s(j),
                self.time_map@.len() == nt,
                forall|j: int| 0 <= j < nt ==> (#[trigger] self.time_map@[j])@ == time_name_s(j),
                self.prop_map@.len() == i,
                forall|j: int| 0 <= j < i ==> (#[trigger] self.prop_map@[j])@ == prop_name_s(j),
                self.checked@.len() == i,
                forall|j: int| 0 <= j < i ==> (#[trigger] self.checked@[j]) is Unchecked,
                self.to_prove@.len() == 0,
                self.show_models == old(self).show_models,
                self.scoped == old(self).scoped,
                self.bulk_pending == old(self).bulk_pending,
                self.pending == old(self).pending,
                self.act_lit_count == old(self).act_lit_count,
                self.error_count == old(self).error_count,
                self.diagnostics == old(self).diagnostics,
                strs_view(cmds@) =~= (seg1 + seg2 + seg3 + seg4) + seg5.take(i as int),
                seg5 == Seq::new(
                    c.props@.len(),
                    |q: int| define_bool_s(prop_name_s(q), prop_body_s(c.props@[q])),
                ),
        {
            let nm = name_with_index("prop", i);
            let body = build_prop_body(c, i);
            let cmd = cmd_define_bool(nm.as_str(), body.as_str());
            let ghost pre = cmds@;
            let ghost cmdv = cmd@;
            self.prop_map.push(nm);
            self.checked.push(CheckedStatus::Unchecked);
            cmds.push(cmd);
            proof {
                assert(strs_view(cmds@) =~= strs_view(pre).push(cmdv));
                assert(seg5.take(i + 1) =~= seg5.take(i as int).push(seg5[i as int]));
                assert((seg1 + seg2 + seg3 + seg4) + seg5.take(i + 1) =~= ((seg1 + seg2 + seg3 + seg4) + seg5.take(i as int)).push(seg5[i as int]));
                assert(strs_view(cmds@) =~= (seg1 + seg2 + seg3 + seg4) + seg5.take(i + 1));
            }
        }
        proof {
            assert(seg5.take(npr as int) =~= seg5);
            assert(strs_view(cmds@) =~= start_cmds_s(solver, *c));
        }
        cmds
    }
}

} // verus!

verus! {

/// What the driver must do next for one obligation.
pub enum FactQuery {
    /// The proposition was already checked; any diagnostic has been
    /// recorded and no solver interaction is needed.
    Cached,
    /// Send the commands, then issue the check and report the answer.
    Query {
        /// An activation literal declaration and the guarded negation.
        cmds: Vec<String>,
        /// The `check-sat-assuming` command.
        check: String,
    },
}

/// What the driver must do after reporting a check's answer.
pub enum ModelNeed {
    /// Permanently disable the activation literal.
    Disable {
        /// The disabling assertion.
        cmd: String,
    },
    /// Query the model first, then report the values.
    GetValue {
        /// The `get-value` command.
        cmd: String,
        /// How many values the command requests.
        count: usize,
    },
}

impl Discharge {
    /// A fact callback.  Scoped facts and assumptions must have been
    /// eliminated by the hoisting pass; the obligation is deferred to
    /// the end of the component pass.
    pub fn fact(&mut self, f: &Fact)
        requires
            !old(self).scoped,
            f.kind is Assert,
        ensures
            *final(self) == (Discharge { to_prove: final(self).to_prove, ..*old(self) }),
            final(self).to_prove@ == old(self).to_prove@.push(*f),
    {
        self.to_prove.push(*f);
    }

    /// Walk the commands inside a scope.  Facts must have been hoisted
    /// out, so nothing is collected.
    fn walk_scoped(&mut self, cmds: &Vec<IrCommand>)
        requires
            crate::ir::no_facts(cmds@, 0),
            old(self).scoped,
        ensures
            *final(self) == *old(self),
        decreases cmds@, 0int,
    {
        let n = cmds.len();
        for i in 0..n
            invariant
                n == cmds@.len(),
                crate::ir::no_facts(cmds@, 0),
                self.scoped,
                *self == *old(self),
            decreases cmds@, 0int, n - i,
        {
            proof {
                lemma_no_facts_at(cmds@, i as int);
            }
            match &cmds[i] {
                IrCommand::Fact(_) => {
                    proof {
                        assert(false);
                    }
                },
                IrCommand::If(x) => {
                    self.do_if(x);
                },
                IrCommand::Loop(x) => {
                    self.do_loop(x);
                },
            }
        }
    }

    /// Enter a conditional: both branches are scoped.
    pub fn do_if(&mut self, i: &crate::ir::IfCmd)
        requires
            crate::ir::no_facts(i.then_cmds@, 0),
            crate::ir::no_facts(i.alt_cmds@, 0),
        ensures
            *final(self) == *old(self),
        decreases *i, 1int,
    {
        let orig = self.scoped;
        self.scoped = true;
        self.walk_scoped(&i.then_cmds);
        self.walk_scoped(&i.alt_cmds);
        self.scoped = orig;
    }

    /// Enter a loop: its body is scoped.
    pub fn do_loop(&mut self, l: &crate::ir::LoopCmd)
        requires
            crate::ir::no_facts(l.body@, 0),
        ensures
            *final(self) == *old(self),
        decreases *l, 1int,
    {
        let orig = self.scoped;
        self.scoped = true;
        self.walk_scoped(&l.body);
        self.scoped = orig;
    }

    /// Visit the control program: collect the top-level asserted facts
    /// in order, and walk scoped constructs without collecting.
    pub fn visit_cmds(&mut self, cmds: &Vec<IrCommand>)
        requires
            crate::ir::hoisted(cmds@),
            !old(self).scoped,
        ensures
            *final(self) == (Discharge { to_prove: final(self).to_prove, ..*old(self) }),
            final(self).to_prove@ == old(self).to_prove@ + crate::ir::top_facts(cmds@, 0),
    {
        let n = cmds.len();
        proof {
            assert(old(self).to_prove@ + crate::ir::top_facts(cmds@, 0) == self.to_prove@
                + crate::ir::top_facts(cmds@, 0));
        }
        for i in 0..n
            invariant
                n == cmds@.len(),
                crate::ir::hoisted(cmds@),
                !self.scoped,
                *self == (Discharge { to_prove: self.to_prove, ..*old(self) }),
                self.to_prove@ + crate::ir::top_facts(cmds@, i as int) == old(self).to_prove@
                    + crate::ir::top_facts(cmds@, 0),
        {
            let ghost pre = self.to_prove@;
            match &cmds[i] {
                IrCommand::Fact(f) => {
                    self.fact(f);
                    proof {
                        assert(crate::ir::top_facts(cmds@, i as int) =~= seq![*f]
                            + crate::ir::top_facts(cmds@, i + 1));
                        assert(self.to_prove@ + crate::ir::top_facts(cmds@, i + 1) =~= pre
                            + crate::ir::top_facts(cmds@, i as int));
                    }
                },
                IrCommand::If(x) => {
                    self.do_if(x);
                    proof {
                        assert(crate::ir::top_facts(cmds@, i as int) =~= crate::ir::top_facts(
                            cmds@,
                            i + 1,
                        ));
                    }
                },
                IrCommand::Loop(x) => {
                    self.do_loop(x);
                    proof {
                        assert(crate::ir::top_facts(cmds@, i as int) =~= crate::ir::top_facts(
                            cmds@,
                            i + 1,
                        ));
                    }
                },
            }
        }
        proof {
            assert(crate::ir::top_facts(cmds@, n as int) =~= Seq::<Fact>::empty());
            assert(final(self).to_prove@ =~= old(self).to_prove@ + crate::ir::top_facts(cmds@, 0));
        }
    }

    /// The end phase, first half: assert the negation of the
    /// conjunction of all obligations and ask for one check.  With no
    /// obligations there is nothing to do.
    pub fn end_assert(&mut self) -> (r: Option<Vec<String>>)
        requires
            !old(self).scoped,
            !old(self).bulk_pending,
            old(self).pending is None,
        ensures
            *final(self) == (Discharge { bulk_pending: final(self).bulk_pending, ..*old(self) }),
            match r {
                None => old(self).to_prove@.len() == 0 && !final(self).bulk_pending,
                Some(v) => {
                    &&& old(self).to_prove@.len() > 0
                    &&& final(self).bulk_pending
                    &&& v@.len() == 2
                    &&& v@[0]@ == assert_s(app1_s("not"@, and_names_s(old(self).to_prove@)))
                    &&& v@[1]@ == "(check-sat)"@
                },
            },
    {
        let n = self.to_prove.len();
        if n == 0 {
            return None;
        }
        let total = if n == 1 {
            name_with_index("prop", self.to_prove[0].prop)
        } else {
            let mut acc = String::from_str("(and");
            proof {
                assert(and_tail_s(self.to_prove@, n as int) =~= Seq::<char>::empty());
                reveal_strlit("(and");
            }
            for j in 0..n
                invariant
                    n == self.to_prove@.len(),
                    acc@ + and_tail_s(self.to_prove@, j as int) =~= "(and"@ + and_tail_s(
                        self.to_prove@,
                        0,
                    ),
            {
                let ghost pre = acc@;
                acc.append(" ");
                let nm = name_with_index("prop", self.to_prove[j].prop);
                acc.append(nm.as_str());
                proof {
                    assert(and_tail_s(self.to_prove@, j as int) =~= " "@ + prop_name_s(
                        self.to_prove@[j as int].prop as int,
                    ) + and_tail_s(self.to_prove@, j + 1));
                    assert(acc@ =~= pre + (" "@ + prop_name_s(
                        self.to_prove@[j as int].prop as int,
                    )));
                    assert(acc@ + and_tail_s(self.to_prove@, j + 1) =~= "(and"@ + and_tail_s(
                        self.to_prove@,
                        0,
                    ));
                }
            }
            acc.append(")");
            proof {
                assert(acc@ =~= "(and"@ + and_tail_s(self.to_prove@, 0) + ")"@);
            }
            acc
        };
        proof {
            assert(total@ == and_names_s(self.to_prove@));
        }
        let neg = app1("not", total.as_str());
        let cmd = cmd_assert(neg.as_str());
        let mut v: Vec<String> = Vec::new();
        v.push(cmd);
        v.push(String::from_str("(check-sat)"));
        self.bulk_pending = true;
        Some(v)
    }

    /// The end phase, second half: take the bulk check's answer.  If
    /// satisfiable, at least one obligation fails and the driver must
    /// roll back to checking the obligations individually.
    pub fn bulk_result(&mut self, r: Response) -> (need: bool)
        requires
            old(self).bulk_pending,
            !(r is Unknown),
        ensures
            *final(self) == (Discharge { bulk_pending: final(self).bulk_pending, ..*old(self) }),
            !final(self).bulk_pending,
            need == (r is Sat),
    {
        self.bulk_pending = false;
        match r {
            Response::Sat => true,
            _ => false,
        }
    }

    /// The number of deferred obligations.
    pub fn num_obligations(&self) -> (r: usize)
        ensures
            r == self.to_prove@.len(),
    {
        self.to_prove.len()
    }

    /// How many errors the pass saw; `Some` when nonzero so the driver
    /// aborts the pipeline.
    pub fn after_traversal(&self) -> (r: Option<u64>)
        ensures
            r == if self.error_count > 0 {
                Some(self.error_count)
            } else {
                None::<u64>
            },
    {
        if self.error_count > 0 {
            Some(self.error_count)
        } else {
            None
        }
    }
}

/// Every position of a fact-free command list has no fact.
proof fn lemma_no_facts_at(cmds: Seq<IrCommand>, i: int)
    requires
        crate::ir::no_facts(cmds, 0),
        0 <= i < cmds.len(),
    ensures
        !(cmds[i] is Fact),
        cmds[i] matches IrCommand::If(x) ==> crate::ir::no_facts(x.then_cmds@, 0)
            && crate::ir::no_facts(x.alt_cmds@, 0),
        cmds[i] matches IrCommand::Loop(x) ==> crate::ir::no_facts(x.body@, 0),
    decreases i,
{
    lemma_no_facts_unfold(cmds, 0, i);
}

/// Unfold `no_facts` from `j` out to `i`.
proof fn lemma_no_facts_unfold(cmds: Seq<IrCommand>, j: int, i: int)
    requires
        crate::ir::no_facts(cmds, j),
        0 <= j <= i < cmds.len(),
    ensures
        !(cmds[i] is Fact),
        cmds[i] matches IrCommand::If(x) ==> crate::ir::no_facts(x.then_cmds@, 0)
            && crate::ir::no_facts(x.alt_cmds@, 0),
        cmds[i] matches IrCommand::Loop(x) ==> crate::ir::no_facts(x.body@, 0),
    decreases i - j,
{
    if j < i {
        lemma_no_facts_unfold(cmds, j + 1, i);
    }
}

} // verus!

verus! {

impl Clone for Assign {
    /// The clone carries the same pairs.
    fn clone(&self) -> (r: Self)
        ensures
            assign_view(r) == assign_view(*self),
    {
        let mut v: Vec<(usize, String)> = Vec::new();
        let n = self.0.len();
        for i in 0..n
            invariant
                n == self.0@.len(),
                v@.len() == i,
                forall|j: int|
                    0 <= j < i ==> (#[trigger] v@[j]).0 == self.0@[j].0 && v@[j].1@
                        == self.0@[j].1@,
        {
            let val = self.0[i].1.clone();
            v.push((self.0[i].0, val));
        }
        let r = Assign(v);
        proof {
            assert(assign_view(r) =~= assign_view(*self));
        }
        r
    }
}

/// The consequent of a proposition: the right side of an implication,
/// otherwise the proposition itself.
pub fn consequent(c: &Component, p: usize) -> (r: usize)
    requires
        c.wf(),
        p < c.props@.len(),
    ensures
        r == consequent_s(c.props@, p as int),
        r < c.props@.len(),
{
    proof {
        assert(crate::ir::prop_wf(
            c.props@[p as int],
            p as int,
            c.exprs@.len() as int,
            c.times@.len() as int,
        ));
    }
    match &c.props[p] {
        Prop::Implies(_, r2) => *r2,
        _ => p,
    }
}

impl Discharge {
    /// Record the diagnostic for one failing obligation.
    fn push_diag(&mut self, c: &Component, f: Fact, assign: &Assign)
        requires
            c.wf(),
            crate::ir::fact_wf(f, c.props@.len() as int, c.infos@.len() as int),
            forall|i: int| 0 <= i < assign.0@.len() ==> (#[trigger] assign.0@[i].0 as int)
                < c.params@.len(),
            old(self).error_count < u64::MAX,
        ensures
            *final(self) == (Discharge {
                diagnostics: final(self).diagnostics,
                error_count: final(self).error_count,
                ..*old(self)
            }),
            final(self).error_count == old(self).error_count + 1,
            final(self).diagnostics@.len() == old(self).diagnostics@.len() + 1,
            diags_view(final(self).diagnostics@) == diags_view(old(self).diagnostics@).push(
                expected_diag_s(*c, old(self).show_models, f, *assign),
            ),
    {
        let cq = consequent(c, f.prop);
        let mut note = String::from_str("Cannot prove constraint: ");
        let shown = display_prop(c, cq);
        note.append(shown.as_str());
        proof {
            assert(note@ =~= cannot_prove_note_s(*c, f));
        }
        let mut notes: Vec<String> = Vec::new();
        notes.push(note);
        let diag = match &c.infos[f.reason] {
            Info::Assert(p) => {
                if self.show_models && self.assign_nonempty(assign) {
                    let mut cx = String::from_str("Counterexample: ");
                    let disp = assign.display(c);
                    cx.append(disp.as_str());
                    cx.append(" (unmentioned parameters are 0)");
                    proof {
                        assert(cx@ =~= counterexample_note_s(*c, *assign));
                    }
                    notes.push(cx);
                }
                Diag { pos: Some(*p), notes }
            },
            Info::Unknown => {
                notes.push(String::from_str("No information was given on who generated this error"));
                Diag { pos: None, notes }
            },
        };
        let ghost dv = (diag.pos, notes_view(diag));
        self.diagnostics.push(diag);
        self.error_count = self.error_count + 1;
        proof {
            assert(dv == expected_diag_s(*c, self.show_models, f, *assign)) by {
                match c.infos@[f.reason as int] {
                    Info::Assert(p) => {
                        if self.show_models && assign.0@.len() > 0 {
                            assert(notes_view(diag) =~= seq![cannot_prove_note_s(*c, f)] + seq![
                                counterexample_note_s(*c, *assign),
                            ]);
                        } else {
                            assert(notes_view(diag) =~= seq![cannot_prove_note_s(*c, f)]
                                + Seq::<Seq<char>>::empty());
                        }
                    },
                    Info::Unknown => {
                        assert(notes_view(diag) =~= seq![
                            cannot_prove_note_s(*c, f),
                            "No information was given on who generated this error"@,
                        ]);
                    },
                }
            }
            assert(diags_view(self.diagnostics@) =~= diags_view(old(self).diagnostics@).push(dv));
        }
    }

    /// Is the assignment nonempty?
    fn assign_nonempty(&self, a: &Assign) -> (r: bool)
        ensures
            r == (a.0@.len() > 0),
    {
        a.0.len() > 0
    }

    /// Begin the individual check of obligation `i`.  A proposition
    /// already checked is not re-queried: its recorded outcome is
    /// replayed, emitting the diagnostic again if it failed.
    pub fn fact_query(&mut self, i: usize, c: &Component) -> (r: FactQuery)
        requires
            c.wf(),
            old(self).maps_named(*c),
            old(self).facts_ok(*c),
            old(self).checked_ok(*c),
            i < old(self).to_prove@.len(),
            old(self).pending is None,
            !old(self).bulk_pending,
            old(self).act_lit_count < u32::MAX,
            old(self).error_count < u64::MAX,
        ensures
            final(self).maps_named(*c),
            final(self).facts_ok(*c),
            final(self).checked_ok(*c),
            final(self).to_prove == old(self).to_prove,
            final(self).solver == old(self).solver,
            final(self).show_models == old(self).show_models,
            !final(self).bulk_pending,
            match r {
                FactQuery::Cached => {
                    &&& final(self).pending is None
                    &&& final(self).act_lit_count == old(self).act_lit_count
                    &&& !(old(self).checked@[old(self).to_prove@[i as int].prop as int]
                        is Unchecked)
                    &&& final(self).checked == old(self).checked
                    &&& (match old(self).checked@[old(self).to_prove@[i as int].prop as int] {
                        CheckedStatus::Proved => final(self).diagnostics == old(self).diagnostics
                            && final(self).error_count == old(self).error_count,
                        CheckedStatus::Failed(a) => diags_view(final(self).diagnostics@)
                            == diags_view(old(self).diagnostics@).push(
                            expected_diag_s(*c, old(self).show_models, old(self).to_prove@[i as int], a),
                        ),
                        CheckedStatus::Unchecked => false,
                    })
                },
                FactQuery::Query { cmds, check } => {
                    &&& old(self).checked@[old(self).to_prove@[i as int].prop as int] is Unchecked
                    &&& final(self).checked == old(self).checked
                    &&& final(self).diagnostics == old(self).diagnostics
                    &&& final(self).error_count == old(self).error_count
                    &&& final(self).act_lit_count == old(self).act_lit_count + 1
                    &&& final(self).pending matches Some(p) && p.fact == i && p.prop == old(
                        self,
                    ).to_prove@[i as int].prop && p.actlit == final(self).act_lit_count
                        && p.params is None
                    &&& cmds@.len() == 2
                    &&& cmds@[0]@ == declare_bool_s(act_name_s(final(self).act_lit_count as int))
                    &&& cmds@[1]@ == imp_cmd_s(
                        final(self).act_lit_count as int,
                        old(self).to_prove@[i as int].prop as int,
                    )
                    &&& check@ == check_assuming_s(final(self).act_lit_count as int)
                },
            },
    {
        let f = self.to_prove[i];
        proof {
            assert(crate::ir::fact_wf(
                self.to_prove@[i as int],
                c.props@.len() as int,
                c.infos@.len() as int,
            ));
        }
        let already = match &self.checked[f.prop] {
            CheckedStatus::Unchecked => false,
            _ => true,
        };
        if already {
            let replay = match &self.checked[f.prop] {
                CheckedStatus::Failed(a) => Some(a.clone()),
                _ => None,
            };
            match replay {
                Some(a) => {
                    proof {
                        let stored = old(self).checked@[f.prop as int]->Failed_0;
                        assert(match old(self).checked@[f.prop as int] {
                            CheckedStatus::Failed(x) => forall|q: int|
                                0 <= q < x.0@.len() ==> ((#[trigger] x.0@[q]).0 as int)
                                    < c.params@.len(),
                            _ => true,
                        });
                        assert(assign_view(a) == assign_view(stored));
                        assert(a.0@.len() == assign_view(a).len());
                        assert(stored.0@.len() == assign_view(stored).len());
                        assert forall|q: int|
                            0 <= q < a.0@.len() implies ((#[trigger] a.0@[q]).0 as int)
                            < c.params@.len() by {
                            assert(0 <= q < stored.0@.len());
                            assert(assign_view(a)[q] == assign_view(stored)[q]);
                            assert(assign_view(stored)[q] == (stored.0@[q].0, stored.0@[q].1@));
                            assert(assign_view(a)[q] == (a.0@[q].0, a.0@[q].1@));
                            assert((stored.0@[q].0 as int) < c.params@.len());
                        }
                    }
                    self.push_diag(c, f, &a);
                    proof {
                        lemma_diag_same_assign(*c, self.show_models, f, a,
                            old(self).checked@[f.prop as int]->Failed_0);
                    }
                },
                None => {},
            }
            FactQuery::Cached
        } else {
            self.act_lit_count = self.act_lit_count + 1;
            let nm = name_with_index("act_lit", self.act_lit_count as usize);
            proof {
                assert(self.act_lit_count as usize as int == self.act_lit_count as int);
            }
            let decl = cmd_declare_bool(nm.as_str());
            let pname = name_with_index("prop", f.prop);
            let neg = app1("not", pname.as_str());
            let imp = app2("=>", nm.as_str(), neg.as_str());
            let impc = cmd_assert(imp.as_str());
            let mut check = String::from_str("(check-sat-assuming (");
            check.append(nm.as_str());
            check.append("))");
            proof {
                assert(check@ =~= check_assuming_s(self.act_lit_count as int));
            }
            let mut cmds: Vec<String> = Vec::new();
            cmds.push(decl);
            cmds.push(impc);
            self.pending = Some(
                Pending { fact: i, prop: f.prop, actlit: self.act_lit_count, params: None },
            );
            FactQuery::Query { cmds, check }
        }
    }
}

/// Two assignments with the same view yield the same diagnostic.
proof fn lemma_diag_same_assign(c: Component, show_models: bool, f: Fact, a: Assign, b: Assign)
    requires
        assign_view(a) == assign_view(b),
    ensures
        expected_diag_s(c, show_models, f, a) == expected_diag_s(c, show_models, f, b),
{
    assert(a.0@.len() == assign_view(a).len());
    assert(b.0@.len() == assign_view(b).len());
}

} // verus!

verus! {

impl Discharge {
    /// Take the answer of an individual check.  `unsat` proves the
    /// obligation (its failure was due to conjunction with others);
    /// `sat` refutes it, and when models are shown and the consequent
    /// mentions parameters, their values are requested before the
    /// activation literal is retired.
    pub fn fact_response(&mut self, resp: Response, c: &Component) -> (r: ModelNeed)
        requires
            c.wf(),
            old(self).maps_named(*c),
            old(self).facts_ok(*c),
            old(self).checked_ok(*c),
            !(resp is Unknown),
            old(self).pending matches Some(p) && p.fact < old(self).to_prove@.len() && p.params
                is None && p.prop == old(self).to_prove@[p.fact as int].prop,
            old(self).error_count < u64::MAX,
        ensures
            final(self).maps_named(*c),
            final(self).facts_ok(*c),
            final(self).checked_ok(*c),
            final(self).to_prove == old(self).to_prove,
            final(self).solver == old(self).solver,
            final(self).show_models == old(self).show_models,
            !final(self).bulk_pending == !old(self).bulk_pending,
            ({
                let p = old(self).pending->Some_0;
                let f = old(self).to_prove@[p.fact as int];
                match r {
                    ModelNeed::Disable { cmd } => {
                        &&& cmd@ == disable_cmd_s(p.actlit as int)
                        &&& final(self).pending is None
                        &&& (match resp {
                            Response::Unsat => {
                                &&& final(self).checked@ == old(self).checked@.update(
                                    p.prop as int,
                                    CheckedStatus::Proved,
                                )
                                &&& final(self).diagnostics == old(self).diagnostics
                                &&& final(self).error_count == old(self).error_count
                            },
                            Response::Sat => {
                                &&& !(old(self).show_models && dedup_from(
                                    prop_params_s(*c, consequent_s(c.props@, p.prop as int)),
                                    Seq::empty(),
                                ).len() > 0)
                                &&& final(self).checked@[p.prop as int] matches
                                    CheckedStatus::Failed(a) && a.0@.len() == 0
                                &&& diags_view(final(self).diagnostics@) == diags_view(
                                    old(self).diagnostics@,
                                ).push(
                                    expected_diag_s(
                                        *c,
                                        old(self).show_models,
                                        f,
                                        final(self).checked@[p.prop as int]->Failed_0,
                                    ),
                                )
                            },
                            Response::Unknown => false,
                        })
                    },
                    ModelNeed::GetValue { cmd, count } => {
                        &&& resp is Sat
                        &&& old(self).show_models
                        &&& dedup_from(
                            prop_params_s(*c, consequent_s(c.props@, p.prop as int)),
                            Seq::empty(),
                        ).len() > 0
                        &&& cmd@ == get_value_s(
                            old(self).solver,
                            strs_view(c.params@),
                            dedup_from(
                                prop_params_s(*c, consequent_s(c.props@, p.prop as int)),
                                Seq::empty(),
                            ),
                        )
                        &&& count == dedup_from(
                            prop_params_s(*c, consequent_s(c.props@, p.prop as int)),
                            Seq::empty(),
                        ).len()
                        &&& final(self).pending matches Some(p2) && p2.fact == p.fact && p2.prop
                            == p.prop && p2.actlit == p.actlit
                        &&& (final(self).pending->Some_0.params matches Some(ps) && ps@
                            == dedup_from(
                            prop_params_s(*c, consequent_s(c.props@, p.prop as int)),
                            Seq::empty(),
                        ))
                        &&& final(self).checked == old(self).checked
                        &&& final(self).diagnostics == old(self).diagnostics
                        &&& final(self).error_count == old(self).error_count
                    },
                }
            }),
    {
        let (fact_i, prop_i, actlit) = match &self.pending {
            Some(p) => (p.fact, p.prop, p.actlit),
            None => {
                proof {
                    assert(false);
                }
                (0, 0, 0)
            },
        };
        let f = self.to_prove[fact_i];
        proof {
            assert(crate::ir::fact_wf(
                self.to_prove@[fact_i as int],
                c.props@.len() as int,
                c.infos@.len() as int,
            ));
        }
        match resp {
            Response::Unsat => {
                self.checked.set(prop_i, CheckedStatus::Proved);
                self.pending = None;
                let nm = name_with_index("act_lit", actlit as usize);
                proof {
                    assert(actlit as usize as int == actlit as int);
                }
                let neg = app1("not", nm.as_str());
                let cmd = cmd_assert(neg.as_str());
                ModelNeed::Disable { cmd }
            },
            _ => {
                if self.show_models {
                    let cq = consequent(c, prop_i);
                    let ps = prop_params(c, cq);
                    if ps.len() > 0 {
                        let mut cmd = String::from_str("(get-value (");
                        let ghost psv = ps@;
                        let m = ps.len();
                        proof {
                            assert(gv_tail_s(self.solver, strs_view(c.params@), psv, m as int)
                                =~= Seq::<char>::empty());
                        }
                        for j in 0..m
                            invariant
                                m == psv.len(),
                                ps@ == psv,
                                self.maps_named(*c),
                                forall|q: int| 0 <= q < psv.len() ==> (#[trigger] psv[q] as int)
                                    < c.params@.len(),
                                cmd@ + gv_tail_s(self.solver, strs_view(c.params@), psv, j as int)
                                    =~= "(get-value ("@ + gv_tail_s(
                                    self.solver,
                                    strs_view(c.params@),
                                    psv,
                                    0,
                                ),
                        {
                            let ghost pre = cmd@;
                            if j > 0 {
                                cmd.append(" ");
                            }
                            let nm = fmt_param_name(self.solver, &c.params, ps[j]);
                            cmd.append(nm.as_str());
                            proof {
                                assert(gv_tail_s(self.solver, strs_view(c.params@), psv, j as int)
                                    =~= (if j > 0 {
                                    " "@
                                } else {
                                    Seq::<char>::empty()
                                }) + param_name_s(
                                    self.solver,
                                    strs_view(c.params@),
                                    psv[j as int] as int,
                                ) + gv_tail_s(self.solver, strs_view(c.params@), psv, j + 1));
                                assert(cmd@ + gv_tail_s(self.solver, strs_view(c.params@), psv, j + 1)
                                    =~= "(get-value ("@ + gv_tail_s(
                                    self.solver,
                                    strs_view(c.params@),
                                    psv,
                                    0,
                                ));
                            }
                        }
                        cmd.append("))");
                        proof {
                            assert(cmd@ =~= get_value_s(self.solver, strs_view(c.params@), psv));
                        }
                        let count = ps.len();
                        self.pending = Some(
                            Pending { fact: fact_i, prop: prop_i, actlit, params: Some(ps) },
                        );
                        return ModelNeed::GetValue { cmd, count };
                    }
                }
                // No model requested: record an empty assignment.
                let a = Assign(Vec::new());
                proof {
                    assert(assign_view(a) =~= Seq::<(usize, Seq<char>)>::empty());
                }
                self.checked.set(prop_i, CheckedStatus::Failed(a));
                let stored = Assign(Vec::new());
                self.push_diag(c, f, &stored);
                proof {
                    lemma_diag_same_assign(
                        *c,
                        self.show_models,
                        f,
                        stored,
                        self.checked@[prop_i as int]->Failed_0,
                    );
                }
                self.pending = None;
                let nm = name_with_index("act_lit", actlit as usize);
                proof {
                    assert(actlit as usize as int == actlit as int);
                }
                let neg = app1("not", nm.as_str());
                let cmd = cmd_assert(neg.as_str());
                ModelNeed::Disable { cmd }
            },
        }
    }

    /// Take the model values for the requested parameters, record the
    /// counterexample, emit the diagnostic, and retire the activation
    /// literal.
    pub fn fact_model(&mut self, values: Vec<String>, c: &Component) -> (cmd: String)
        requires
            c.wf(),
            old(self).maps_named(*c),
            old(self).facts_ok(*c),
            old(self).checked_ok(*c),
            old(self).pending matches Some(p) && p.fact < old(self).to_prove@.len() && p.prop
                == old(self).to_prove@[p.fact as int].prop,
            old(self).pending->Some_0.params matches Some(ps) && ps@.len() == values@.len() && (
            forall|q: int| 0 <= q < ps@.len() ==> (#[trigger] ps@[q] as int) < c.params@.len()),
            old(self).error_count < u64::MAX,
        ensures
            final(self).maps_named(*c),
            final(self).facts_ok(*c),
            final(self).checked_ok(*c),
            final(self).to_prove == old(self).to_prove,
            final(self).solver == old(self).solver,
            final(self).show_models == old(self).show_models,
            final(self).pending is None,
            ({
                let p = old(self).pending->Some_0;
                let f = old(self).to_prove@[p.fact as int];
                let ps = p.params->Some_0;
                &&& cmd@ == disable_cmd_s(p.actlit as int)
                &&& final(self).checked@[p.prop as int] matches CheckedStatus::Failed(a)
                    && assign_view(a) == Seq::new(
                    ps@.len(),
                    |q: int| (ps@[q], values@[q]@),
                )
                &&& diags_view(final(self).diagnostics@) == diags_view(
                    old(self).diagnostics@,
                ).push(
                    expected_diag_s(
                        *c,
                        old(self).show_models,
                        f,
                        final(self).checked@[p.prop as int]->Failed_0,
                    ),
                )
            }),
    {
        let (fact_i, prop_i, actlit) = match &self.pending {
            Some(p) => (p.fact, p.prop, p.actlit),
            None => {
                proof {
                    assert(false);
                }
                (0, 0, 0)
            },
        };
        let ps = match &self.pending {
            Some(p) => match &p.params {
                Some(ps) => ps.clone(),
                None => {
                    proof {
                        assert(false);
                    }
                    Vec::new()
                },
            },
            None => {
                proof {
                    assert(false);
                }
                Vec::new()
            },
        };
        let f = self.to_prove[fact_i];
        proof {
            assert(crate::ir::fact_wf(
                self.to_prove@[fact_i as int],
                c.props@.len() as int,
                c.infos@.len() as int,
            ));
        }
        let mut pairs: Vec<(usize, String)> = Vec::new();
        let n = ps.len();
        let ghost values0 = values@;
        let mut vals = values;
        for j in 0..n
            invariant
                n == ps@.len(),
                values0.len() == n,
                vals@.len() == n - j,
                pairs@.len() == j,
                forall|q: int|
                    0 <= q < j ==> (#[trigger] pairs@[q]).0 == ps@[q] && pairs@[q].1@
                        == values0[q]@,
                forall|q: int| 0 <= q < n - j ==> (#[trigger] vals@[q])@ == values0[j + q]@,
                forall|q: int| 0 <= q < ps@.len() ==> (#[trigger] ps@[q] as int) < c.params@.len(),
        {
            let ghost prevals = vals@;
            let v = vals.remove(0);
            pairs.push((ps[j], v));
            proof {
                assert(vals@ =~= prevals.drop_first());
            }
        }
        let a = Assign(pairs);
        let a2 = a.clone();
        proof {
            assert(assign_view(a) =~= Seq::new(ps@.len(), |q: int| (ps@[q], values0[q]@)));
            assert forall|q: int| 0 <= q < a.0@.len() implies ((#[trigger] a.0@[q]).0 as int)
                < c.params@.len() by {
                assert(a.0@[q].0 == ps@[q]);
            }
            assert forall|q: int| 0 <= q < a2.0@.len() implies ((#[trigger] a2.0@[q]).0 as int)
                < c.params@.len() by {
                assert(assign_view(a2)[q] == assign_view(a)[q]);
                assert(assign_view(a2)[q] == (a2.0@[q].0, a2.0@[q].1@));
                assert(assign_view(a)[q] == (a.0@[q].0, a.0@[q].1@));
            }
        }
        self.checked.set(prop_i, CheckedStatus::Failed(a));
        self.push_diag(c, f, &a2);
        proof {
            lemma_diag_same_assign(
                *c,
                self.show_models,
                f,
                a2,
                self.checked@[prop_i as int]->Failed_0,
            );
        }
        self.pending = None;
        let nm = name_with_index("act_lit", actlit as usize);
        proof {
            assert(actlit as usize as int == actlit as int);
        }
        let neg = app1("not", nm.as_str());
        cmd_assert(neg.as_str())
    }
}

} // verus!
