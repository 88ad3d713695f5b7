//! Intervals and ranges of symbolic times, and the signature types that
//! carry them.

use crate::errors::CheckError;
use crate::fsm_idx::{
    all_bound, bounded, bounded_binding, lemma_bounded_can_resolve, resolve_seq,
    Binding, FsmIdxs,
};
use crate::id::Id;
use vstd::prelude::*;

verus! {

/// An ordered pair `{start, end}` of time expressions.
pub struct Range {
    /// When the range opens.
    pub start: FsmIdxs,
    /// When the range closes.
    pub end: FsmIdxs,
}

/// A port's liveness: a nominal `within` range paired with an optional
/// `exact` range.
pub struct Interval {
    /// The range the port is live within.
    pub within: Range,
    /// The exact range of liveness, when one is known.
    pub exact: Option<Range>,
}

/// A port definition: name, optional liveness interval, bitwidth.
pub struct PortDef {
    /// Name of the port.
    pub name: Id,
    /// Liveness condition for the port.
    pub liveness: Option<Interval>,
    /// Bitwidth of the port.
    pub bitwidth: u64,
}

/// Comparisons available in parametric constraints.
#[derive(Clone, Copy, PartialEq, Eq, Structural, Debug)]
pub enum OrderOp {
    /// Strictly greater.
    Gt,
    /// Greater or equal.
    Gte,
    /// Equal.
    Eq,
}

/// A parametric constraint between two time expressions.
pub struct Constraint {
    /// Left-hand side.
    pub lhs: FsmIdxs,
    /// The comparison.
    pub op: OrderOp,
    /// Right-hand side.
    pub rhs: FsmIdxs,
}

/// A component interface: ordered inputs and outputs, abstract time
/// variables, and parametric constraints.
pub struct Signature {
    /// Name of the component.
    pub name: Id,
    /// Names of abstract variables bound by the component.
    pub abstract_vars: Vec<Id>,
    /// Input ports.
    pub inputs: Vec<PortDef>,
    /// Output ports.
    pub outputs: Vec<PortDef>,
    /// Constraints on the abstract variables.
    pub constraints: Vec<Constraint>,
}

impl Range {
    /// Both endpoints are single summands over the same event.
    pub open spec fn is_offset_form(&self) -> bool {
        self.start@.len() == 1 && self.end@.len() == 1 && self.start@[0].0 == self.end@[0].0
    }

    /// Convert this range into an offset.  Only possible when the range
    /// uses exactly one event for both start and end.
    pub fn as_offset(&self) -> (r: Option<(Id, u64, u64)>)
        ensures
            r == if self.is_offset_form() {
                Some((Id(self.start@[0].0), self.start@[0].1, self.end@[0].1))
            } else {
                None::<(Id, u64, u64)>
            },
    {
        match self.start.as_unit() {
            None => None,
            Some((s_ev, s_st)) => match self.end.as_unit() {
                None => None,
                Some((e_ev, e_st)) => {
                    if s_ev == e_ev {
                        Some((s_ev, s_st, e_st))
                    } else {
                        None
                    }
                },
            },
        }
    }

    /// Every offset mentioned stays within `u32`, so one substitution
    /// cannot overflow.
    pub open spec fn bounded_range(&self) -> bool {
        bounded(self.start@) && bounded(self.end@)
    }

    /// Both endpoints resolve under `b`.
    pub open spec fn resolvable(&self, b: Seq<(u64, Seq<(u64, u64)>)>) -> bool {
        all_bound(self.start@, b) && all_bound(self.end@, b)
    }

    /// Substitute both endpoints.
    pub fn resolve(&self, bindings: &Binding) -> (r: Result<Range, CheckError>)
        requires
            self.bounded_range(),
            bounded_binding(bindings@),
        ensures
            match r {
                Ok(out) => {
                    &&& self.resolvable(bindings@)
                    &&& out.start@ == resolve_seq(self.start@, bindings@)
                    &&& out.end@ == resolve_seq(self.end@, bindings@)
                },
                Err(e) => {
                    &&& !self.resolvable(bindings@)
                    &&& e matches CheckError::UnboundEvent(_)
                },
            },
    {
        proof {
            lemma_bounded_can_resolve(self.start@, bindings@);
            lemma_bounded_can_resolve(self.end@, bindings@);
        }
        let start = match self.start.resolve(bindings) {
            Ok(s) => s,
            Err(e) => {
                return Err(e);
            },
        };
        let end = match self.end.resolve(bindings) {
            Ok(s) => s,
            Err(e) => {
                return Err(e);
            },
        };
        Ok(Range { start, end })
    }
}

impl Interval {
    /// Attempts to convert the interval into `(event, start, end)`.
    /// Only possible when the exact range uses exactly the one event for
    /// both start and end.
    pub fn as_exact_offset(&self) -> (r: Option<(Id, u64, u64)>)
        ensures
            r == match self.exact {
                Some(rng) => if rng.is_offset_form() {
                    Some((Id(rng.start@[0].0), rng.start@[0].1, rng.end@[0].1))
                } else {
                    None::<(Id, u64, u64)>
                },
                None => None::<(Id, u64, u64)>,
            },
    {
        match &self.exact {
            Some(inv) => inv.as_offset(),
            None => None,
        }
    }

    /// Every offset of both ranges stays within `u32`.
    pub open spec fn bounded_interval(&self) -> bool {
        &&& self.within.bounded_range()
        &&& match self.exact {
            Some(rng) => rng.bounded_range(),
            None => true,
        }
    }

    /// Both ranges resolve under `b`.
    pub open spec fn resolvable(&self, b: Seq<(u64, Seq<(u64, u64)>)>) -> bool {
        &&& self.within.resolvable(b)
        &&& match self.exact {
            Some(rng) => rng.resolvable(b),
            None => true,
        }
    }

    /// Substitute every endpoint of the interval.
    pub fn resolve(&self, bindings: &Binding) -> (r: Result<Interval, CheckError>)
        requires
            self.bounded_interval(),
            bounded_binding(bindings@),
        ensures
            match r {
                Ok(out) => {
                    &&& self.resolvable(bindings@)
                    &&& out.within.start@ == resolve_seq(self.within.start@, bindings@)
                    &&& out.within.end@ == resolve_seq(self.within.end@, bindings@)
                    &&& match self.exact {
                        Some(rng) => {
                            &&& out.exact matches Some(orng)
                            &&& orng.start@ == resolve_seq(rng.start@, bindings@)
                            &&& orng.end@ == resolve_seq(rng.end@, bindings@)
                        },
                        None => out.exact is None,
                    }
                },
                Err(e) => {
                    &&& !self.resolvable(bindings@)
                    &&& e matches CheckError::UnboundEvent(_)
                },
            },
    {
        let within = match self.within.resolve(bindings) {
            Ok(w) => w,
            Err(e) => {
                return Err(e);
            },
        };
        let exact = match &self.exact {
            Some(rng) => match rng.resolve(bindings) {
                Ok(x) => Some(x),
                Err(e) => {
                    return Err(e);
                },
            },
            None => None,
        };
        Ok(Interval { within, exact })
    }
}

impl PortDef {
    /// Attempts to convert this port definition into an interface signal
    /// and return the associated event: possible exactly when its
    /// liveness is an exact single-event offset.
    pub fn as_interface_port(&self) -> (r: Option<Id>)
        ensures
            r == match self.liveness {
                Some(inv) => match inv.exact {
                    Some(rng) => if rng.is_offset_form() {
                        Some(Id(rng.start@[0].0))
                    } else {
                        None::<Id>
                    },
                    None => None::<Id>,
                },
                None => None::<Id>,
            },
    {
        match &self.liveness {
            Some(inv) => match inv.as_exact_offset() {
                Some(off) => Some(off.0),
                None => None,
            },
            None => None,
        }
    }
}

impl Constraint {
    /// Every offset on both sides stays within `u32`.
    pub open spec fn bounded_constraint(&self) -> bool {
        bounded(self.lhs@) && bounded(self.rhs@)
    }

    /// Both sides resolve under `b`.
    pub open spec fn resolvable(&self, b: Seq<(u64, Seq<(u64, u64)>)>) -> bool {
        all_bound(self.lhs@, b) && all_bound(self.rhs@, b)
    }

    /// Substitute both sides of the constraint.
    pub fn resolve(&self, bindings: &Binding) -> (r: Result<Constraint, CheckError>)
        requires
            self.bounded_constraint(),
            bounded_binding(bindings@),
        ensures
            match r {
                Ok(out) => {
                    &&& self.resolvable(bindings@)
                    &&& out.lhs@ == resolve_seq(self.lhs@, bindings@)
                    &&& out.rhs@ == resolve_seq(self.rhs@, bindings@)
                    &&& out.op == self.op
                },
                Err(e) => {
                    &&& !self.resolvable(bindings@)
                    &&& e matches CheckError::UnboundEvent(_)
                },
            },
    {
        proof {
            lemma_bounded_can_resolve(self.lhs@, bindings@);
            lemma_bounded_can_resolve(self.rhs@, bindings@);
        }
        let lhs = match self.lhs.resolve(bindings) {
            Ok(s) => s,
            Err(e) => {
                return Err(e);
            },
        };
        let rhs = match self.rhs.resolve(bindings) {
            Ok(s) => s,
            Err(e) => {
                return Err(e);
            },
        };
        Ok(Constraint { lhs, op: self.op, rhs })
    }
}

impl Clone for Range {
    /// The clone denotes the same pair of time expressions.
    fn clone(&self) -> (r: Self)
        ensures
            r.start@ == self.start@,
            r.end@ == self.end@,
    {
        Range { start: self.start.clone(), end: self.end.clone() }
    }
}

impl Clone for Interval {
    /// The clone denotes the same interval.
    fn clone(&self) -> (r: Self)
        ensures
            r.within.start@ == self.within.start@,
            r.within.end@ == self.within.end@,
            match self.exact {
                Some(rng) => r.exact matches Some(orng) && orng.start@ == rng.start@ && orng.end@
                    == rng.end@,
                None => r.exact is None,
            },
    {
        Interval {
            within: self.within.clone(),
            exact: match &self.exact {
                Some(rng) => Some(rng.clone()),
                None => None,
            },
        }
    }
}

impl Signature {
    /// The reversed interface: inputs and outputs swapped.  The current
    /// component receives at its inputs and provides at its outputs, so
    /// a bare port reference resolves against this reversal.
    pub fn reversed(self) -> (r: Signature)
        ensures
            r.name == self.name,
            r.abstract_vars == self.abstract_vars,
            r.inputs == self.outputs,
            r.outputs == self.inputs,
            r.constraints == self.constraints,
    {
        Signature {
            name: self.name,
            abstract_vars: self.abstract_vars,
            inputs: self.outputs,
            outputs: self.inputs,
            constraints: self.constraints,
        }
    }
}

/// Law: when `as_offset` yields `(e, s, t)`, the range is exactly the
/// one reconstructed from that triple, one unit summand per endpoint.
pub proof fn lemma_exact_offset_roundtrip(rng: Range, e: Id, s: u64, t: u64)
    requires
        rng.is_offset_form(),
        e == Id(rng.start@[0].0),
        s == rng.start@[0].1,
        t == rng.end@[0].1,
    ensures
        rng.start@ == seq![(e.0, s)],
        rng.end@ == seq![(e.0, t)],
{
    assert(rng.start@ =~= seq![(e.0, s)]);
    assert(rng.end@ =~= seq![(e.0, t)]);
}

} // verus!

verus! {

// ---------------------------------------------------------------------
// Mathematical models of the interval types, used by contracts.
// ---------------------------------------------------------------------

/// Model of a [`Range`]: the summand sequences of both endpoints.
#[verifier::ext_equal]
pub struct RangeModel {
    /// Summands of the start expression.
    pub start: Seq<(u64, u64)>,
    /// Summands of the end expression.
    pub end: Seq<(u64, u64)>,
}

/// Model of an [`Interval`].
#[verifier::ext_equal]
pub struct IntervalModel {
    /// Model of the `within` range.
    pub within: RangeModel,
    /// Model of the `exact` range, when present.
    pub exact: Option<RangeModel>,
}

/// Model of a [`Constraint`].
#[verifier::ext_equal]
pub struct ConstraintModel {
    /// Summands of the left-hand side.
    pub lhs: Seq<(u64, u64)>,
    /// The comparison.
    pub op: OrderOp,
    /// Summands of the right-hand side.
    pub rhs: Seq<(u64, u64)>,
}

/// Model of a [`PortDef`].
#[verifier::ext_equal]
pub struct PortDefModel {
    /// Port name.
    pub name: Id,
    /// Model of the liveness interval, when present.
    pub liveness: Option<IntervalModel>,
    /// Bitwidth.
    pub bitwidth: u64,
}

/// Model of a [`Signature`].
#[verifier::ext_equal]
pub struct SigModel {
    /// Component name.
    pub name: Id,
    /// Abstract variable names.
    pub abstract_vars: Seq<Id>,
    /// Input port models.
    pub inputs: Seq<PortDefModel>,
    /// Output port models.
    pub outputs: Seq<PortDefModel>,
    /// Constraint models.
    pub constraints: Seq<ConstraintModel>,
}

/// The model of a range.
pub open spec fn range_model(r: Range) -> RangeModel {
    RangeModel { start: r.start@, end: r.end@ }
}

/// The model of an interval.
pub open spec fn interval_model(i: Interval) -> IntervalModel {
    IntervalModel {
        within: range_model(i.within),
        exact: match i.exact {
            Some(rng) => Some(range_model(rng)),
            None => None,
        },
    }
}

/// The model of a constraint.
pub open spec fn constraint_model(c: Constraint) -> ConstraintModel {
    ConstraintModel { lhs: c.lhs@, op: c.op, rhs: c.rhs@ }
}

/// The model of a port definition.
pub open spec fn portdef_model(p: PortDef) -> PortDefModel {
    PortDefModel {
        name: p.name,
        liveness: match p.liveness {
            Some(inv) => Some(interval_model(inv)),
            None => None,
        },
        bitwidth: p.bitwidth,
    }
}

/// The models of a sequence of port definitions.
pub open spec fn ports_model(s: Seq<PortDef>) -> Seq<PortDefModel> {
    s.map_values(|p: PortDef| portdef_model(p))
}

/// The models of a sequence of constraints.
pub open spec fn constraints_model(s: Seq<Constraint>) -> Seq<ConstraintModel> {
    s.map_values(|c: Constraint| constraint_model(c))
}

/// The model of a signature.
pub open spec fn sig_model(s: Signature) -> SigModel {
    SigModel {
        name: s.name,
        abstract_vars: s.abstract_vars@,
        inputs: ports_model(s.inputs@),
        outputs: ports_model(s.outputs@),
        constraints: constraints_model(s.constraints@),
    }
}

/// Substitution applied to a range model.
pub open spec fn resolve_range_model(
    r: RangeModel,
    b: Seq<(u64, Seq<(u64, u64)>)>,
) -> RangeModel {
    RangeModel { start: resolve_seq(r.start, b), end: resolve_seq(r.end, b) }
}

/// Substitution applied to an interval model.
pub open spec fn resolve_interval_model(
    i: IntervalModel,
    b: Seq<(u64, Seq<(u64, u64)>)>,
) -> IntervalModel {
    IntervalModel {
        within: resolve_range_model(i.within, b),
        exact: match i.exact {
            Some(rng) => Some(resolve_range_model(rng, b)),
            None => None,
        },
    }
}

/// A range model resolves when both endpoints do.
pub open spec fn range_model_resolvable(r: RangeModel, b: Seq<(u64, Seq<(u64, u64)>)>) -> bool {
    all_bound(r.start, b) && all_bound(r.end, b)
}

/// An interval model resolves when both of its ranges do.
pub open spec fn interval_model_resolvable(
    i: IntervalModel,
    b: Seq<(u64, Seq<(u64, u64)>)>,
) -> bool {
    &&& range_model_resolvable(i.within, b)
    &&& match i.exact {
        Some(rng) => range_model_resolvable(rng, b),
        None => true,
    }
}

/// The first port of `ports` with the given name.
pub open spec fn find_port(ports: Seq<PortDefModel>, name: Id) -> Option<PortDefModel>
    decreases ports.len(),
{
    if ports.len() == 0 {
        None
    } else if ports[0].name == name {
        Some(ports[0])
    } else {
        find_port(ports.drop_first(), name)
    }
}

impl Clone for PortDef {
    /// The clone denotes the same port.
    fn clone(&self) -> (r: Self)
        ensures
            portdef_model(r) == portdef_model(*self),
    {
        PortDef {
            name: self.name,
            liveness: match &self.liveness {
                Some(inv) => Some(inv.clone()),
                None => None,
            },
            bitwidth: self.bitwidth,
        }
    }
}

impl Clone for Constraint {
    /// The clone denotes the same constraint.
    fn clone(&self) -> (r: Self)
        ensures
            constraint_model(r) == constraint_model(*self),
    {
        Constraint { lhs: self.lhs.clone(), op: self.op, rhs: self.rhs.clone() }
    }
}

impl Clone for Signature {
    /// The clone denotes the same interface.
    fn clone(&self) -> (r: Self)
        ensures
            sig_model(r) == sig_model(*self),
    {
        let mut inputs: Vec<PortDef> = Vec::new();
        let n_in = self.inputs.len();
        for i in 0..n_in
            invariant
                n_in == self.inputs.len(),
                inputs@.len() == i,
                forall|j: int|
                    0 <= j < i ==> portdef_model(#[trigger] inputs@[j]) == portdef_model(
                        self.inputs@[j],
                    ),
        {
            inputs.push(self.inputs[i].clone());
        }
        let mut outputs: Vec<PortDef> = Vec::new();
        let n_out = self.outputs.len();
        for i in 0..n_out
            invariant
                n_out == self.outputs.len(),
                outputs@.len() == i,
                forall|j: int|
                    0 <= j < i ==> portdef_model(#[trigger] outputs@[j]) == portdef_model(
                        self.outputs@[j],
                    ),
        {
            outputs.push(self.outputs[i].clone());
        }
        let mut constraints: Vec<Constraint> = Vec::new();
        let n_con = self.constraints.len();
        for i in 0..n_con
            invariant
                n_con == self.constraints.len(),
                constraints@.len() == i,
                forall|j: int|
                    0 <= j < i ==> constraint_model(#[trigger] constraints@[j]) == constraint_model(
                        self.constraints@[j],
                    ),
        {
            constraints.push(self.constraints[i].clone());
        }
        let mut abstract_vars: Vec<Id> = Vec::new();
        let n_av = self.abstract_vars.len();
        for i in 0..n_av
            invariant
                n_av == self.abstract_vars.len(),
                abstract_vars@ =~= self.abstract_vars@.take(i as int),
        {
            abstract_vars.push(self.abstract_vars[i]);
            proof {
                assert(abstract_vars@ =~= self.abstract_vars@.take(i + 1));
            }
        }
        let r = Signature { name: self.name, abstract_vars, inputs, outputs, constraints };
        proof {
            assert(self.abstract_vars@.take(n_av as int) =~= self.abstract_vars@);
            assert(ports_model(r.inputs@) =~= ports_model(self.inputs@));
            assert(ports_model(r.outputs@) =~= ports_model(self.outputs@));
            assert(constraints_model(r.constraints@) =~= constraints_model(self.constraints@));
        }
        r
    }
}

impl Signature {
    /// Every liveness interval and constraint of the interface has
    /// bounded offsets, so one substitution step cannot overflow.
    pub open spec fn sig_wf(&self) -> bool {
        &&& forall|i: int|
            0 <= i < self.inputs@.len() ==> match (#[trigger] self.inputs@[i]).liveness {
                Some(inv) => inv.bounded_interval(),
                None => true,
            }
        &&& forall|i: int|
            0 <= i < self.outputs@.len() ==> match (#[trigger] self.outputs@[i]).liveness {
                Some(inv) => inv.bounded_interval(),
                None => true,
            }
        &&& forall|i: int|
            0 <= i < self.constraints@.len() ==> (#[trigger] self.constraints@[i]).bounded_constraint()
    }
}

/// A port with the same model as a bounded one is bounded.
pub proof fn lemma_portdef_bounded(a: PortDef, b: PortDef)
    requires
        portdef_model(a) == portdef_model(b),
        match a.liveness {
            Some(inv) => inv.bounded_interval(),
            None => true,
        },
    ensures
        match b.liveness {
            Some(inv) => inv.bounded_interval(),
            None => true,
        },
{
    match b.liveness {
        Some(inv) => {
            assert(a.liveness is Some);
            let inva = a.liveness.unwrap();
            assert(interval_model(inva) == interval_model(inv));
            assert(inv.within.start@ == inva.within.start@);
            assert(inv.within.end@ == inva.within.end@);
            match inv.exact {
                Some(rng) => {
                    assert(inva.exact is Some);
                    assert(rng.start@ == inva.exact.unwrap().start@);
                    assert(rng.end@ == inva.exact.unwrap().end@);
                },
                None => {
                    assert(inva.exact is None);
                },
            }
        },
        None => {},
    }
}

/// Well-formedness is a property of the model, so it survives cloning.
pub proof fn lemma_sig_wf_model(a: &Signature, b: &Signature)
    requires
        sig_model(*a) == sig_model(*b),
        a.sig_wf(),
    ensures
        b.sig_wf(),
{
    assert(ports_model(a.inputs@).len() == ports_model(b.inputs@).len());
    assert(ports_model(a.outputs@).len() == ports_model(b.outputs@).len());
    assert(constraints_model(a.constraints@).len() == constraints_model(b.constraints@).len());
    assert forall|i: int| 0 <= i < b.inputs@.len() implies match (#[trigger] b.inputs@[i]).liveness {
        Some(inv) => inv.bounded_interval(),
        None => true,
    } by {
        assert(ports_model(a.inputs@)[i] == ports_model(b.inputs@)[i]);
        lemma_portdef_bounded(a.inputs@[i], b.inputs@[i]);
    }
    assert forall|i: int|
        0 <= i < b.outputs@.len() implies match (#[trigger] b.outputs@[i]).liveness {
        Some(inv) => inv.bounded_interval(),
        None => true,
    } by {
        assert(ports_model(a.outputs@)[i] == ports_model(b.outputs@)[i]);
        lemma_portdef_bounded(a.outputs@[i], b.outputs@[i]);
    }
    assert forall|i: int|
        0 <= i < b.constraints@.len() implies (#[trigger] b.constraints@[i]).bounded_constraint() by {
        assert(constraints_model(a.constraints@)[i] == constraints_model(b.constraints@)[i]);
        assert(constraint_model(a.constraints@[i]) == constraint_model(b.constraints@[i]));
        assert(b.constraints@[i].lhs@ == a.constraints@[i].lhs@);
        assert(b.constraints@[i].rhs@ == a.constraints@[i].rhs@);
    }
}

} // verus!

verus! {

/// An interval with the same model as a bounded one is bounded.
pub proof fn lemma_interval_bounded_model(a: Interval, b: Interval)
    requires
        interval_model(a) == interval_model(b),
        a.bounded_interval(),
    ensures
        b.bounded_interval(),
{
    assert(b.within.start@ == a.within.start@);
    assert(b.within.end@ == a.within.end@);
    match b.exact {
        Some(rng) => {
            assert(a.exact is Some);
            assert(rng.start@ == a.exact.unwrap().start@);
            assert(rng.end@ == a.exact.unwrap().end@);
        },
        None => {},
    }
}

} // verus!
