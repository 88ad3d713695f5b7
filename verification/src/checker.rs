//! The algebra-level obligation checker.
//!
//! Walks a component's body and accumulates, for every connection and
//! invocation, the proof obligation that the destination's requirement
//! is contained in the source's guarantee, expressed over resolved
//! intervals.  The obligations are handed to the discharge session; this
//! module performs no solving itself.

use crate::ast::{Command, Connect, Instance, Invocation, Invoke, PortRef, When};
use crate::errors::CheckError;
use crate::fsm_idx::{bounded, bounded_binding, Binding, FsmIdxs};
use crate::id::{Id, Pos};
use crate::interval::{
    interval_model, ports_model, resolve_interval_model, Constraint, ConstraintModel, Interval,
    IntervalModel, PortDef, PortDefModel, RangeModel, SigModel, Signature,
};
use vstd::prelude::*;

verus! {

/// The identifier reserved for the synthetic instance that stands for
/// the current component.  A bare port reference resolves against it.
pub const THIS: u64 = 0xFFFF_FFFF_FFFF_FFFF;

/// An algebra-level fact: either an interval containment obligation or
/// a parametric constraint.
pub enum Fact {
    /// The destination's requirement must be contained in the source's
    /// guarantee.
    Subset {
        /// What the consumer needs.
        requirement: Interval,
        /// What the producer provides.
        guarantee: Interval,
    },
    /// A resolved parametric constraint.
    Constraint(Constraint),
}

impl Fact {
    /// The containment obligation `requirement ⊆ guarantee`.
    pub fn subset(requirement: Interval, guarantee: Interval) -> (r: Fact)
        ensures
            r == (Fact::Subset { requirement, guarantee }),
    {
        Fact::Subset { requirement, guarantee }
    }
}

impl Clone for Fact {
    /// The clone denotes the same fact.
    fn clone(&self) -> (r: Self)
        ensures
            fact_model(r) == fact_model(*self),
    {
        match self {
            Fact::Subset { requirement, guarantee } => Fact::Subset {
                requirement: requirement.clone(),
                guarantee: guarantee.clone(),
            },
            Fact::Constraint(c) => Fact::Constraint(c.clone()),
        }
    }
}

/// Model of a [`Fact`].
#[verifier::ext_equal]
pub enum FactModel {
    /// Containment of two interval models.
    Subset {
        /// What the consumer needs.
        requirement: IntervalModel,
        /// What the producer provides.
        guarantee: IntervalModel,
    },
    /// A constraint model.
    Constraint(ConstraintModel),
}

/// The model of a fact.
pub open spec fn fact_model(f: Fact) -> FactModel {
    match f {
        Fact::Subset { requirement, guarantee } => FactModel::Subset {
            requirement: interval_model(requirement),
            guarantee: interval_model(guarantee),
        },
        Fact::Constraint(c) => FactModel::Constraint(crate::interval::constraint_model(c)),
    }
}

/// The models of positioned obligations.
pub open spec fn obls_model(s: Seq<(Fact, Option<Pos>)>) -> Seq<(FactModel, Option<Pos>)> {
    s.map_values(|p: (Fact, Option<Pos>)| (fact_model(p.0), p.1))
}

/// The models of plain facts.
pub open spec fn facts_model(s: Seq<Fact>) -> Seq<FactModel> {
    s.map_values(|f: Fact| fact_model(f))
}

/// A concrete invocation: the invoked signature together with the
/// binding of its formal abstract variables to actual time expressions.
pub struct ConcreteInvoke {
    /// The invoked component's interface.
    pub sig: Signature,
    /// Formal abstract variables bound to actuals.
    pub binding: Binding,
}

/// Model of a [`ConcreteInvoke`].
#[verifier::ext_equal]
pub struct InvokeModel {
    /// Model of the invoked interface.
    pub sig: SigModel,
    /// The binding from event identifier to summands.
    pub binding: Seq<(u64, Seq<(u64, u64)>)>,
}

/// The model of a concrete invocation.
pub open spec fn invoke_model(ci: ConcreteInvoke) -> InvokeModel {
    InvokeModel { sig: crate::interval::sig_model(ci.sig), binding: ci.binding@ }
}

/// The checking context: known signatures, declared instances, bound
/// invocations, and the accumulated obligations and facts.
pub struct Context {
    /// Signatures available for instantiation.
    pub sigs: Vec<Signature>,
    /// Declared instances: instance name to component name.
    pub instances: Vec<(Id, Id)>,
    /// Bound invocations.
    pub invocations: Vec<(Id, ConcreteInvoke)>,
    /// Proof obligations with their source positions.
    pub obligations: Vec<(Fact, Option<Pos>)>,
    /// Known facts, assumed rather than proved.
    pub facts: Vec<Fact>,
}

/// Model of a [`Context`].
#[verifier::ext_equal]
pub struct ContextModel {
    /// Signature models.
    pub sigs: Seq<SigModel>,
    /// Instance declarations.
    pub instances: Seq<(Id, Id)>,
    /// Invocation models.
    pub invocations: Seq<(Id, InvokeModel)>,
    /// Obligation models.
    pub obligations: Seq<(FactModel, Option<Pos>)>,
    /// Fact models.
    pub facts: Seq<FactModel>,
}

/// The models of the signatures in a list.
pub open spec fn sigs_model(s: Seq<Signature>) -> Seq<SigModel> {
    s.map_values(|x: Signature| crate::interval::sig_model(x))
}

/// The models of the bound invocations.
pub open spec fn invs_model(s: Seq<(Id, ConcreteInvoke)>) -> Seq<(Id, InvokeModel)> {
    s.map_values(|p: (Id, ConcreteInvoke)| (p.0, invoke_model(p.1)))
}

/// The model of a context.
pub open spec fn ctx_model(c: Context) -> ContextModel {
    ContextModel {
        sigs: sigs_model(c.sigs@),
        instances: c.instances@,
        invocations: invs_model(c.invocations@),
        obligations: obls_model(c.obligations@),
        facts: facts_model(c.facts@),
    }
}

// ---------------------------------------------------------------------
// Spec-level lookups.
// ---------------------------------------------------------------------

/// Does some pair of `s` carry the key `k`?
pub open spec fn khas<T>(s: Seq<(Id, T)>, k: Id) -> bool {
    exists|i: int| 0 <= i < s.len() && (#[trigger] s[i]).0 == k
}

/// The value of the first pair of `s` that carries the key `k`.
pub open spec fn kfind<T>(s: Seq<(Id, T)>, k: Id) -> Option<T>
    decreases s.len(),
{
    if s.len() == 0 {
        None
    } else if s[0].0 == k {
        Some(s[0].1)
    } else {
        kfind(s.drop_first(), k)
    }
}

/// The first signature model named `k`.
pub open spec fn find_sig(s: Seq<SigModel>, k: Id) -> Option<SigModel>
    decreases s.len(),
{
    if s.len() == 0 {
        None
    } else if s[0].name == k {
        Some(s[0])
    } else {
        find_sig(s.drop_first(), k)
    }
}

// ---------------------------------------------------------------------
// Spec-level liveness lookup and resolution.
// ---------------------------------------------------------------------

/// Bounded offsets at the model level.
pub open spec fn bounded_range_model(r: RangeModel) -> bool {
    bounded(r.start) && bounded(r.end)
}

/// Bounded offsets for an interval model.
pub open spec fn bounded_interval_model(i: IntervalModel) -> bool {
    &&& bounded_range_model(i.within)
    &&& match i.exact {
        Some(rng) => bounded_range_model(rng),
        None => true,
    }
}

/// A range model resolves when both endpoints are fully bound.
pub open spec fn range_resolvable_model(r: RangeModel, b: Seq<(u64, Seq<(u64, u64)>)>) -> bool {
    crate::fsm_idx::all_bound(r.start, b) && crate::fsm_idx::all_bound(r.end, b)
}

/// An interval model resolves when both its ranges do.
pub open spec fn interval_resolvable_model(
    i: IntervalModel,
    b: Seq<(u64, Seq<(u64, u64)>)>,
) -> bool {
    &&& range_resolvable_model(i.within, b)
    &&& match i.exact {
        Some(rng) => range_resolvable_model(rng, b),
        None => true,
    }
}

/// The resolved liveness of the named port among `ports` under `b`:
/// `None` when the port is missing, carries no liveness, has offsets
/// out of range, or mentions an unbound event.
pub open spec fn live_model(
    ports: Seq<PortDefModel>,
    b: Seq<(u64, Seq<(u64, u64)>)>,
    name: Id,
) -> Option<IntervalModel> {
    match crate::interval::find_port(ports, name) {
        None => None,
        Some(pd) => match pd.liveness {
            None => None,
            Some(live) => if bounded_interval_model(live) && bounded_binding(b)
                && interval_resolvable_model(live, b) {
                Some(resolve_interval_model(live, b))
            } else {
                None
            },
        },
    }
}

/// The requirement of a destination port: the resolved liveness of the
/// named input of its invocation.
pub open spec fn req_model(invs: Seq<(Id, InvokeModel)>, p: PortRef) -> Option<IntervalModel> {
    match p {
        PortRef::ThisPort(name) => match kfind(invs, Id(THIS)) {
            None => None,
            Some(ci) => live_model(ci.sig.inputs, ci.binding, name),
        },
        PortRef::CompPort { comp, name } => match kfind(invs, comp) {
            None => None,
            Some(ci) => live_model(ci.sig.inputs, ci.binding, name),
        },
        PortRef::Constant(_) => None,
    }
}

/// The guarantee of a source port: the resolved liveness of the named
/// output of its invocation.
pub open spec fn guar_model(invs: Seq<(Id, InvokeModel)>, p: PortRef) -> Option<IntervalModel> {
    match p {
        PortRef::ThisPort(name) => match kfind(invs, Id(THIS)) {
            None => None,
            Some(ci) => live_model(ci.sig.outputs, ci.binding, name),
        },
        PortRef::CompPort { comp, name } => match kfind(invs, comp) {
            None => None,
            Some(ci) => live_model(ci.sig.outputs, ci.binding, name),
        },
        PortRef::Constant(_) => None,
    }
}

} // verus!

verus! {

// ---------------------------------------------------------------------
// The spec-level interpreter: what one command does to the context.
// ---------------------------------------------------------------------

/// Formals zipped with actual summand sequences, truncated to the
/// shorter list.
pub open spec fn zip_binding(
    vars: Seq<Id>,
    actuals: Seq<Seq<(u64, u64)>>,
) -> Seq<(u64, Seq<(u64, u64)>)> {
    Seq::new(
        if vars.len() <= actuals.len() {
            vars.len()
        } else {
            actuals.len()
        },
        |i: int| (vars[i].0, actuals[i]),
    )
}

/// The summand views of a list of time expressions.
pub open spec fn views_of_idxs(v: Seq<FsmIdxs>) -> Seq<Seq<(u64, u64)>> {
    v.map_values(|x: FsmIdxs| x@)
}

/// Each variable bound to itself at offset zero.
pub open spec fn identity_binding(vars: Seq<Id>) -> Seq<(u64, Seq<(u64, u64)>)> {
    Seq::new(vars.len(), |i: int| (vars[i].0, seq![(vars[i].0, 0u64)]))
}

/// Declaring an instance: fails on a duplicate name.
pub open spec fn instance_step(m: ContextModel, inst: Instance) -> Option<ContextModel> {
    if khas(m.instances, inst.name) {
        None
    } else {
        Some(ContextModel { instances: m.instances.push((inst.name, inst.component)), ..m })
    }
}

/// A connection can be checked when its destination's requirement is
/// available and, unless the source is a constant, so is the source's
/// guarantee.
pub open spec fn connect_ok(m: ContextModel, con: Connect) -> bool {
    &&& req_model(m.invocations, con.dst) is Some
    &&& (con.src is Constant || guar_model(m.invocations, con.src) is Some)
}

/// The obligation of a connection: requirement contained in guarantee.
/// A constant source is always available and contributes nothing.
pub open spec fn connect_obls(m: ContextModel, con: Connect) -> Seq<(FactModel, Option<Pos>)> {
    if con.src is Constant {
        Seq::empty()
    } else {
        seq![
            (
                FactModel::Subset {
                    requirement: req_model(m.invocations, con.dst).unwrap(),
                    guarantee: guar_model(m.invocations, con.src).unwrap(),
                },
                con.pos,
            ),
        ]
    }
}

/// Checking a connection appends its obligation.
pub open spec fn connect_step(m: ContextModel, con: Connect) -> Option<ContextModel> {
    if con.dst is Constant {
        None
    } else if connect_ok(m, con) {
        Some(ContextModel { obligations: m.obligations + connect_obls(m, con), ..m })
    } else {
        None
    }
}

/// The signature an invocation refers to, through its instance.
pub open spec fn instance_sig(m: ContextModel, comp: Id) -> Option<SigModel> {
    match kfind(m.instances, comp) {
        None => None,
        Some(c) => find_sig(m.sigs, c),
    }
}

/// The declared constraints resolved under the invocation's binding.
pub open spec fn constraint_obls(
    cons: Seq<ConstraintModel>,
    b: Seq<(u64, Seq<(u64, u64)>)>,
    pos: Option<Pos>,
) -> Seq<(FactModel, Option<Pos>)> {
    Seq::new(
        cons.len(),
        |i: int|
            (
                FactModel::Constraint(
                    ConstraintModel {
                        lhs: crate::fsm_idx::resolve_seq(cons[i].lhs, b),
                        op: cons[i].op,
                        rhs: crate::fsm_idx::resolve_seq(cons[i].rhs, b),
                    },
                ),
                pos,
            ),
    )
}

/// Every constraint resolves under the binding.
pub open spec fn cons_ok(cons: Seq<ConstraintModel>, b: Seq<(u64, Seq<(u64, u64)>)>) -> bool {
    forall|i: int|
        0 <= i < cons.len() ==> crate::fsm_idx::all_bound((#[trigger] cons[i]).lhs, b)
            && crate::fsm_idx::all_bound(cons[i].rhs, b)
}

/// The smaller of two lengths.
pub open spec fn min2(a: int, b: int) -> int {
    if a <= b {
        a
    } else {
        b
    }
}

/// The obligations of the input ports of an invocation, formals zipped
/// with actuals: each formal's resolved liveness must be contained in
/// the actual's guarantee; constant actuals are omitted.
pub open spec fn port_obls(
    invs: Seq<(Id, InvokeModel)>,
    inputs: Seq<PortDefModel>,
    actuals: Seq<PortRef>,
    b: Seq<(u64, Seq<(u64, u64)>)>,
    pos: Option<Pos>,
) -> Seq<(FactModel, Option<Pos>)>
    decreases inputs.len(),
{
    if inputs.len() == 0 || actuals.len() == 0 {
        Seq::empty()
    } else {
        let head: Seq<(FactModel, Option<Pos>)> = match actuals[0] {
            PortRef::Constant(_) => Seq::empty(),
            _ => seq![
                (
                    FactModel::Subset {
                        requirement: resolve_interval_model(inputs[0].liveness.unwrap(), b),
                        guarantee: guar_model(invs, actuals[0]).unwrap(),
                    },
                    pos,
                ),
            ],
        };
        head + port_obls(invs, inputs.drop_first(), actuals.drop_first(), b, pos)
    }
}

/// Every zipped formal has a resolvable liveness and every non-constant
/// actual has an available guarantee.
pub open spec fn ports_ok(
    invs: Seq<(Id, InvokeModel)>,
    inputs: Seq<PortDefModel>,
    actuals: Seq<PortRef>,
    b: Seq<(u64, Seq<(u64, u64)>)>,
) -> bool {
    forall|i: int|
        0 <= i < min2(inputs.len() as int, actuals.len() as int) ==> {
            &&& (#[trigger] inputs[i]).liveness is Some
            &&& interval_resolvable_model(inputs[i].liveness.unwrap(), b)
            &&& (actuals[i] is Constant || guar_model(invs, actuals[i]) is Some)
        }
}

/// An invocation can be checked when its signature is known, its
/// binding is bounded, and its constraints and zipped ports resolve.
pub open spec fn invocation_ok(m: ContextModel, inv: Invocation) -> bool {
    match instance_sig(m, inv.comp) {
        None => false,
        Some(sig) => {
            let b = zip_binding(sig.abstract_vars, views_of_idxs(inv.abstract_vars@));
            &&& bounded_binding(b)
            &&& cons_ok(sig.constraints, b)
            &&& ports_ok(m.invocations, sig.inputs, inv.ports@, b)
        },
    }
}

/// The obligations an invocation emits: resolved constraints, then one
/// containment per non-constant zipped input.
pub open spec fn invocation_obls(m: ContextModel, inv: Invocation) -> Seq<
    (FactModel, Option<Pos>),
> {
    match instance_sig(m, inv.comp) {
        None => Seq::empty(),
        Some(sig) => {
            let b = zip_binding(sig.abstract_vars, views_of_idxs(inv.abstract_vars@));
            constraint_obls(sig.constraints, b, inv.pos) + port_obls(
                m.invocations,
                sig.inputs,
                inv.ports@,
                b,
                inv.pos,
            )
        },
    }
}

/// The concrete invocation an invocation produces.
pub open spec fn invocation_instance(m: ContextModel, inv: Invocation) -> InvokeModel {
    let sig = instance_sig(m, inv.comp).unwrap();
    InvokeModel {
        sig,
        binding: zip_binding(sig.abstract_vars, views_of_idxs(inv.abstract_vars@)),
    }
}

/// Binding an invocation: check it, then record it under its name.
pub open spec fn invoke_step(m: ContextModel, iv: Invoke) -> Option<ContextModel> {
    if !invocation_ok(m, iv.rhs) {
        None
    } else if khas(m.invocations, iv.bind) {
        None
    } else {
        Some(
            ContextModel {
                obligations: m.obligations + invocation_obls(m, iv.rhs),
                invocations: m.invocations.push((iv.bind, invocation_instance(m, iv.rhs))),
                ..m
            },
        )
    }
}

/// What one command does to the context.
pub open spec fn cmd_step(m: ContextModel, cmd: Command) -> Option<ContextModel>
    decreases cmd, 0int,
{
    match cmd {
        Command::Instance(inst) => instance_step(m, inst),
        Command::Connect(con) => connect_step(m, con),
        Command::Invoke(iv) => invoke_step(m, iv),
        Command::When(w) => cmds_run(m, w.commands@, 0),
    }
}

/// Running the commands `cmds[i..]` in order, stopping at the first
/// failure.
pub open spec fn cmds_run(m: ContextModel, cmds: Seq<Command>, i: int) -> Option<ContextModel>
    decreases cmds, cmds.len() - i,
{
    if i < 0 || i >= cmds.len() {
        Some(m)
    } else {
        match cmd_step(m, cmds[i]) {
            None => None,
            Some(m2) => cmds_run(m2, cmds, i + 1),
        }
    }
}

} // verus!

verus! {

impl ConcreteInvoke {
    /// The invocation's interface and binding have bounded offsets.
    pub open spec fn ci_wf(&self) -> bool {
        self.sig.sig_wf() && bounded_binding(self.binding@)
    }

    /// Bind the signature's formals to the given actuals, zipped in
    /// order and truncated to the shorter list.
    pub fn from_signature(sig: Signature, abstract_vars: &Vec<FsmIdxs>) -> (r: Self)
        ensures
            r.sig == sig,
            r.binding@ == zip_binding(sig.abstract_vars@, views_of_idxs(abstract_vars@)),
    {
        let mut binding = Binding::empty();
        let n = if sig.abstract_vars.len() <= abstract_vars.len() {
            sig.abstract_vars.len()
        } else {
            abstract_vars.len()
        };
        for i in 0..n
            invariant
                n == min2(sig.abstract_vars@.len() as int, abstract_vars@.len() as int),
                binding@.len() == i,
                forall|j: int|
                    0 <= j < i ==> binding@[j] == (sig.abstract_vars@[j].0, abstract_vars@[j]@),
        {
            binding.bind(sig.abstract_vars[i], abstract_vars[i].clone());
        }
        proof {
            assert(binding@ =~= zip_binding(sig.abstract_vars@, views_of_idxs(abstract_vars@)));
        }
        ConcreteInvoke { sig, binding }
    }

    /// The synthetic instance for the current component: every abstract
    /// variable is bound to itself at offset zero.
    pub fn this_instance(sig: Signature) -> (r: Self)
        ensures
            r.sig == sig,
            r.binding@ == identity_binding(sig.abstract_vars@),
            bounded_binding(r.binding@),
    {
        let mut binding = Binding::empty();
        let n = sig.abstract_vars.len();
        for i in 0..n
            invariant
                n == sig.abstract_vars@.len(),
                binding@.len() == i,
                forall|j: int|
                    0 <= j < i ==> binding@[j] == (
                        sig.abstract_vars@[j].0,
                        seq![(sig.abstract_vars@[j].0, 0u64)],
                    ),
        {
            let v = sig.abstract_vars[i];
            binding.bind(v, FsmIdxs::unit(v, 0));
        }
        proof {
            assert(binding@ =~= identity_binding(sig.abstract_vars@));
            assert forall|j: int| 0 <= j < binding@.len() implies bounded(
                #[trigger] binding@[j].1,
            ) by {
                assert(binding@[j].1 == seq![(sig.abstract_vars@[j].0, 0u64)]);
            }
        }
        ConcreteInvoke { sig, binding }
    }

    /// Look up a port by name and resolve its liveness under the
    /// binding.
    fn port_live(ports: &Vec<PortDef>, binding: &Binding, name: Id) -> (r: Result<
        Interval,
        CheckError,
    >)
        requires
            forall|i: int|
                0 <= i < ports@.len() ==> match (#[trigger] ports@[i]).liveness {
                    Some(inv) => inv.bounded_interval(),
                    None => true,
                },
            bounded_binding(binding@),
        ensures
            match r {
                Ok(out) => live_model(ports_model(ports@), binding@, name) == Some(
                    interval_model(out),
                ),
                Err(e) => {
                    &&& live_model(ports_model(ports@), binding@, name) is None
                    &&& match crate::interval::find_port(ports_model(ports@), name) {
                        None => e == CheckError::UndefinedPort(name),
                        Some(pd) => match pd.liveness {
                            None => e == CheckError::MissingLiveness(name),
                            Some(_) => e matches CheckError::UnboundEvent(_),
                        },
                    }
                },
            },
    {
        let ghost pm = ports_model(ports@);
        let n = ports.len();
        proof {
            assert(pm.skip(0) =~= pm);
        }
        for i in 0..n
            invariant
                n == ports@.len(),
                pm == ports_model(ports@),
                forall|i2: int|
                    0 <= i2 < ports@.len() ==> match (#[trigger] ports@[i2]).liveness {
                        Some(inv) => inv.bounded_interval(),
                        None => true,
                    },
                bounded_binding(binding@),
                crate::interval::find_port(pm.skip(i as int), name) == crate::interval::find_port(
                    pm,
                    name,
                ),
                forall|j: int| 0 <= j < i ==> (#[trigger] pm[j]).name != name,
        {
            proof {
                assert(pm.skip(i as int)[0] == pm[i as int]);
                assert(pm.skip(i as int).drop_first() =~= pm.skip(i + 1));
                assert(pm[i as int] == crate::interval::portdef_model(ports@[i as int]));
            }
            if ports[i].name == name {
                match &ports[i].liveness {
                    None => {
                        proof {
                            assert(crate::interval::find_port(pm, name) == Some(pm[i as int]));
                        }
                        return Err(CheckError::MissingLiveness(name));
                    },
                    Some(live) => {
                        proof {
                            assert(crate::interval::find_port(pm, name) == Some(pm[i as int]));
                            assert(pm[i as int].liveness == Some(interval_model(*live)));
                        }
                        match live.resolve(binding) {
                            Ok(out) => {
                                proof {
                                    let lm = interval_model(*live);
                                    assert(bounded_interval_model(lm));
                                    assert(interval_resolvable_model(lm, binding@));
                                    assert(interval_model(out) == resolve_interval_model(
                                        lm,
                                        binding@,
                                    ));
                                }
                                return Ok(out);
                            },
                            Err(e) => {
                                proof {
                                    let lm = interval_model(*live);
                                    assert(!interval_resolvable_model(lm, binding@));
                                }
                                return Err(e);
                            },
                        }
                    },
                }
            }
        }
        proof {
            assert(pm.skip(n as int) =~= Seq::<PortDefModel>::empty());
            assert(crate::interval::find_port(pm, name) is None);
        }
        Err(CheckError::UndefinedPort(name))
    }

    /// The requirement a consumer at the named input port imposes: its
    /// liveness resolved under the invocation's binding.
    pub fn port_requirements(&self, name: Id) -> (r: Result<Interval, CheckError>)
        requires
            self.ci_wf(),
        ensures
            match r {
                Ok(out) => live_model(invoke_model(*self).sig.inputs, self.binding@, name) == Some(
                    interval_model(out),
                ),
                Err(_) => live_model(invoke_model(*self).sig.inputs, self.binding@, name) is None,
            },
    {
        Self::port_live(&self.sig.inputs, &self.binding, name)
    }

    /// The guarantee a producer at the named output port provides: its
    /// liveness resolved under the invocation's binding.
    pub fn port_guarantees(&self, name: Id) -> (r: Result<Interval, CheckError>)
        requires
            self.ci_wf(),
        ensures
            match r {
                Ok(out) => live_model(invoke_model(*self).sig.outputs, self.binding@, name)
                    == Some(interval_model(out)),
                Err(_) => live_model(invoke_model(*self).sig.outputs, self.binding@, name) is None,
            },
    {
        Self::port_live(&self.sig.outputs, &self.binding, name)
    }
}

impl Context {
    /// Every stored signature and invocation has bounded offsets.
    pub open spec fn ctx_wf(&self) -> bool {
        &&& forall|i: int| 0 <= i < self.sigs@.len() ==> (#[trigger] self.sigs@[i]).sig_wf()
        &&& forall|i: int|
            0 <= i < self.invocations@.len() ==> (#[trigger] self.invocations@[i]).1.ci_wf()
    }

    /// A fresh context over the given signatures.
    pub fn new(sigs: Vec<Signature>) -> (r: Self)
        ensures
            r.sigs == sigs,
            r.instances@.len() == 0,
            r.invocations@.len() == 0,
            r.obligations@.len() == 0,
            r.facts@.len() == 0,
            (forall|i: int| 0 <= i < sigs@.len() ==> (#[trigger] sigs@[i]).sig_wf())
                ==> r.ctx_wf(),
    {
        Context {
            sigs,
            instances: Vec::new(),
            invocations: Vec::new(),
            obligations: Vec::new(),
            facts: Vec::new(),
        }
    }

    /// The invocation bound to `name`.
    pub fn get_invoke(&self, name: Id) -> (r: Result<&ConcreteInvoke, CheckError>)
        ensures
            match r {
                Ok(ci) => {
                    &&& kfind(invs_model(self.invocations@), name) == Some(invoke_model(*ci))
                    &&& self.ctx_wf() ==> ci.ci_wf()
                },
                Err(e) => {
                    &&& kfind(invs_model(self.invocations@), name) is None
                    &&& e == CheckError::UndefinedInvocation(name)
                },
            },
    {
        let ghost m = invs_model(self.invocations@);
        let n = self.invocations.len();
        proof {
            assert(m.skip(0) =~= m);
        }
        for i in 0..n
            invariant
                n == self.invocations@.len(),
                m == invs_model(self.invocations@),
                kfind(m.skip(i as int), name) == kfind(m, name),
        {
            proof {
                assert(m.skip(i as int)[0] == m[i as int]);
                assert(m.skip(i as int).drop_first() =~= m.skip(i + 1));
                assert(m[i as int] == (
                    self.invocations@[i as int].0,
                    invoke_model(self.invocations@[i as int].1),
                ));
            }
            if self.invocations[i].0 == name {
                return Ok(&self.invocations[i].1);
            }
        }
        proof {
            assert(m.skip(n as int) =~= Seq::<(Id, InvokeModel)>::empty());
        }
        Err(CheckError::UndefinedInvocation(name))
    }

    /// The component the named instance instantiates.
    fn find_instance(&self, name: Id) -> (r: Option<Id>)
        ensures
            r == kfind(self.instances@, name),
    {
        let ghost m = self.instances@;
        let n = self.instances.len();
        proof {
            assert(m.skip(0) =~= m);
        }
        for i in 0..n
            invariant
                n == self.instances@.len(),
                m == self.instances@,
                kfind(m.skip(i as int), name) == kfind(m, name),
        {
            proof {
                assert(m.skip(i as int)[0] == m[i as int]);
                assert(m.skip(i as int).drop_first() =~= m.skip(i + 1));
            }
            if self.instances[i].0 == name {
                return Some(self.instances[i].1);
            }
        }
        proof {
            assert(m.skip(n as int) =~= Seq::<(Id, Id)>::empty());
        }
        None
    }

    /// The signature that the named instance instantiates.
    pub fn get_instance(&self, name: Id) -> (r: Result<&Signature, CheckError>)
        ensures
            match r {
                Ok(sig) => {
                    &&& instance_sig(ctx_model(*self), name) == Some(crate::interval::sig_model(
                        *sig,
                    ))
                    &&& self.ctx_wf() ==> sig.sig_wf()
                },
                Err(_) => instance_sig(ctx_model(*self), name) is None,
            },
    {
        let ghost m = ctx_model(*self);
        let comp = match self.find_instance(name) {
            Some(c) => c,
            None => {
                return Err(CheckError::UndefinedInstance(name));
            },
        };
        let ghost sm = m.sigs;
        let ns = self.sigs.len();
        proof {
            assert(sm.skip(0) =~= sm);
        }
        for i in 0..ns
            invariant
                ns == self.sigs@.len(),
                m == ctx_model(*self),
                sm == m.sigs,
                kfind(m.instances, name) == Some(comp),
                find_sig(sm.skip(i as int), comp) == find_sig(sm, comp),
        {
            proof {
                assert(sm.skip(i as int)[0] == sm[i as int]);
                assert(sm.skip(i as int).drop_first() =~= sm.skip(i + 1));
                assert(sm[i as int] == crate::interval::sig_model(self.sigs@[i as int]));
            }
            if self.sigs[i].name == comp {
                return Ok(&self.sigs[i]);
            }
        }
        proof {
            assert(sm.skip(ns as int) =~= Seq::<SigModel>::empty());
        }
        Err(CheckError::UndefinedComponent(comp))
    }

    /// Declare an instance; a duplicate name is rejected.
    pub fn add_instance(&mut self, name: Id, component: Id) -> (r: Result<(), CheckError>)
        ensures
            match r {
                Ok(()) => {
                    &&& !khas(old(self).instances@, name)
                    &&& final(self).instances@ == old(self).instances@.push((name, component))
                },
                Err(e) => {
                    &&& khas(old(self).instances@, name)
                    &&& e == CheckError::DuplicateInstance(name)
                    &&& final(self).instances@ == old(self).instances@
                },
            },
            final(self).sigs == old(self).sigs,
            final(self).invocations == old(self).invocations,
            final(self).obligations == old(self).obligations,
            final(self).facts == old(self).facts,
            old(self).ctx_wf() ==> final(self).ctx_wf(),
    {
        let n = self.instances.len();
        for i in 0..n
            invariant
                n == self.instances@.len(),
                forall|j: int| 0 <= j < i ==> (#[trigger] self.instances@[j]).0 != name,
        {
            if self.instances[i].0 == name {
                return Err(CheckError::DuplicateInstance(name));
            }
        }
        self.instances.push((name, component));
        Ok(())
    }

    /// Bind an invocation; a duplicate name is rejected.
    pub fn add_invocation(&mut self, name: Id, inv: ConcreteInvoke) -> (r: Result<(), CheckError>)
        requires
            inv.ci_wf(),
        ensures
            match r {
                Ok(()) => {
                    &&& !khas(invs_model(old(self).invocations@), name)
                    &&& final(self).invocations@ == old(self).invocations@.push((name, inv))
                },
                Err(e) => {
                    &&& khas(invs_model(old(self).invocations@), name)
                    &&& e == CheckError::DuplicateInvocation(name)
                    &&& final(self).invocations@ == old(self).invocations@
                },
            },
            final(self).sigs == old(self).sigs,
            final(self).instances == old(self).instances,
            final(self).obligations == old(self).obligations,
            final(self).facts == old(self).facts,
            old(self).ctx_wf() ==> final(self).ctx_wf(),
    {
        let ghost m = invs_model(self.invocations@);
        let n = self.invocations.len();
        for i in 0..n
            invariant
                n == self.invocations@.len(),
                m == invs_model(self.invocations@),
                forall|j: int| 0 <= j < i ==> (#[trigger] m[j]).0 != name,
        {
            proof {
                assert(m[i as int] == (
                    self.invocations@[i as int].0,
                    invoke_model(self.invocations@[i as int].1),
                ));
            }
            if self.invocations[i].0 == name {
                return Err(CheckError::DuplicateInvocation(name));
            }
        }
        self.invocations.push((name, inv));
        proof {
            if old(self).ctx_wf() {
                assert forall|i: int|
                    0 <= i < self.invocations@.len() implies (#[trigger] self.invocations@[i]).1.ci_wf() by {
                    if i < old(self).invocations@.len() {
                        assert(self.invocations@[i] == old(self).invocations@[i]);
                    }
                }
            }
        }
        Ok(())
    }

    /// Record a proof obligation.
    pub fn add_obligation(&mut self, f: Fact, pos: Option<Pos>)
        ensures
            final(self).obligations@ == old(self).obligations@.push((f, pos)),
            final(self).sigs == old(self).sigs,
            final(self).instances == old(self).instances,
            final(self).invocations == old(self).invocations,
            final(self).facts == old(self).facts,
            old(self).ctx_wf() ==> final(self).ctx_wf(),
    {
        self.obligations.push((f, pos));
    }

    /// Record a known fact.
    pub fn add_fact(&mut self, f: Fact)
        ensures
            final(self).facts@ == old(self).facts@.push(f),
            final(self).sigs == old(self).sigs,
            final(self).instances == old(self).instances,
            final(self).invocations == old(self).invocations,
            final(self).obligations == old(self).obligations,
            old(self).ctx_wf() ==> final(self).ctx_wf(),
    {
        self.facts.push(f);
    }
}

} // verus!

verus! {

// ---------------------------------------------------------------------
// Command well-formedness: no connection writes into a constant.
// ---------------------------------------------------------------------

/// A command is well formed when no connection in it, at any depth,
/// has a constant destination.
pub open spec fn cmd_wf(c: Command) -> bool
    decreases c,
{
    match c {
        Command::Connect(con) => !(con.dst is Constant),
        Command::When(w) => forall|i: int|
            0 <= i < w.commands@.len() ==> cmd_wf(#[trigger] w.commands@[i]),
        Command::Invoke(_) => true,
        Command::Instance(_) => true,
    }
}

/// Every command of the sequence is well formed.
pub open spec fn cmds_wf(s: Seq<Command>) -> bool {
    forall|i: int| 0 <= i < s.len() ==> cmd_wf(#[trigger] s[i])
}

impl Context {
    /// The guarantee of a source port, or `None` for a constant, which
    /// is always available.
    fn maybe_guarantee(&self, p: &PortRef) -> (r: Result<Option<Interval>, CheckError>)
        requires
            self.ctx_wf(),
        ensures
            match r {
                Ok(og) => match og {
                    None => p is Constant,
                    Some(g) => !(p is Constant) && guar_model(invs_model(self.invocations@), *p)
                        == Some(interval_model(g)),
                },
                Err(_) => !(p is Constant) && guar_model(invs_model(self.invocations@), *p)
                    is None,
            },
    {
        match p {
            PortRef::Constant(_) => Ok(None),
            PortRef::ThisPort(port) => match self.get_invoke(Id(THIS)) {
                Err(e) => Err(e),
                Ok(ci) => match ci.port_guarantees(*port) {
                    Ok(g) => Ok(Some(g)),
                    Err(e) => Err(e),
                },
            },
            PortRef::CompPort { comp, name } => match self.get_invoke(*comp) {
                Err(e) => Err(e),
                Ok(ci) => match ci.port_guarantees(*name) {
                    Ok(g) => Ok(Some(g)),
                    Err(e) => Err(e),
                },
            },
        }
    }

    /// The requirement of a destination port.
    fn requirement_of(&self, p: &PortRef) -> (r: Result<Interval, CheckError>)
        requires
            self.ctx_wf(),
            !(p is Constant),
        ensures
            match r {
                Ok(out) => req_model(invs_model(self.invocations@), *p) == Some(
                    interval_model(out),
                ),
                Err(_) => req_model(invs_model(self.invocations@), *p) is None,
            },
    {
        match p {
            PortRef::Constant(_) => Err(CheckError::UndefinedPort(Id(THIS))),
            PortRef::ThisPort(port) => match self.get_invoke(Id(THIS)) {
                Err(e) => Err(e),
                Ok(ci) => ci.port_requirements(*port),
            },
            PortRef::CompPort { comp, name } => match self.get_invoke(*comp) {
                Err(e) => Err(e),
                Ok(ci) => ci.port_requirements(*name),
            },
        }
    }

    /// Append a batch of obligations in order.
    fn add_obligations(&mut self, obls: Vec<(Fact, Option<Pos>)>)
        ensures
            final(self).obligations@ == old(self).obligations@ + obls@,
            final(self).sigs == old(self).sigs,
            final(self).instances == old(self).instances,
            final(self).invocations == old(self).invocations,
            final(self).facts == old(self).facts,
            old(self).ctx_wf() ==> final(self).ctx_wf(),
    {
        let ghost pre = self.obligations@;
        let ghost batch = obls@;
        let mut obls = obls;
        while obls.len() > 0
            invariant
                self.obligations@ + obls@ =~= pre + batch,
                self.sigs == old(self).sigs,
                self.instances == old(self).instances,
                self.invocations == old(self).invocations,
                self.facts == old(self).facts,
                pre == old(self).obligations@,
            decreases obls.len(),
        {
            let ghost cur = self.obligations@;
            let ghost rem = obls@;
            let head = obls.remove(0);
            self.obligations.push(head);
            proof {
                assert(obls@ =~= rem.drop_first());
                assert(self.obligations@ + obls@ =~= cur + rem);
            }
        }
        proof {
            assert(self.obligations@ =~= pre + batch);
        }
    }
}

} // verus!

verus! {

/// For connect statements of the form `dst = src`, the generated proof
/// obligation requires that the requirement of `dst` is contained in
/// the guarantee of `src`.  A constant source generates no obligation,
/// because constants are always available.
pub fn check_connect(con: &Connect, ctx: &mut Context) -> (r: Result<(), CheckError>)
    requires
        old(ctx).ctx_wf(),
        !(con.dst is Constant),
    ensures
        final(ctx).ctx_wf(),
        match r {
            Ok(()) => connect_step(ctx_model(*old(ctx)), *con) == Some(ctx_model(*final(ctx))),
            Err(_) => {
                &&& connect_step(ctx_model(*old(ctx)), *con) is None
                &&& *final(ctx) == *old(ctx)
            },
        },
{
    let ghost m0 = ctx_model(*ctx);
    let requirement = match ctx.requirement_of(&con.dst) {
        Ok(i) => i,
        Err(e) => {
            return Err(e);
        },
    };
    let maybe_guarantee = match ctx.maybe_guarantee(&con.src) {
        Ok(og) => og,
        Err(e) => {
            return Err(e);
        },
    };
    match maybe_guarantee {
        Some(guarantee) => {
            let ghost fm = FactModel::Subset {
                requirement: interval_model(requirement),
                guarantee: interval_model(guarantee),
            };
            ctx.add_obligation(Fact::subset(requirement, guarantee), con.pos);
            proof {
                assert(obls_model(ctx.obligations@) =~= m0.obligations + connect_obls(m0, *con));
                assert(ctx_model(*ctx) =~= connect_step(m0, *con).unwrap());
            }
        },
        None => {
            proof {
                assert(connect_obls(m0, *con) =~= Seq::<(FactModel, Option<Pos>)>::empty());
                assert(m0.obligations + connect_obls(m0, *con) =~= m0.obligations);
                assert(ctx_model(*ctx) =~= connect_step(m0, *con).unwrap());
            }
        },
    }
    Ok(())
}

/// Check an invocation and return the concrete instance representing
/// it, accumulating one obligation per declared constraint and one per
/// zipped non-constant input port.
pub fn check_invocation(invoke: &Invocation, ctx: &mut Context) -> (r: Result<
    ConcreteInvoke,
    CheckError,
>)
    requires
        old(ctx).ctx_wf(),
    ensures
        final(ctx).ctx_wf(),
        match r {
            Ok(inst) => {
                &&& invocation_ok(ctx_model(*old(ctx)), *invoke)
                &&& invoke_model(inst) == invocation_instance(ctx_model(*old(ctx)), *invoke)
                &&& inst.ci_wf()
                &&& ctx_model(*final(ctx)) == (ContextModel {
                    obligations: ctx_model(*old(ctx)).obligations + invocation_obls(
                        ctx_model(*old(ctx)),
                        *invoke,
                    ),
                    ..ctx_model(*old(ctx))
                })
            },
            Err(_) => {
                &&& !invocation_ok(ctx_model(*old(ctx)), *invoke)
                &&& *final(ctx) == *old(ctx)
            },
        },
{
    let ghost m0 = ctx_model(*ctx);
    let sig = match ctx.get_instance(invoke.comp) {
        Ok(s) => {
            let c = s.clone();
            proof {
                crate::interval::lemma_sig_wf_model(s, &c);
            }
            c
        },
        Err(e) => {
            return Err(e);
        },
    };
    let ghost sm = instance_sig(m0, invoke.comp).unwrap();
    let instance = ConcreteInvoke::from_signature(sig, &invoke.abstract_vars);
    let ghost b = zip_binding(sm.abstract_vars, views_of_idxs(invoke.abstract_vars@));
    proof {
        assert(instance.binding@ == b);
    }
    // Reject actual time expressions whose offsets could overflow when
    // substituted.
    let nb = if instance.sig.abstract_vars.len() <= invoke.abstract_vars.len() {
        instance.sig.abstract_vars.len()
    } else {
        invoke.abstract_vars.len()
    };
    for i in 0..nb
        invariant
            nb == b.len(),
            b == zip_binding(sm.abstract_vars, views_of_idxs(invoke.abstract_vars@)),
            nb <= invoke.abstract_vars@.len(),
            instance.binding@ == b,
            instance.sig.abstract_vars@ == sm.abstract_vars,
            instance.sig.sig_wf(),
            crate::interval::sig_model(instance.sig) == sm,
            ctx.ctx_wf(),
            *ctx == *old(ctx),
            m0 == ctx_model(*ctx),
            instance_sig(m0, invoke.comp) == Some(sm),
            forall|j: int| 0 <= j < i ==> bounded(#[trigger] b[j].1),
    {
        if !invoke.abstract_vars[i].is_bounded() {
            proof {
                assert(b[i as int].1 == invoke.abstract_vars@[i as int]@);
                assert(!bounded_binding(b));
            }
            return Err(CheckError::OffsetOverflow(invoke.comp));
        }
        proof {
            assert(b[i as int].1 == invoke.abstract_vars@[i as int]@);
        }
    }
    proof {
        assert(bounded_binding(b));
    }
    // Requirements on the abstract variables.
    let mut new_obls: Vec<(Fact, Option<Pos>)> = Vec::new();
    let nc = instance.sig.constraints.len();
    for i in 0..nc
        invariant
            nc == instance.sig.constraints@.len(),
            instance.ci_wf(),
            instance.binding@ == b,
            instance.sig.abstract_vars@ == sm.abstract_vars,
            crate::interval::sig_model(instance.sig) == sm,
            sm.constraints == crate::interval::constraints_model(instance.sig.constraints@),
            bounded_binding(b),
            b == zip_binding(sm.abstract_vars, views_of_idxs(invoke.abstract_vars@)),
            ctx.ctx_wf(),
            *ctx == *old(ctx),
            m0 == ctx_model(*ctx),
            instance_sig(m0, invoke.comp) == Some(sm),
            new_obls@.len() == i,
            forall|j: int| 0 <= j < i ==> crate::fsm_idx::all_bound((#[trigger] sm.constraints[j]).lhs, b)
                && crate::fsm_idx::all_bound(sm.constraints[j].rhs, b),
            forall|j: int|
                0 <= j < i ==> #[trigger] obls_model(new_obls@)[j] == constraint_obls(
                    sm.constraints,
                    b,
                    invoke.pos,
                )[j],
    {
        proof {
            assert(sm.constraints[i as int] == crate::interval::constraint_model(
                instance.sig.constraints@[i as int],
            ));
        }
        let ghost pre_nb = new_obls@;
        match instance.sig.constraints[i].resolve(&instance.binding) {
            Ok(rc) => {
                let ghost rcm = crate::interval::constraint_model(rc);
                new_obls.push((Fact::Constraint(rc), invoke.pos));
                proof {
                    let target = constraint_obls(sm.constraints, b, invoke.pos);
                    assert(rcm == (ConstraintModel {
                        lhs: crate::fsm_idx::resolve_seq(sm.constraints[i as int].lhs, b),
                        op: sm.constraints[i as int].op,
                        rhs: crate::fsm_idx::resolve_seq(sm.constraints[i as int].rhs, b),
                    }));
                    assert forall|j: int| 0 <= j <= i as int implies #[trigger] obls_model(
                        new_obls@,
                    )[j] == target[j] by {
                        if j < i as int {
                            assert(new_obls@[j] == pre_nb[j]);
                            assert(obls_model(new_obls@)[j] == obls_model(pre_nb)[j]);
                        } else {
                            assert(new_obls@[j] == (Fact::Constraint(rc), invoke.pos));
                            assert(obls_model(new_obls@)[j] == (
                                FactModel::Constraint(rcm),
                                invoke.pos,
                            ));
                        }
                    }
                }
            },
            Err(e) => {
                proof {
                    assert(!cons_ok(sm.constraints, b));
                }
                return Err(e);
            },
        }
    }
    proof {
        assert(cons_ok(sm.constraints, b));
        assert(obls_model(new_obls@) =~= constraint_obls(sm.constraints, b, invoke.pos));
    }
    let ghost cons_part = constraint_obls(sm.constraints, b, invoke.pos);
    // Requirements on the zipped input ports.
    let np = if instance.sig.inputs.len() <= invoke.ports.len() {
        instance.sig.inputs.len()
    } else {
        invoke.ports.len()
    };
    let ghost inputs_m = sm.inputs;
    let ghost actuals = invoke.ports@;
    proof {
        assert(inputs_m.skip(0) =~= inputs_m);
        assert(actuals.skip(0) =~= actuals);
    }
    for i in 0..np
        invariant
            np == min2(inputs_m.len() as int, actuals.len() as int),
            inputs_m == sm.inputs,
            actuals == invoke.ports@,
            inputs_m == crate::interval::ports_model(instance.sig.inputs@),
            np <= instance.sig.inputs@.len(),
            np <= invoke.ports@.len(),
            instance.ci_wf(),
            instance.binding@ == b,
            instance.sig.abstract_vars@ == sm.abstract_vars,
            crate::interval::sig_model(instance.sig) == sm,
            b == zip_binding(sm.abstract_vars, views_of_idxs(invoke.abstract_vars@)),
            instance_sig(m0, invoke.comp) == Some(sm),
            cons_ok(sm.constraints, b),
            cons_part == constraint_obls(sm.constraints, b, invoke.pos),
            bounded_binding(b),
            ctx.ctx_wf(),
            *ctx == *old(ctx),
            m0 == ctx_model(*ctx),
            forall|j: int|
                0 <= j < i ==> {
                    &&& (#[trigger] inputs_m[j]).liveness is Some
                    &&& interval_resolvable_model(inputs_m[j].liveness.unwrap(), b)
                    &&& (actuals[j] is Constant || guar_model(m0.invocations, actuals[j]) is Some)
                },
            obls_model(new_obls@) + port_obls(m0.invocations, inputs_m.skip(i as int), actuals.skip(i as int), b, invoke.pos)
                =~= cons_part + port_obls(m0.invocations, inputs_m, actuals, b, invoke.pos),
    {
        proof {
            assert(inputs_m.skip(i as int)[0] == inputs_m[i as int]);
            assert(actuals.skip(i as int)[0] == actuals[i as int]);
            assert(inputs_m.skip(i as int).drop_first() =~= inputs_m.skip(i + 1));
            assert(actuals.skip(i as int).drop_first() =~= actuals.skip(i + 1));
            assert(inputs_m[i as int] == crate::interval::portdef_model(
                instance.sig.inputs@[i as int],
            ));
        }
        let ghost pre_obls = obls_model(new_obls@);
        let formal = &instance.sig.inputs[i];
        match &formal.liveness {
            None => {
                proof {
                    assert(!ports_ok(m0.invocations, inputs_m, actuals, b));
                }
                return Err(CheckError::MissingLiveness(formal.name));
            },
            Some(live) => {
                let requirement = match live.resolve(&instance.binding) {
                    Ok(rq) => rq,
                    Err(e) => {
                        proof {
                            assert(!ports_ok(m0.invocations, inputs_m, actuals, b));
                        }
                        return Err(e);
                    },
                };
                match ctx.maybe_guarantee(&invoke.ports[i]) {
                    Ok(None) => {
                        proof {
                            assert(actuals[i as int] is Constant);
                            assert(port_obls(m0.invocations, inputs_m.skip(i as int), actuals.skip(i as int), b, invoke.pos)
                                =~= port_obls(m0.invocations, inputs_m.skip(i + 1), actuals.skip(i + 1), b, invoke.pos));
                        }
                    },
                    Ok(Some(guarantee)) => {
                        let ghost head = (
                            FactModel::Subset {
                                requirement: resolve_interval_model(
                                    inputs_m[i as int].liveness.unwrap(),
                                    b,
                                ),
                                guarantee: guar_model(m0.invocations, actuals[i as int]).unwrap(),
                            },
                            invoke.pos,
                        );
                        new_obls.push((Fact::subset(requirement, guarantee), invoke.pos));
                        proof {
                            assert(obls_model(new_obls@) =~= pre_obls.push(head));
                            assert(port_obls(m0.invocations, inputs_m.skip(i as int), actuals.skip(i as int), b, invoke.pos)
                                =~= seq![head] + port_obls(m0.invocations, inputs_m.skip(i + 1), actuals.skip(i + 1), b, invoke.pos));
                            assert(pre_obls.push(head) + port_obls(m0.invocations, inputs_m.skip(i + 1), actuals.skip(i + 1), b, invoke.pos)
                                =~= pre_obls + (seq![head] + port_obls(m0.invocations, inputs_m.skip(i + 1), actuals.skip(i + 1), b, invoke.pos)));
                        }
                    },
                    Err(e) => {
                        proof {
                            assert(!(actuals[i as int] is Constant));
                            assert(!ports_ok(m0.invocations, inputs_m, actuals, b));
                        }
                        return Err(e);
                    },
                }
            },
        }
    }
    proof {
        if inputs_m.len() <= actuals.len() {
            assert(inputs_m.skip(np as int).len() == 0);
        } else {
            assert(actuals.skip(np as int).len() == 0);
        }
        assert(port_obls(m0.invocations, inputs_m.skip(np as int), actuals.skip(np as int), b, invoke.pos)
            =~= Seq::<(FactModel, Option<Pos>)>::empty());
        assert(obls_model(new_obls@) =~= cons_part + port_obls(m0.invocations, inputs_m, actuals, b, invoke.pos));
        assert(ports_ok(m0.invocations, inputs_m, actuals, b));
        assert(invocation_ok(m0, *invoke));
    }
    let ghost batch = new_obls@;
    ctx.add_obligations(new_obls);
    proof {
        assert(obls_model(ctx.obligations@) =~= obls_model(old(ctx).obligations@) + obls_model(
            batch,
        ));
        assert(ctx_model(*ctx) =~= (ContextModel {
            obligations: m0.obligations + invocation_obls(m0, *invoke),
            ..m0
        }));
    }
    Ok(instance)
}

/// Given an invoke statement, check the invocation and bind the
/// resulting instance under its name.
pub fn check_invoke(assign: &Invoke, ctx: &mut Context) -> (r: Result<(), CheckError>)
    requires
        old(ctx).ctx_wf(),
    ensures
        final(ctx).ctx_wf(),
        match r {
            Ok(()) => invoke_step(ctx_model(*old(ctx)), *assign) == Some(ctx_model(*final(ctx))),
            Err(_) => invoke_step(ctx_model(*old(ctx)), *assign) is None,
        },
{
    let ghost m0 = ctx_model(*ctx);
    let instance = match check_invocation(&assign.rhs, ctx) {
        Ok(inst) => inst,
        Err(e) => {
            return Err(e);
        },
    };
    let ghost m1 = ctx_model(*ctx);
    match ctx.add_invocation(assign.bind, instance) {
        Ok(()) => {
            proof {
                assert(invs_model(ctx.invocations@) =~= m0.invocations.push(
                    (assign.bind, invocation_instance(m0, assign.rhs)),
                ));
                assert(ctx_model(*ctx) =~= invoke_step(m0, *assign).unwrap());
            }
            Ok(())
        },
        Err(e) => {
            proof {
                assert(khas(m0.invocations, assign.bind));
            }
            Err(e)
        },
    }
}

/// Check the commands inside a gated block.  The gating time itself
/// imposes nothing on the commands here.
pub fn check_when(wh: &When, ctx: &mut Context) -> (r: Result<(), CheckError>)
    requires
        old(ctx).ctx_wf(),
        cmds_wf(wh.commands@),
    ensures
        final(ctx).ctx_wf(),
        match r {
            Ok(()) => cmds_run(ctx_model(*old(ctx)), wh.commands@, 0) == Some(
                ctx_model(*final(ctx)),
            ),
            Err(_) => cmds_run(ctx_model(*old(ctx)), wh.commands@, 0) is None,
        },
    decreases wh.commands@, 1int,
{
    check_commands(&wh.commands, ctx)
}

/// Check a list of commands in order, stopping at the first failure.
pub fn check_commands(cmds: &Vec<Command>, ctx: &mut Context) -> (r: Result<(), CheckError>)
    requires
        old(ctx).ctx_wf(),
        cmds_wf(cmds@),
    ensures
        final(ctx).ctx_wf(),
        match r {
            Ok(()) => cmds_run(ctx_model(*old(ctx)), cmds@, 0) == Some(ctx_model(*final(ctx))),
            Err(_) => cmds_run(ctx_model(*old(ctx)), cmds@, 0) is None,
        },
    decreases cmds@, 0int,
{
    let ghost m0 = ctx_model(*ctx);
    let n = cmds.len();
    for i in 0..n
        invariant
            n == cmds@.len(),
            cmds_wf(cmds@),
            ctx.ctx_wf(),
            cmds_run(m0, cmds@, 0) == cmds_run(ctx_model(*ctx), cmds@, i as int),
            m0 == ctx_model(*old(ctx)),
        decreases cmds@, 0int, n - i,
    {
        let ghost mi = ctx_model(*ctx);
        match &cmds[i] {
            Command::Invoke(iv) => match check_invoke(iv, ctx) {
                Ok(()) => {
                    proof {
                        assert(cmd_step(mi, cmds@[i as int]) == Some(ctx_model(*ctx)));
                    }
                },
                Err(e) => {
                    proof {
                        assert(cmd_step(mi, cmds@[i as int]) is None);
                    }
                    return Err(e);
                },
            },
            Command::Instance(inst) => match ctx.add_instance(inst.name, inst.component) {
                Ok(()) => {
                    proof {
                        assert(ctx_model(*ctx) =~= instance_step(mi, *inst).unwrap());
                        assert(cmd_step(mi, cmds@[i as int]) == Some(ctx_model(*ctx)));
                    }
                },
                Err(e) => {
                    proof {
                        assert(cmd_step(mi, cmds@[i as int]) is None);
                    }
                    return Err(e);
                },
            },
            Command::When(wh) => {
                proof {
                    assert(cmd_wf(cmds@[i as int]));
                }
                match check_when(wh, ctx) {
                    Ok(()) => {
                        proof {
                            assert(cmd_step(mi, cmds@[i as int]) == Some(ctx_model(*ctx)));
                        }
                    },
                    Err(e) => {
                        proof {
                            assert(cmd_step(mi, cmds@[i as int]) is None);
                        }
                        return Err(e);
                    },
                }
            },
            Command::Connect(con) => {
                proof {
                    assert(cmd_wf(cmds@[i as int]));
                }
                match check_connect(con, ctx) {
                    Ok(()) => {
                        proof {
                            assert(cmd_step(mi, cmds@[i as int]) == Some(ctx_model(*ctx)));
                        }
                    },
                    Err(e) => {
                        proof {
                            assert(cmd_step(mi, cmds@[i as int]) is None);
                        }
                        return Err(e);
                    },
                }
            },
        }
    }
    Ok(())
}

} // verus!

verus! {

// ---------------------------------------------------------------------
// Checking a whole component, and a namespace.
// ---------------------------------------------------------------------

/// What checking one component produces: its proof obligations, each
/// with the position of the statement that demanded it, and the known
/// facts the solver may assume.
pub struct ComponentCheck {
    /// Proof obligations in source order.
    pub obligations: Vec<(Fact, Option<Pos>)>,
    /// Facts that may be assumed.
    pub facts: Vec<Fact>,
}

/// Every port interval and constraint of the component has bounded
/// offsets.
pub open spec fn comp_wf(comp: crate::ast::Component) -> bool {
    &&& forall|i: int|
        0 <= i < comp.inputs@.len() ==> (#[trigger] comp.inputs@[i]).liveness.bounded_interval()
    &&& forall|i: int|
        0 <= i < comp.outputs@.len() ==> (#[trigger] comp.outputs@[i]).liveness.bounded_interval()
    &&& forall|i: int|
        0 <= i < comp.constraints@.len() ==> (#[trigger] comp.constraints@[i]).bounded_constraint()
}

/// The reversed interface of a component: what the synthetic instance
/// for bare ports binds.  Inputs and outputs are swapped because the
/// component receives at its inputs and provides at its outputs.
pub open spec fn comp_rev_sig_model(comp: crate::ast::Component) -> SigModel {
    SigModel {
        name: comp.name,
        abstract_vars: comp.abstract_vars@,
        inputs: crate::ast::port_defs_model(comp.outputs@),
        outputs: crate::ast::port_defs_model(comp.inputs@),
        constraints: crate::interval::constraints_model(comp.constraints@),
    }
}

/// The component's own interface constraints, assumed rather than
/// proved while its body is checked.
pub open spec fn init_facts(cons: Seq<ConstraintModel>) -> Seq<FactModel> {
    cons.map_values(|cm: ConstraintModel| FactModel::Constraint(cm))
}

/// The context a component's body is checked in: the known signatures
/// and the synthetic instance for the component's own ports.
pub open spec fn component_init(sigs: Seq<SigModel>, comp: crate::ast::Component) -> ContextModel {
    ContextModel {
        sigs,
        instances: Seq::empty(),
        invocations: seq![
            (
                Id(THIS),
                InvokeModel {
                    sig: comp_rev_sig_model(comp),
                    binding: identity_binding(comp.abstract_vars@),
                },
            ),
        ],
        obligations: Seq::empty(),
        facts: init_facts(crate::interval::constraints_model(comp.constraints@)),
    }
}

/// Clone a signature list, preserving models and well-formedness.
fn clone_sigs(v: &Vec<Signature>) -> (r: Vec<Signature>)
    ensures
        sigs_model(r@) == sigs_model(v@),
        (forall|i: int| 0 <= i < v@.len() ==> (#[trigger] v@[i]).sig_wf()) ==> forall|i: int|
            0 <= i < r@.len() ==> (#[trigger] r@[i]).sig_wf(),
{
    let mut out: Vec<Signature> = Vec::new();
    let n = v.len();
    for i in 0..n
        invariant
            n == v@.len(),
            out@.len() == i,
            forall|j: int|
                0 <= j < i ==> crate::interval::sig_model(#[trigger] out@[j])
                    == crate::interval::sig_model(v@[j]),
            forall|j: int| 0 <= j < i ==> ((#[trigger] v@[j]).sig_wf() ==> out@[j].sig_wf()),
    {
        let c = v[i].clone();
        proof {
            if v@[i as int].sig_wf() {
                crate::interval::lemma_sig_wf_model(&v[i as int], &c);
            }
        }
        out.push(c);
    }
    proof {
        assert(sigs_model(out@) =~= sigs_model(v@));
    }
    out
}

/// Check one component: build its context, record the synthetic
/// instance for its own ports, and walk its body.  Returns the
/// accumulated obligations and facts for the discharge session.
pub fn check_component(comp: &crate::ast::Component, sigs: &Vec<Signature>) -> (r: Result<
    ComponentCheck,
    CheckError,
>)
    requires
        forall|i: int| 0 <= i < sigs@.len() ==> (#[trigger] sigs@[i]).sig_wf(),
        comp_wf(*comp),
        cmds_wf(comp.body.commands@),
    ensures
        match r {
            Ok(cc) => {
                &&& cmds_run(
                    component_init(sigs_model(sigs@), *comp),
                    comp.body.commands@,
                    0,
                ) matches Some(mf)
                &&& obls_model(cc.obligations@) == cmds_run(
                    component_init(sigs_model(sigs@), *comp),
                    comp.body.commands@,
                    0,
                ).unwrap().obligations
                &&& facts_model(cc.facts@) == cmds_run(
                    component_init(sigs_model(sigs@), *comp),
                    comp.body.commands@,
                    0,
                ).unwrap().facts
            },
            Err(_) => cmds_run(component_init(sigs_model(sigs@), *comp), comp.body.commands@, 0)
                is None,
        },
{
    let sig = comp.signature();
    proof {
        assert(ports_model(sig.inputs@).len() == sig.inputs@.len());
        assert(crate::ast::port_defs_model(comp.inputs@).len() == comp.inputs@.len());
        assert(sig.inputs@.len() == comp.inputs@.len());
        assert(ports_model(sig.outputs@).len() == sig.outputs@.len());
        assert(crate::ast::port_defs_model(comp.outputs@).len() == comp.outputs@.len());
        assert(sig.outputs@.len() == comp.outputs@.len());
        assert forall|i: int| 0 <= i < sig.inputs@.len() implies match (#[trigger] sig.inputs@[i]).liveness {
            Some(inv) => inv.bounded_interval(),
            None => true,
        } by {
            assert(ports_model(sig.inputs@)[i] == crate::ast::port_defs_model(comp.inputs@)[i]);
            assert(ports_model(sig.inputs@)[i] == crate::interval::portdef_model(
                sig.inputs@[i],
            ));
            assert(crate::ast::port_defs_model(comp.inputs@)[i] == crate::ast::port_def_model(
                comp.inputs@[i],
            ));
            match sig.inputs@[i].liveness {
                Some(inv) => {
                    assert(interval_model(inv) == interval_model(comp.inputs@[i].liveness));
                    crate::interval::lemma_interval_bounded_model(
                        comp.inputs@[i].liveness,
                        inv,
                    );
                },
                None => {},
            }
        }
        assert forall|i: int|
            0 <= i < sig.outputs@.len() implies match (#[trigger] sig.outputs@[i]).liveness {
            Some(inv) => inv.bounded_interval(),
            None => true,
        } by {
            assert(ports_model(sig.outputs@)[i] == crate::ast::port_defs_model(comp.outputs@)[i]);
            assert(ports_model(sig.outputs@)[i] == crate::interval::portdef_model(
                sig.outputs@[i],
            ));
            assert(crate::ast::port_defs_model(comp.outputs@)[i] == crate::ast::port_def_model(
                comp.outputs@[i],
            ));
            match sig.outputs@[i].liveness {
                Some(inv) => {
                    assert(interval_model(inv) == interval_model(comp.outputs@[i].liveness));
                    crate::interval::lemma_interval_bounded_model(
                        comp.outputs@[i].liveness,
                        inv,
                    );
                },
                None => {},
            }
        }
        assert(crate::interval::constraints_model(sig.constraints@).len()
            == crate::interval::constraints_model(comp.constraints@).len());
        assert forall|i: int|
            0 <= i < sig.constraints@.len() implies (#[trigger] sig.constraints@[i]).bounded_constraint() by {
            assert(crate::interval::constraints_model(sig.constraints@)[i]
                == crate::interval::constraints_model(comp.constraints@)[i]);
            assert(crate::interval::constraint_model(sig.constraints@[i])
                == crate::interval::constraint_model(comp.constraints@[i]));
            assert(sig.constraints@[i].lhs@ == comp.constraints@[i].lhs@);
            assert(sig.constraints@[i].rhs@ == comp.constraints@[i].rhs@);
        }
        assert(sig.sig_wf());
    }
    // Whenever a bare port is used, it refers to the port on this
    // reversed instance.
    let rev = sig.reversed();
    proof {
        assert(rev.sig_wf());
    }
    let mut ctx = Context::new(clone_sigs(sigs));
    let ghost sigs0 = ctx.sigs@;
    // The component's own interface constraints are assumed, not
    // proved: they are facts the solver may rely on.
    let nfc = rev.constraints.len();
    for i in 0..nfc
        invariant
            nfc == rev.constraints@.len(),
            crate::interval::constraints_model(rev.constraints@)
                == crate::interval::constraints_model(comp.constraints@),
            ctx.sigs@ == sigs0,
            ctx.instances@.len() == 0,
            ctx.invocations@.len() == 0,
            ctx.obligations@.len() == 0,
            ctx.ctx_wf(),
            ctx.facts@.len() == i,
            forall|j: int|
                0 <= j < i ==> #[trigger] fact_model(ctx.facts@[j]) == FactModel::Constraint(
                    crate::interval::constraint_model(rev.constraints@[j]),
                ),
    {
        proof {
            assert(crate::interval::constraints_model(rev.constraints@)[i as int]
                == crate::interval::constraint_model(rev.constraints@[i as int]));
        }
        ctx.add_fact(Fact::Constraint(rev.constraints[i].clone()));
    }
    let this_inst = ConcreteInvoke::this_instance(rev);
    proof {
        assert(this_inst.ci_wf());
    }
    let ghost im = invoke_model(this_inst);
    match ctx.add_invocation(Id(THIS), this_inst) {
        Ok(()) => {},
        Err(e) => {
            proof {
                assert(false);
            }
            return Err(e);
        },
    }
    let ghost m_init = component_init(sigs_model(sigs@), *comp);
    proof {
        assert(invs_model(ctx.invocations@) =~= seq![(Id(THIS), im)]);
        assert(im.sig =~= comp_rev_sig_model(*comp));
        assert(im =~= (InvokeModel {
            sig: comp_rev_sig_model(*comp),
            binding: identity_binding(comp.abstract_vars@),
        }));
        assert(obls_model(ctx.obligations@) =~= Seq::<(FactModel, Option<Pos>)>::empty());
        assert(facts_model(ctx.facts@) =~= init_facts(
            crate::interval::constraints_model(comp.constraints@),
        )) by {
            assert forall|j: int| 0 <= j < ctx.facts@.len() implies #[trigger] facts_model(
                ctx.facts@,
            )[j] == init_facts(crate::interval::constraints_model(comp.constraints@))[j] by {
                assert(facts_model(ctx.facts@)[j] == fact_model(ctx.facts@[j]));
                assert(crate::interval::constraints_model(rev.constraints@)[j]
                    == crate::interval::constraint_model(rev.constraints@[j]));
                assert(crate::interval::constraints_model(comp.constraints@)[j]
                    == crate::interval::constraint_model(comp.constraints@[j]));
            }
        }
        assert(ctx_model(ctx) =~= m_init);
    }
    match check_commands(&comp.body.commands, &mut ctx) {
        Ok(()) => {},
        Err(e) => {
            return Err(e);
        },
    }
    Ok(ComponentCheck { obligations: ctx.obligations, facts: ctx.facts })
}

/// Check a namespace to prove that the interval requirements of all
/// the ports can be satisfied.  At most one component per namespace is
/// supported; with none, there is nothing to check.
pub fn check(namespace: &crate::ast::Namespace) -> (r: Result<Option<ComponentCheck>, CheckError>)
    requires
        namespace.components@.len() <= 1,
        forall|i: int|
            0 <= i < namespace.signatures@.len() ==> (#[trigger] namespace.signatures@[i]).sig_wf(),
        namespace.components@.len() == 1 ==> comp_wf(namespace.components@[0]) && cmds_wf(
            namespace.components@[0].body.commands@,
        ),
    ensures
        match r {
            Ok(occ) => match occ {
                None => namespace.components@.len() == 0,
                Some(cc) => {
                    &&& namespace.components@.len() == 1
                    &&& cmds_run(
                        component_init(
                            sigs_model(namespace.signatures@),
                            namespace.components@[0],
                        ),
                        namespace.components@[0].body.commands@,
                        0,
                    ) matches Some(mf)
                    &&& obls_model(cc.obligations@) == cmds_run(
                        component_init(
                            sigs_model(namespace.signatures@),
                            namespace.components@[0],
                        ),
                        namespace.components@[0].body.commands@,
                        0,
                    ).unwrap().obligations
                    &&& facts_model(cc.facts@) == cmds_run(
                        component_init(
                            sigs_model(namespace.signatures@),
                            namespace.components@[0],
                        ),
                        namespace.components@[0].body.commands@,
                        0,
                    ).unwrap().facts
                },
            },
            Err(_) => {
                &&& namespace.components@.len() == 1
                &&& cmds_run(
                    component_init(sigs_model(namespace.signatures@), namespace.components@[0]),
                    namespace.components@[0].body.commands@,
                    0,
                ) is None
            },
        },
{
    if namespace.components.len() == 0 {
        Ok(None)
    } else {
        match check_component(&namespace.components[0], &namespace.signatures) {
            Ok(cc) => Ok(Some(cc)),
            Err(e) => Err(e),
        }
    }
}

} // verus!
