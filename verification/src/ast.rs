//! The surface data model: components, ports, and the commands of a
//! component body.

use crate::fsm_idx::FsmIdxs;
use crate::id::{Id, Pos};
use crate::interval::{
    constraints_model, interval_model, ports_model, Constraint, Interval, PortDef, PortDefModel,
    Signature,
};
use vstd::prelude::*;

verus! {

/// A component port with a mandatory liveness interval.
pub struct Port {
    /// Name of the port.
    pub name: Id,
    /// Liveness condition for the Port.
    pub liveness: Interval,
    /// Bitwidth of the port.
    pub bitwidth: u64,
}

/// A reference to a port in a command: a bare port of the current
/// component, a port of a bound invocation, or a constant.
pub enum PortRef {
    /// A port of the current component.
    ThisPort(Id),
    /// A port of a bound invocation.
    CompPort {
        /// The invocation the port belongs to.
        comp: Id,
        /// The port's name.
        name: Id,
    },
    /// A constant: always available, it generates no obligation.
    Constant(u64),
}

/// A connection `dst = src`.
pub struct Connect {
    /// Destination port.
    pub dst: PortRef,
    /// Source port.
    pub src: PortRef,
    /// Source position of the statement.
    pub pos: Option<Pos>,
}

/// An invocation of an instance with actual abstract variables and
/// actual input ports.
pub struct Invocation {
    /// The instance being invoked.
    pub comp: Id,
    /// Actual time expressions for the formal abstract variables.
    pub abstract_vars: Vec<FsmIdxs>,
    /// Actual ports handed to the instance's inputs.
    pub ports: Vec<PortRef>,
    /// Source position of the statement.
    pub pos: Option<Pos>,
}

/// A binding of an invocation to a name.
pub struct Invoke {
    /// The name the invocation is bound to.
    pub bind: Id,
    /// The invocation.
    pub rhs: Invocation,
}

/// Declaration of a sub-component instance.
pub struct Instance {
    /// The instance's name.
    pub name: Id,
    /// The component it instantiates.
    pub component: Id,
}

/// A block of commands gated on a time expression.
pub struct When {
    /// The time the block is gated on.
    pub time: FsmIdxs,
    /// The commands inside the block.
    pub commands: Vec<Command>,
}

/// A command in a component body.
pub enum Command {
    /// Bind an invocation.
    Invoke(Invoke),
    /// Declare an instance.
    Instance(Instance),
    /// A gated block.
    When(When),
    /// A connection.
    Connect(Connect),
}

/// Model for a component: the commands of its body.
pub struct Body {
    /// The commands, in source order.
    pub commands: Vec<Command>,
}

/// A component: its interface and its body.
pub struct Component {
    /// Name of the component.
    pub name: Id,
    /// Names of sub-circuits used in constructing this component.
    pub cells: Vec<Id>,
    /// Names of abstract variables bound by the component.
    pub abstract_vars: Vec<Id>,
    /// Input ports.
    pub inputs: Vec<Port>,
    /// Output ports.
    pub outputs: Vec<Port>,
    /// Constraints on the abstract variables, assumed when checking
    /// the component's own body.
    pub constraints: Vec<Constraint>,
    /// Model for this component.
    pub body: Body,
}

/// A compilation unit: components and the signatures they may invoke.
pub struct Namespace {
    /// Components defined in this file.
    pub components: Vec<Component>,
    /// Signatures of external components available for invocation.
    pub signatures: Vec<Signature>,
}

/// The port definition a surface port denotes.
pub open spec fn port_def_model(p: Port) -> PortDefModel {
    PortDefModel { name: p.name, liveness: Some(interval_model(p.liveness)), bitwidth: p.bitwidth }
}

/// The port definitions a sequence of surface ports denotes.
pub open spec fn port_defs_model(s: Seq<Port>) -> Seq<PortDefModel> {
    s.map_values(|p: Port| port_def_model(p))
}

impl Component {
    /// The interface of the component derived from its ports and
    /// constraints.
    pub fn signature(&self) -> (r: Signature)
        ensures
            r.name == self.name,
            r.abstract_vars@ == self.abstract_vars@,
            ports_model(r.inputs@) == port_defs_model(self.inputs@),
            ports_model(r.outputs@) == port_defs_model(self.outputs@),
            constraints_model(r.constraints@) == constraints_model(self.constraints@),
    {
        let mut inputs: Vec<PortDef> = Vec::new();
        let n_in = self.inputs.len();
        for i in 0..n_in
            invariant
                n_in == self.inputs.len(),
                inputs@.len() == i,
                forall|j: int|
                    0 <= j < i ==> crate::interval::portdef_model(#[trigger] inputs@[j])
                        == port_def_model(self.inputs@[j]),
        {
            let p = &self.inputs[i];
            inputs.push(PortDef { name: p.name, liveness: Some(p.liveness.clone()), bitwidth: p.bitwidth });
        }
        let mut outputs: Vec<PortDef> = Vec::new();
        let n_out = self.outputs.len();
        for i in 0..n_out
            invariant
                n_out == self.outputs.len(),
                outputs@.len() == i,
                forall|j: int|
                    0 <= j < i ==> crate::interval::portdef_model(#[trigger] outputs@[j])
                        == port_def_model(self.outputs@[j]),
        {
            let p = &self.outputs[i];
            outputs.push(PortDef { name: p.name, liveness: Some(p.liveness.clone()), bitwidth: p.bitwidth });
        }
        let mut abstract_vars: Vec<Id> = Vec::new();
        let n_av = self.abstract_vars.len();
        for i in 0..n_av
            invariant
                n_av == self.abstract_vars.len(),
                abstract_vars@ =~= self.abstract_vars@.take(i as int),
        {
            abstract_vars.push(self.abstract_vars[i]);
            proof {
                assert(abstract_vars@ =~= self.abstract_vars@.take(i + 1));
            }
        }
        let mut constraints: Vec<Constraint> = Vec::new();
        let n_con = self.constraints.len();
        for i in 0..n_con
            invariant
                n_con == self.constraints.len(),
                constraints@.len() == i,
                forall|j: int|
                    0 <= j < i ==> crate::interval::constraint_model(#[trigger] constraints@[j])
                        == crate::interval::constraint_model(self.constraints@[j]),
        {
            constraints.push(self.constraints[i].clone());
        }
        let r = Signature { name: self.name, abstract_vars, inputs, outputs, constraints };
        proof {
            assert(self.abstract_vars@.take(n_av as int) =~= self.abstract_vars@);
            assert(ports_model(r.inputs@) =~= port_defs_model(self.inputs@));
            assert(ports_model(r.outputs@) =~= port_defs_model(self.outputs@));
            assert(constraints_model(r.constraints@) =~= constraints_model(self.constraints@));
        }
        r
    }
}

} // verus!
