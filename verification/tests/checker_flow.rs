use filament_core::ast::{
    Body, Command, Component, Connect, Instance, Invocation, Invoke, Namespace, Port, PortRef,
};
use filament_core::checker::{check, Fact};
use filament_core::errors::CheckError;
use filament_core::fsm_idx::FsmIdxs;
use filament_core::id::{Id, Pos};
use filament_core::checker::ComponentCheck;
use filament_core::interval::{Constraint, Interval, OrderOp, PortDef, Range, Signature};

fn err_of(r: Result<Option<ComponentCheck>, CheckError>) -> CheckError {
    match r {
        Err(e) => e,
        Ok(_) => panic!("expected an error"),
    }
}

const E: Id = Id(1);
const S: Id = Id(2);
const T: Id = Id(3);
const IN: Id = Id(10);
const OUT: Id = Id(11);
const X: Id = Id(12);
const P: Id = Id(13);
const SUB: Id = Id(20);
const C0: Id = Id(21);
const INV0: Id = Id(22);

fn rng(e: Id, s: u64, t: u64) -> Range {
    Range { start: FsmIdxs::unit(e, s), end: FsmIdxs::unit(e, t) }
}

fn live(e: Id, s: u64, t: u64) -> Interval {
    Interval { within: rng(e, s, t), exact: None }
}

fn port(name: Id, e: Id, s: u64, t: u64) -> Port {
    Port { name, liveness: live(e, s, t), bitwidth: 32 }
}

fn comp(inputs: Vec<Port>, outputs: Vec<Port>, commands: Vec<Command>) -> Component {
    Component {
        name: Id(0),
        cells: vec![],
        abstract_vars: vec![E],
        inputs,
        outputs,
        constraints: vec![],
        body: Body { commands },
    }
}

#[test]
fn trivial_connect_emits_one_obligation() {
    // o = i with matching intervals: one containment obligation.
    let c = comp(
        vec![port(IN, E, 0, 1)],
        vec![port(OUT, E, 0, 1)],
        vec![Command::Connect(Connect {
            dst: PortRef::ThisPort(OUT),
            src: PortRef::ThisPort(IN),
            pos: None,
        })],
    );
    let ns = Namespace { components: vec![c], signatures: vec![] };
    let cc = check(&ns).unwrap().unwrap();
    assert_eq!(cc.obligations.len(), 1);
    assert_eq!(cc.facts.len(), 0);
    match &cc.obligations[0].0 {
        Fact::Subset { requirement, guarantee } => {
            // The requirement is the output's liveness, the guarantee
            // the input's, both resolved under the identity binding.
            assert_eq!(requirement.within.start.entries(), vec![(1, 0)]);
            assert_eq!(requirement.within.end.entries(), vec![(1, 1)]);
            assert_eq!(guarantee.within.start.entries(), vec![(1, 0)]);
            assert_eq!(guarantee.within.end.entries(), vec![(1, 1)]);
        },
        _ => panic!("expected a containment obligation"),
    }
}

#[test]
fn constant_source_emits_no_obligation() {
    // p = 7: constants are always available.
    let c = comp(
        vec![],
        vec![port(P, E, 0, 1)],
        vec![Command::Connect(Connect {
            dst: PortRef::ThisPort(P),
            src: PortRef::Constant(7),
            pos: None,
        })],
    );
    let ns = Namespace { components: vec![c], signatures: vec![] };
    let cc = check(&ns).unwrap().unwrap();
    assert_eq!(cc.obligations.len(), 0);
}

#[test]
fn interface_constraints_become_assumed_facts() {
    // The component's own constraints are handed to the solver as
    // assumptions, not obligations.
    let mut c = comp(
        vec![port(IN, E, 0, 1)],
        vec![port(OUT, E, 0, 1)],
        vec![Command::Connect(Connect {
            dst: PortRef::ThisPort(OUT),
            src: PortRef::ThisPort(IN),
            pos: None,
        })],
    );
    c.constraints = vec![Constraint {
        lhs: FsmIdxs::unit(E, 1),
        op: OrderOp::Gte,
        rhs: FsmIdxs::unit(E, 0),
    }];
    let ns = Namespace { components: vec![c], signatures: vec![] };
    let cc = check(&ns).unwrap().unwrap();
    assert_eq!(cc.obligations.len(), 1);
    assert_eq!(cc.facts.len(), 1);
    match &cc.facts[0] {
        Fact::Constraint(con) => {
            assert_eq!(con.lhs.entries(), vec![(1, 1)]);
            assert_eq!(con.rhs.entries(), vec![(1, 0)]);
        },
        _ => panic!("expected a constraint fact"),
    }
}

#[test]
fn empty_namespace_checks_nothing() {
    let ns = Namespace { components: vec![], signatures: vec![] };
    assert!(check(&ns).unwrap().is_none());
}

fn sub_signature() -> Signature {
    // Sub-component with formal T, input p: [T+0, T+2], constraint T >= 0.
    Signature {
        name: SUB,
        abstract_vars: vec![T],
        inputs: vec![PortDef { name: P, liveness: Some(live(T, 0, 2)), bitwidth: 32 }],
        outputs: vec![],
        constraints: vec![Constraint {
            lhs: FsmIdxs::unit(T, 0),
            op: OrderOp::Gte,
            rhs: FsmIdxs::unit(T, 0),
        }],
    }
}

#[test]
fn invocation_emits_constraint_and_port_obligations() {
    // Caller invokes SUB[S] handing x whose guarantee is [S+0, S+1]:
    // one resolved constraint plus the containment [S+0,S+2] ⊆ [S+0,S+1],
    // both anchored at the invocation's position.
    let here = Pos { file: 1, start: 40, end: 60 };
    let mut c = comp(
        vec![port(X, S, 0, 1)],
        vec![],
        vec![
            Command::Instance(Instance { name: C0, component: SUB }),
            Command::Invoke(Invoke {
                bind: INV0,
                rhs: Invocation {
                    comp: C0,
                    abstract_vars: vec![FsmIdxs::unit(S, 0)],
                    ports: vec![PortRef::ThisPort(X)],
                    pos: Some(here),
                },
            }),
        ],
    );
    c.abstract_vars = vec![S];
    let ns = Namespace { components: vec![c], signatures: vec![sub_signature()] };
    let cc = check(&ns).unwrap().unwrap();
    assert_eq!(cc.obligations.len(), 2);
    assert_eq!(cc.obligations[0].1, Some(here));
    assert_eq!(cc.obligations[1].1, Some(here));
    match &cc.obligations[1].0 {
        Fact::Subset { requirement, guarantee } => {
            assert_eq!(requirement.within.start.entries(), vec![(2, 0)]);
            assert_eq!(requirement.within.end.entries(), vec![(2, 2)]);
            assert_eq!(guarantee.within.end.entries(), vec![(2, 1)]);
        },
        _ => panic!("expected a containment obligation"),
    }
    match &cc.obligations[0].0 {
        Fact::Constraint(con) => {
            assert_eq!(con.lhs.entries(), vec![(2, 0)]);
        },
        _ => panic!("expected a constraint obligation"),
    }
}

#[test]
fn constant_actual_emits_only_constraints() {
    let c = {
        let mut c = comp(
            vec![],
            vec![],
            vec![
                Command::Instance(Instance { name: C0, component: SUB }),
                Command::Invoke(Invoke {
                    bind: INV0,
                    rhs: Invocation {
                        comp: C0,
                        abstract_vars: vec![FsmIdxs::unit(S, 0)],
                        ports: vec![PortRef::Constant(3)],
                        pos: None,
                    },
                }),
            ],
        );
        c.abstract_vars = vec![S];
        c
    };
    let ns = Namespace { components: vec![c], signatures: vec![sub_signature()] };
    let cc = check(&ns).unwrap().unwrap();
    assert_eq!(cc.obligations.len(), 1);
}

#[test]
fn undefined_instance_is_reported() {
    let c = comp(
        vec![],
        vec![],
        vec![Command::Invoke(Invoke {
            bind: INV0,
            rhs: Invocation { comp: C0, abstract_vars: vec![], ports: vec![], pos: None },
        })],
    );
    let ns = Namespace { components: vec![c], signatures: vec![] };
    assert_eq!(err_of(check(&ns)), CheckError::UndefinedInstance(C0));
}

#[test]
fn undefined_component_is_reported() {
    let c = comp(
        vec![],
        vec![],
        vec![
            Command::Instance(Instance { name: C0, component: SUB }),
            Command::Invoke(Invoke {
                bind: INV0,
                rhs: Invocation { comp: C0, abstract_vars: vec![], ports: vec![], pos: None },
            }),
        ],
    );
    let ns = Namespace { components: vec![c], signatures: vec![] };
    assert_eq!(err_of(check(&ns)), CheckError::UndefinedComponent(SUB));
}

#[test]
fn duplicate_instance_is_reported() {
    let c = comp(
        vec![],
        vec![],
        vec![
            Command::Instance(Instance { name: C0, component: SUB }),
            Command::Instance(Instance { name: C0, component: SUB }),
        ],
    );
    let ns = Namespace { components: vec![c], signatures: vec![sub_signature()] };
    assert_eq!(err_of(check(&ns)), CheckError::DuplicateInstance(C0));
}

#[test]
fn undefined_invocation_is_reported() {
    let c = comp(
        vec![],
        vec![port(OUT, E, 0, 1)],
        vec![Command::Connect(Connect {
            dst: PortRef::ThisPort(OUT),
            src: PortRef::CompPort { comp: INV0, name: P },
            pos: None,
        })],
    );
    let ns = Namespace { components: vec![c], signatures: vec![] };
    assert_eq!(err_of(check(&ns)), CheckError::UndefinedInvocation(INV0));
}

#[test]
fn undefined_port_is_reported() {
    let c = comp(
        vec![port(IN, E, 0, 1)],
        vec![],
        vec![Command::Connect(Connect {
            dst: PortRef::ThisPort(OUT),
            src: PortRef::ThisPort(IN),
            pos: None,
        })],
    );
    let ns = Namespace { components: vec![c], signatures: vec![] };
    assert_eq!(err_of(check(&ns)), CheckError::UndefinedPort(OUT));
}

#[test]
fn missing_liveness_is_reported() {
    let mut sig = sub_signature();
    sig.inputs[0].liveness = None;
    let mut c = comp(
        vec![port(X, S, 0, 1)],
        vec![],
        vec![
            Command::Instance(Instance { name: C0, component: SUB }),
            Command::Invoke(Invoke {
                bind: INV0,
                rhs: Invocation {
                    comp: C0,
                    abstract_vars: vec![FsmIdxs::unit(S, 0)],
                    ports: vec![PortRef::ThisPort(X)],
                    pos: None,
                },
            }),
        ],
    );
    c.abstract_vars = vec![S];
    let ns = Namespace { components: vec![c], signatures: vec![sig] };
    assert_eq!(err_of(check(&ns)), CheckError::MissingLiveness(P));
}

#[test]
fn unbound_event_is_reported() {
    // The sub-component's liveness mentions an event that is not among
    // its formals: the IR is ill-typed.
    let mut sig = sub_signature();
    sig.abstract_vars = vec![Id(77)];
    let mut c = comp(
        vec![port(X, S, 0, 1)],
        vec![],
        vec![
            Command::Instance(Instance { name: C0, component: SUB }),
            Command::Invoke(Invoke {
                bind: INV0,
                rhs: Invocation {
                    comp: C0,
                    abstract_vars: vec![FsmIdxs::unit(S, 0)],
                    ports: vec![PortRef::ThisPort(X)],
                    pos: None,
                },
            }),
        ],
    );
    c.abstract_vars = vec![S];
    let ns = Namespace { components: vec![c], signatures: vec![sig] };
    match err_of(check(&ns)) {
        CheckError::UnboundEvent(_) => {},
        other => panic!("expected UnboundEvent, got {:?}", other),
    }
}

#[test]
fn duplicate_invocation_is_reported() {
    let mk = || {
        Command::Invoke(Invoke {
            bind: INV0,
            rhs: Invocation {
                comp: C0,
                abstract_vars: vec![FsmIdxs::unit(S, 0)],
                ports: vec![],
                pos: None,
            },
        })
    };
    let mut c = comp(
        vec![],
        vec![],
        vec![Command::Instance(Instance { name: C0, component: SUB }), mk(), mk()],
    );
    c.abstract_vars = vec![S];
    let ns = Namespace { components: vec![c], signatures: vec![sub_signature()] };
    assert_eq!(err_of(check(&ns)), CheckError::DuplicateInvocation(INV0));
}

#[test]
fn oversized_offset_is_reported() {
    let mut c = comp(
        vec![],
        vec![],
        vec![
            Command::Instance(Instance { name: C0, component: SUB }),
            Command::Invoke(Invoke {
                bind: INV0,
                rhs: Invocation {
                    comp: C0,
                    abstract_vars: vec![FsmIdxs::unit(S, 0x1_0000_0000)],
                    ports: vec![],
                    pos: None,
                },
            }),
        ],
    );
    c.abstract_vars = vec![S];
    let ns = Namespace { components: vec![c], signatures: vec![sub_signature()] };
    assert_eq!(err_of(check(&ns)), CheckError::OffsetOverflow(C0));
}
