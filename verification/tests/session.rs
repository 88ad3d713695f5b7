use filament_core::discharge::{
    Discharge, FactQuery, ModelNeed, Response, Solver,
};
use filament_core::id::Pos;
use filament_core::ir::{
    Cmp, CmpOp, Component, Expr, Fact, FactKind, Info, IrCommand, Prop, Time,
};

fn here(n: u32) -> Pos {
    Pos { file: 1, start: n, end: n + 10 }
}

/// One event E, two times E+0 and E+1, one obligation `t0 >= t1`.
fn time_component() -> Component {
    Component {
        params: vec![],
        events: vec![String::from("E")],
        exprs: vec![Expr::Concrete(0), Expr::Concrete(1)],
        times: vec![Time { event: 0, offset: 0 }, Time { event: 0, offset: 1 }],
        props: vec![Prop::TimeCmp(CmpOp { op: Cmp::Gte, lhs: 0, rhs: 1 })],
        infos: vec![Info::Assert(here(7))],
        cmds: vec![IrCommand::Fact(Fact { prop: 0, reason: 0, kind: FactKind::Assert })],
    }
}

/// One parameter W and the obligation `W >= 8`.
fn width_component() -> Component {
    Component {
        params: vec![String::from("W")],
        events: vec![],
        exprs: vec![Expr::Param(0), Expr::Concrete(8)],
        times: vec![],
        props: vec![Prop::Cmp(CmpOp { op: Cmp::Gte, lhs: 0, rhs: 1 })],
        infos: vec![Info::Assert(here(30))],
        cmds: vec![IrCommand::Fact(Fact { prop: 0, reason: 0, kind: FactKind::Assert })],
    }
}

fn run_start(d: &mut Discharge, c: &Component) -> Vec<String> {
    let cmds = d.start(c);
    d.visit_cmds(&c.cmds);
    cmds
}

#[test]
fn session_open_commands() {
    let (_, cmds) = Discharge::new(Solver::Z3, false);
    assert_eq!(
        cmds,
        vec![
            "(declare-fun pow2 (Int) Int)",
            "(declare-fun log2 (Int) Int)",
            "(declare-fun sinb (Int Int) Int)",
            "(declare-fun cosb (Int Int) Int)",
            "(push)",
        ]
    );
}

#[test]
fn start_declares_in_index_order() {
    let (mut d, _) = Discharge::new(Solver::Cvc5, false);
    let c = width_component();
    let cmds = run_start(&mut d, &c);
    assert_eq!(
        cmds,
        vec![
            "(declare-fun param0 () Int)",
            "(define-fun e0 () Int param0)",
            "(define-fun e1 () Int 8)",
            "(define-fun prop0 () Bool (>= e0 e1))",
        ]
    );
}

#[test]
fn z3_names_carry_the_display_name() {
    let (mut d, _) = Discharge::new(Solver::Z3, false);
    let c = width_component();
    let cmds = run_start(&mut d, &c);
    assert_eq!(cmds[0], "(declare-fun |W@param0| () Int)");
    assert_eq!(cmds[1], "(define-fun e0 () Int |W@param0|)");
}

#[test]
fn time_component_lowering() {
    let (mut d, _) = Discharge::new(Solver::Cvc5, false);
    let c = time_component();
    let cmds = run_start(&mut d, &c);
    assert_eq!(
        cmds,
        vec![
            "(declare-fun event0 () Int)",
            "(define-fun e0 () Int 0)",
            "(define-fun e1 () Int 1)",
            "(define-fun t0 () Int (+ event0 e0))",
            "(define-fun t1 () Int (+ event0 e1))",
            "(define-fun prop0 () Bool (>= t0 t1))",
        ]
    );
}

#[test]
fn unsat_bulk_check_passes_with_no_diagnostics() {
    // The obligation's negation is unsatisfiable: everything proved.
    let (mut d, _) = Discharge::new(Solver::Cvc5, false);
    let c = time_component();
    run_start(&mut d, &c);
    let v = d.end_assert().unwrap();
    assert_eq!(v, vec!["(assert (not prop0))", "(check-sat)"]);
    let need = d.bulk_result(Response::Unsat);
    assert!(!need);
    assert_eq!(d.after_traversal(), None);
    assert_eq!(d.diagnostics.len(), 0);
}

#[test]
fn no_obligations_issue_no_check() {
    let (mut d, _) = Discharge::new(Solver::Cvc5, false);
    let mut c = time_component();
    c.cmds = vec![];
    run_start(&mut d, &c);
    assert!(d.end_assert().is_none());
    assert_eq!(d.after_traversal(), None);
}

#[test]
fn failing_obligation_yields_positioned_diagnostic() {
    let (mut d, _) = Discharge::new(Solver::Cvc5, false);
    let c = time_component();
    run_start(&mut d, &c);
    d.end_assert().unwrap();
    assert!(d.bulk_result(Response::Sat));
    let (cmds, check) = match d.fact_query(0, &c) {
        FactQuery::Query { cmds, check } => (cmds, check),
        FactQuery::Cached => panic!("expected a query"),
    };
    assert_eq!(
        cmds,
        vec!["(declare-const act_lit1 Bool)", "(assert (=> act_lit1 (not prop0)))"]
    );
    assert_eq!(check, "(check-sat-assuming (act_lit1))");
    match d.fact_response(Response::Sat, &c) {
        ModelNeed::Disable { cmd } => assert_eq!(cmd, "(assert (not act_lit1))"),
        _ => panic!("no model was requested"),
    }
    assert_eq!(d.diagnostics.len(), 1);
    assert_eq!(d.diagnostics[0].pos, Some(here(7)));
    assert_eq!(d.diagnostics[0].notes, vec!["Cannot prove constraint: E+0 >= E+1"]);
    assert_eq!(d.after_traversal(), Some(1));
}

#[test]
fn individually_provable_obligation_emits_nothing() {
    let (mut d, _) = Discharge::new(Solver::Cvc5, false);
    let c = time_component();
    run_start(&mut d, &c);
    d.end_assert().unwrap();
    assert!(d.bulk_result(Response::Sat));
    match d.fact_query(0, &c) {
        FactQuery::Query { .. } => {},
        FactQuery::Cached => panic!("expected a query"),
    }
    match d.fact_response(Response::Unsat, &c) {
        ModelNeed::Disable { cmd } => assert_eq!(cmd, "(assert (not act_lit1))"),
        _ => panic!("no model should be requested"),
    }
    assert_eq!(d.diagnostics.len(), 0);
    assert_eq!(d.after_traversal(), None);
}

#[test]
fn counterexample_is_reported_when_models_are_shown() {
    let (mut d, _) = Discharge::new(Solver::Cvc5, true);
    let c = width_component();
    run_start(&mut d, &c);
    d.end_assert().unwrap();
    assert!(d.bulk_result(Response::Sat));
    match d.fact_query(0, &c) {
        FactQuery::Query { .. } => {},
        FactQuery::Cached => panic!("expected a query"),
    }
    let (gv, count) = match d.fact_response(Response::Sat, &c) {
        ModelNeed::GetValue { cmd, count } => (cmd, count),
        _ => panic!("expected a model request"),
    };
    assert_eq!(gv, "(get-value (param0))");
    assert_eq!(count, 1);
    let disable = d.fact_model(vec![String::from("4")], &c);
    assert_eq!(disable, "(assert (not act_lit1))");
    assert_eq!(d.diagnostics.len(), 1);
    assert_eq!(
        d.diagnostics[0].notes,
        vec![
            "Cannot prove constraint: W >= 8",
            "Counterexample: W = 4 (unmentioned parameters are 0)",
        ]
    );
}

#[test]
fn counterexample_note_absent_without_models() {
    let (mut d, _) = Discharge::new(Solver::Cvc5, false);
    let c = width_component();
    run_start(&mut d, &c);
    d.end_assert().unwrap();
    assert!(d.bulk_result(Response::Sat));
    match d.fact_query(0, &c) {
        FactQuery::Query { .. } => {},
        FactQuery::Cached => panic!("expected a query"),
    }
    match d.fact_response(Response::Sat, &c) {
        ModelNeed::Disable { .. } => {},
        _ => panic!("models are off: no value should be requested"),
    }
    assert_eq!(d.diagnostics.len(), 1);
    assert_eq!(d.diagnostics[0].notes, vec!["Cannot prove constraint: W >= 8"]);
}

#[test]
fn zero_valued_assignment_is_filtered_from_display() {
    let (mut d, _) = Discharge::new(Solver::Cvc5, true);
    let c = width_component();
    run_start(&mut d, &c);
    d.end_assert().unwrap();
    assert!(d.bulk_result(Response::Sat));
    match d.fact_query(0, &c) {
        FactQuery::Query { .. } => {},
        FactQuery::Cached => panic!("expected a query"),
    }
    match d.fact_response(Response::Sat, &c) {
        ModelNeed::GetValue { .. } => {},
        _ => panic!("expected a model request"),
    }
    d.fact_model(vec![String::from("0")], &c);
    assert_eq!(
        d.diagnostics[0].notes[1],
        "Counterexample:  (unmentioned parameters are 0)"
    );
}

#[test]
fn two_failures_are_attributed_independently_in_order() {
    // Two independent failing obligations: after the bulk check is
    // satisfiable, individual re-checks yield one diagnostic each,
    // positioned distinctly and in source order.
    let c = Component {
        params: vec![],
        events: vec![String::from("E")],
        exprs: vec![Expr::Concrete(0), Expr::Concrete(1)],
        times: vec![Time { event: 0, offset: 0 }, Time { event: 0, offset: 1 }],
        props: vec![
            Prop::TimeCmp(CmpOp { op: Cmp::Gte, lhs: 0, rhs: 1 }),
            Prop::TimeCmp(CmpOp { op: Cmp::Gt, lhs: 0, rhs: 1 }),
        ],
        infos: vec![Info::Assert(here(100)), Info::Assert(here(200))],
        cmds: vec![
            IrCommand::Fact(Fact { prop: 0, reason: 0, kind: FactKind::Assert }),
            IrCommand::Fact(Fact { prop: 1, reason: 1, kind: FactKind::Assert }),
        ],
    };
    let (mut d, _) = Discharge::new(Solver::Cvc5, false);
    run_start(&mut d, &c);
    let v = d.end_assert().unwrap();
    assert_eq!(v[0], "(assert (not (and prop0 prop1)))");
    assert!(d.bulk_result(Response::Sat));
    for i in 0..2 {
        match d.fact_query(i, &c) {
            FactQuery::Query { .. } => {},
            FactQuery::Cached => panic!("expected a query"),
        }
        match d.fact_response(Response::Sat, &c) {
            ModelNeed::Disable { .. } => {},
            _ => panic!("no model requested"),
        }
    }
    assert_eq!(d.diagnostics.len(), 2);
    assert_eq!(d.diagnostics[0].pos, Some(here(100)));
    assert_eq!(d.diagnostics[1].pos, Some(here(200)));
    assert_eq!(d.after_traversal(), Some(2));
}

#[test]
fn repeated_proposition_reuses_the_recorded_result() {
    // Two obligations over the same proposition: the second check is
    // answered from the cache, replaying the diagnostic.
    let mut c = time_component();
    c.infos = vec![Info::Assert(here(1))];
    c.cmds = vec![
        IrCommand::Fact(Fact { prop: 0, reason: 0, kind: FactKind::Assert }),
        IrCommand::Fact(Fact { prop: 0, reason: 0, kind: FactKind::Assert }),
    ];
    let (mut d, _) = Discharge::new(Solver::Cvc5, false);
    run_start(&mut d, &c);
    d.end_assert().unwrap();
    assert!(d.bulk_result(Response::Sat));
    match d.fact_query(0, &c) {
        FactQuery::Query { .. } => {},
        FactQuery::Cached => panic!("expected a query"),
    }
    match d.fact_response(Response::Sat, &c) {
        ModelNeed::Disable { .. } => {},
        _ => panic!("no model requested"),
    }
    match d.fact_query(1, &c) {
        FactQuery::Cached => {},
        FactQuery::Query { .. } => panic!("the cache should answer"),
    }
    assert_eq!(d.diagnostics.len(), 2);
}

#[test]
fn sourceless_diagnostic_names_the_missing_reason() {
    let mut c = time_component();
    c.infos = vec![Info::Unknown];
    let (mut d, _) = Discharge::new(Solver::Cvc5, false);
    run_start(&mut d, &c);
    d.end_assert().unwrap();
    assert!(d.bulk_result(Response::Sat));
    match d.fact_query(0, &c) {
        FactQuery::Query { .. } => {},
        FactQuery::Cached => panic!("expected a query"),
    }
    d.fact_response(Response::Sat, &c);
    assert_eq!(d.diagnostics[0].pos, None);
    assert_eq!(
        d.diagnostics[0].notes,
        vec![
            "Cannot prove constraint: E+0 >= E+1",
            "No information was given on who generated this error",
        ]
    );
}

#[test]
fn replay_commands_are_deterministic() {
    // For a fixed input the command stream is identical across runs.
    let one = || {
        let mut all: Vec<String> = Vec::new();
        let (mut d, open) = Discharge::new(Solver::Z3, true);
        all.extend(open);
        let c = width_component();
        all.extend(run_start(&mut d, &c));
        all.extend(d.end_assert().unwrap());
        d.bulk_result(Response::Sat);
        match d.fact_query(0, &c) {
            FactQuery::Query { cmds, check } => {
                all.extend(cmds);
                all.push(check);
            },
            FactQuery::Cached => panic!("expected a query"),
        }
        match d.fact_response(Response::Sat, &c) {
            ModelNeed::GetValue { cmd, count: _ } => all.push(cmd),
            _ => panic!("expected a model request"),
        }
        all.push(d.fact_model(vec![String::from("4")], &c));
        all
    };
    assert_eq!(one(), one());
}

#[test]
fn clear_data_resets_the_solver_frame() {
    let (mut d, _) = Discharge::new(Solver::Cvc5, false);
    let c = time_component();
    run_start(&mut d, &c);
    let cmds = d.clear_data();
    assert_eq!(cmds, vec!["(pop)", "(push)"]);
    assert_eq!(d.num_obligations(), 0);
}
