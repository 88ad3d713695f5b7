use filament_core::fsm_idx::{Binding, FsmIdxs};
use filament_core::id::Id;
use filament_core::interval::{Interval, PortDef, Range};
use filament_core::sexp::SExp;

const E: Id = Id(1);
const F: Id = Id(2);

fn rng(e: Id, s: u64, t: u64) -> Range {
    Range { start: FsmIdxs::unit(e, s), end: FsmIdxs::unit(e, t) }
}

#[test]
fn as_offset_single_event() {
    let r = rng(E, 0, 1);
    assert_eq!(r.as_offset(), Some((E, 0, 1)));
}

#[test]
fn as_offset_fails_on_distinct_events() {
    let r = Range { start: FsmIdxs::unit(E, 0), end: FsmIdxs::unit(F, 1) };
    assert_eq!(r.as_offset(), None);
}

#[test]
fn as_offset_fails_on_max_expression() {
    let mut s = FsmIdxs::unit(E, 0);
    s.insert(F, 2);
    let r = Range { start: s, end: FsmIdxs::unit(E, 1) };
    assert_eq!(r.as_offset(), None);
}

#[test]
fn as_exact_offset_uses_exact_range() {
    let i = Interval { within: rng(E, 0, 5), exact: Some(rng(E, 1, 3)) };
    assert_eq!(i.as_exact_offset(), Some((E, 1, 3)));
    let j = Interval { within: rng(E, 0, 5), exact: None };
    assert_eq!(j.as_exact_offset(), None);
}

#[test]
fn exact_offset_roundtrip() {
    // Reconstructing the range from (event, start, end) yields an
    // equal range.
    let i = Interval { within: rng(E, 0, 5), exact: Some(rng(E, 1, 3)) };
    let (e, s, t) = i.as_exact_offset().unwrap();
    let rebuilt = Range { start: FsmIdxs::unit(e, s), end: FsmIdxs::unit(e, t) };
    let orig = i.exact.unwrap();
    assert!(rebuilt.start.equals(&orig.start));
    assert!(rebuilt.end.equals(&orig.end));
}

#[test]
fn as_interface_port_needs_exact_single_event() {
    let p = PortDef {
        name: Id(9),
        liveness: Some(Interval { within: rng(E, 0, 1), exact: Some(rng(E, 0, 1)) }),
        bitwidth: 32,
    };
    assert_eq!(p.as_interface_port(), Some(E));
    let q = PortDef {
        name: Id(9),
        liveness: Some(Interval { within: rng(E, 0, 1), exact: None }),
        bitwidth: 32,
    };
    assert_eq!(q.as_interface_port(), None);
    let r = PortDef { name: Id(9), liveness: None, bitwidth: 32 };
    assert_eq!(r.as_interface_port(), None);
}

#[test]
fn range_resolve_substitutes_both_ends() {
    let r = rng(E, 0, 2);
    let mut b = Binding::empty();
    b.bind(E, FsmIdxs::unit(F, 3));
    let out = r.resolve(&b).unwrap();
    assert_eq!(out.start.entries(), vec![(2, 3)]);
    assert_eq!(out.end.entries(), vec![(2, 5)]);
}

#[test]
fn solver_rendering_of_max_expressions() {
    let names = vec![String::from("zero"), String::from("A"), String::from("B")];
    let x = FsmIdxs::unit(E, 0);
    let SExp(s) = SExp::from_idxs(&x, &names);
    assert_eq!(s, "A");
    let mut y = FsmIdxs::unit(E, 1);
    y.insert(F, 0);
    let SExp(t) = SExp::from_idxs(&y, &names);
    assert_eq!(t, "(max (+ A 1) B)");
}
