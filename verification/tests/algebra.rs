use filament_core::fsm_idx::{Binding, FsmIdxs};
use filament_core::id::Id;
use filament_core::errors::CheckError;
use core::cmp::Ordering;

const E: Id = Id(1);
const F: Id = Id(2);
const G: Id = Id(3);

fn two(e: Id, ne: u64, f: Id, nf: u64) -> FsmIdxs {
    let mut x = FsmIdxs::unit(e, ne);
    x.insert(f, nf);
    x
}

#[test]
fn unit_is_single_summand() {
    let x = FsmIdxs::unit(E, 5);
    assert_eq!(x.len(), 1);
    assert_eq!(x.as_unit(), Some((E, 5)));
    assert_eq!(x.entries(), vec![(1, 5)]);
}

#[test]
fn as_unit_fails_on_two_summands() {
    let x = two(E, 0, F, 1);
    assert_eq!(x.as_unit(), None);
}

#[test]
fn insert_keeps_insertion_order() {
    let x = two(E, 0, F, 1);
    assert_eq!(x.entries(), vec![(1, 0), (2, 1)]);
    assert_eq!(x.events(), vec![E, F]);
}

#[test]
fn insert_displaces_existing_key_to_back() {
    // The underlying map detaches an existing entry and re-attaches it
    // at the back with the new value.
    let mut x = two(E, 0, F, 1);
    x.insert(E, 7);
    assert_eq!(x.entries(), vec![(2, 1), (1, 7)]);
    assert_eq!(x.get(E), Some(7));
    assert_eq!(x.get(F), Some(1));
    assert_eq!(x.get(G), None);
}

#[test]
fn increment_zero_is_identity() {
    let x = two(E, 3, F, 1);
    let y = two(E, 3, F, 1);
    assert!(x.increment(0).equals(&y));
}

#[test]
fn increments_add() {
    let a = two(E, 3, F, 1).increment(2).increment(5);
    let b = two(E, 3, F, 1).increment(7);
    assert!(a.equals(&b));
    assert_eq!(a.entries(), vec![(1, 10), (2, 8)]);
}

#[test]
fn resolve_unit_yields_binding() {
    // resolve(unit(e, 0), {e ↦ y}) = y
    let y = two(F, 4, G, 9);
    let mut b = Binding::empty();
    b.bind(E, two(F, 4, G, 9));
    let r = FsmIdxs::unit(E, 0).resolve(&b).unwrap();
    assert!(r.equals(&y));
}

#[test]
fn resolve_identity_is_identity() {
    // resolve(x, identity_binding) = x
    let x = two(E, 3, F, 1);
    let mut b = Binding::empty();
    b.bind(E, FsmIdxs::unit(E, 0));
    b.bind(F, FsmIdxs::unit(F, 0));
    let r = x.resolve(&b).unwrap();
    assert!(r.equals(&x));
}

#[test]
fn resolve_shifts_by_offset() {
    let x = FsmIdxs::unit(E, 2);
    let mut b = Binding::empty();
    b.bind(E, FsmIdxs::unit(G, 5));
    let r = x.resolve(&b).unwrap();
    assert_eq!(r.entries(), vec![(3, 7)]);
}

#[test]
fn resolve_missing_binding_is_unbound_event() {
    let x = two(E, 0, F, 1);
    let mut b = Binding::empty();
    b.bind(E, FsmIdxs::unit(G, 0));
    match x.resolve(&b) {
        Err(CheckError::UnboundEvent(id)) => assert_eq!(id, F),
        other => panic!("expected UnboundEvent, got {:?}", other.is_ok()),
    }
}

#[test]
fn partial_cmp_reflexive() {
    let x = two(E, 3, F, 1);
    let y = two(E, 3, F, 1);
    assert_eq!(x.partial_cmp(&y), Some(Ordering::Equal));
}

#[test]
fn partial_cmp_pointwise_less() {
    let x = two(E, 1, F, 1);
    let y = two(E, 2, F, 1);
    assert_eq!(x.partial_cmp(&y), Some(Ordering::Less));
    assert_eq!(y.partial_cmp(&x), Some(Ordering::Greater));
}

#[test]
fn partial_cmp_mixed_is_incomparable() {
    let x = two(E, 1, F, 5);
    let y = two(E, 2, F, 1);
    assert_eq!(x.partial_cmp(&y), None);
}

#[test]
fn partial_cmp_different_events_incomparable() {
    let x = FsmIdxs::unit(E, 1);
    let y = two(E, 1, F, 0);
    assert_eq!(x.partial_cmp(&y), None);
    assert_eq!(y.partial_cmp(&x), None);
    let z = FsmIdxs::unit(G, 1);
    assert_eq!(x.partial_cmp(&z), None);
}

#[test]
fn partial_cmp_ignores_insertion_order() {
    let x = two(E, 1, F, 2);
    let y = two(F, 2, E, 1);
    assert_eq!(x.partial_cmp(&y), Some(Ordering::Equal));
}

#[test]
fn is_bounded_checks_offsets() {
    assert!(FsmIdxs::unit(E, 0xFFFF_FFFF).is_bounded());
    assert!(!FsmIdxs::unit(E, 0x1_0000_0000).is_bounded());
}

#[test]
fn display_folds_max_left_to_right() {
    let names = vec![
        String::from("zero"),
        String::from("A"),
        String::from("B"),
        String::from("C"),
    ];
    let x = FsmIdxs::unit(E, 0);
    assert_eq!(x.display_with(&names), "A+0");
    let mut y = FsmIdxs::unit(E, 1);
    y.insert(F, 2);
    y.insert(G, 3);
    assert_eq!(y.display_with(&names), "max(max(A+1, B+2), C+3)");
}
