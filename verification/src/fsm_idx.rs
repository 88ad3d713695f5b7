//! The symbolic time algebra: max-of-sums expressions over events.

use crate::errors::CheckError;
use crate::id::Id;
use crate::lhm::{
    has_key, lhm_clone, lhm_get, lhm_insert, lhm_len, lhm_new, lhm_to_vec, lookup, remove_key,
    unique_keys,
};
use linked_hash_map::LinkedHashMap;
use vstd::prelude::*;

verus! {

/// An interval time expression that denotes a max of sums expression:
/// a mapping from event identifier to nonnegative offset, standing for
/// `max(e1+n1, e2+n2, ...)`.  Keys are unique and insertion order is
/// preserved, because pretty-printing and SMT emission depend on a
/// deterministic iteration order.
pub struct FsmIdxs {
    fsms: LinkedHashMap<u64, u64>,
}

impl View for FsmIdxs {
    type V = Seq<(u64, u64)>;

    /// The summands `(event, offset)` in insertion order.
    closed spec fn view(&self) -> Seq<(u64, u64)> {
        crate::lhm::lhm_entries(self.fsms)
    }
}

/// Every offset of `s` can be advanced by `n` without leaving `u64`.
pub open spec fn can_increment(s: Seq<(u64, u64)>, n: u64) -> bool {
    forall|i: int| 0 <= i < s.len() ==> #[trigger] s[i].1 + n <= u64::MAX
}

/// Each summand of `s` advanced by `n`.
pub open spec fn inc_seq(s: Seq<(u64, u64)>, n: u64) -> Seq<(u64, u64)> {
    s.map_values(|p: (u64, u64)| (p.0, (p.1 + n) as u64))
}

impl FsmIdxs {
    /// Keys are unique: the structural invariant of the algebra.
    pub open spec fn wf(&self) -> bool {
        unique_keys(self@)
    }

    /// Construct an index with exactly one FSM summand `name+state`.
    pub fn unit(name: Id, state: u64) -> (r: Self)
        ensures
            r@ == seq![(name.0, state)],
            r.wf(),
    {
        let mut hs = lhm_new();
        lhm_insert(&mut hs, name.0, state);
        proof {
            assert(Seq::<(u64, u64)>::empty().push((name.0, state)) =~= seq![(name.0, state)]);
        }
        FsmIdxs { fsms: hs }
    }

    /// Attempts to read this expression as a single `(event, state)` pair,
    /// possible exactly when it has one summand.
    pub fn as_unit(&self) -> (r: Option<(Id, u64)>)
        ensures
            r == if self@.len() == 1 {
                Some((Id(self@[0].0), self@[0].1))
            } else {
                None::<(Id, u64)>
            },
    {
        if lhm_len(&self.fsms) == 1 {
            let v = lhm_to_vec(&self.fsms);
            Some((Id(v[0].0), v[0].1))
        } else {
            None
        }
    }

    /// Add a new fsm state `name+state` to the expression.  An existing
    /// summand for the same event is displaced to the back with the new
    /// offset.
    pub fn insert(&mut self, name: Id, state: u64)
        ensures
            final(self)@ == remove_key(old(self)@, name.0).push((name.0, state)),
            old(self).wf() ==> final(self).wf(),
    {
        lhm_insert(&mut self.fsms, name.0, state);
        proof {
            if old(self).wf() {
                lemma_remove_key_props(old(self)@, name.0);
                lemma_unique_push(remove_key(old(self)@, name.0), name.0, state);
            }
        }
    }

    /// The names of all events used in the max expression, in order.
    pub fn events(&self) -> (r: Vec<Id>)
        ensures
            r@ == self@.map_values(|p: (u64, u64)| Id(p.0)),
    {
        let entries = lhm_to_vec(&self.fsms);
        let mut out: Vec<Id> = Vec::new();
        let n = entries.len();
        for i in 0..n
            invariant
                n == entries.len(),
                entries@ == self@,
                out@ == self@.take(i as int).map_values(|p: (u64, u64)| Id(p.0)),
        {
            out.push(Id(entries[i].0));
            proof {
                assert(out@ =~= self@.take(i + 1).map_values(|p: (u64, u64)| Id(p.0)));
            }
        }
        proof {
            assert(self@.take(n as int) =~= self@);
        }
        out
    }

    /// The number of summands.
    pub fn len(&self) -> (r: usize)
        ensures
            r == self@.len(),
    {
        lhm_len(&self.fsms)
    }

    /// The summands `(event, offset)` in insertion order, as plain pairs.
    pub fn entries(&self) -> (r: Vec<(u64, u64)>)
        ensures
            r@ == self@,
            self.wf(),
    {
        lhm_to_vec(&self.fsms)
    }

    /// The offset stored for an event, if the event is mentioned.
    pub fn get(&self, name: Id) -> (r: Option<u64>)
        ensures
            r == lookup(self@, name.0),
    {
        lhm_get(&self.fsms, name.0)
    }

    /// Increment all the FSM states by the provided value.
    pub fn increment(self, n: u64) -> (r: Self)
        requires
            can_increment(self@, n),
        ensures
            r@ == inc_seq(self@, n),
            r.wf(),
    {
        let entries = lhm_to_vec(&self.fsms);
        let mut out = lhm_new();
        let m = entries.len();
        for i in 0..m
            invariant
                m == entries.len(),
                entries@ == self@,
                unique_keys(self@),
                can_increment(self@, n),
                crate::lhm::lhm_entries(out) =~= inc_seq(self@.take(i as int), n),
        {
            let ghost pre = crate::lhm::lhm_entries(out);
            let e: u64 = entries[i].0;
            let s: u64 = entries[i].1;
            proof {
                assert(self@[i as int].1 + n <= u64::MAX);
                assert forall|j: int| 0 <= j < pre.len() implies #[trigger] pre[j].0 != e by {
                    assert(pre[j].0 == self@.take(i as int)[j].0);
                    assert(self@[j].0 != self@[i as int].0);
                }
                assert(!has_key(pre, e));
                lemma_remove_key_absent(pre, e);
            }
            lhm_insert(&mut out, e, s + n);
            proof {
                assert(crate::lhm::lhm_entries(out) =~= pre.push((e, (s + n) as u64)));
                assert(inc_seq(self@.take(i + 1), n) =~= inc_seq(self@.take(i as int), n).push(
                    (e, (s + n) as u64),
                ));
            }
        }
        proof {
            assert(self@.take(m as int) =~= self@);
            lemma_inc_seq_unique(self@, n);
        }
        FsmIdxs { fsms: out }
    }

    /// Structural equality of the summand sequences.
    pub fn equals(&self, other: &FsmIdxs) -> (r: bool)
        ensures
            r == (self@ == other@),
    {
        let a = lhm_to_vec(&self.fsms);
        let b = lhm_to_vec(&other.fsms);
        if a.len() != b.len() {
            return false;
        }
        let n = a.len();
        for i in 0..n
            invariant
                n == a.len() == b.len(),
                a@ == self@,
                b@ == other@,
                forall|j: int| 0 <= j < i ==> a@[j] == b@[j],
        {
            if a[i].0 != b[i].0 || a[i].1 != b[i].1 {
                return false;
            }
        }
        proof {
            assert(self@ =~= other@);
        }
        true
    }
}

impl Clone for FsmIdxs {
    /// The clone holds the same summands in the same order.
    fn clone(&self) -> (r: Self)
        ensures
            r@ == self@,
    {
        FsmIdxs { fsms: lhm_clone(&self.fsms) }
    }
}

/// Pushing a pair whose key was removed keeps keys unique.
pub proof fn lemma_unique_push(s: Seq<(u64, u64)>, k: u64, v: u64)
    requires
        unique_keys(s),
        !has_key(s, k),
    ensures
        unique_keys(s.push((k, v))),
{
    let t = s.push((k, v));
    assert forall|i: int, j: int| 0 <= i < j < t.len() implies t[i].0 != t[j].0 by {
        if j == s.len() {
            assert(t[i] == s[i]);
            assert(!(s[i].0 == k));
        } else {
            assert(t[i] == s[i] && t[j] == s[j]);
        }
    }
}

/// What removing a key leaves behind: only other keys, every survivor
/// drawn from the original, uniqueness preserved.
pub proof fn lemma_remove_key_props(s: Seq<(u64, u64)>, k: u64)
    ensures
        remove_key(s, k).len() <= s.len(),
        !has_key(remove_key(s, k), k),
        forall|x: (u64, u64)| #[trigger] remove_key(s, k).contains(x) ==> s.contains(x),
        unique_keys(s) ==> unique_keys(remove_key(s, k)),
    decreases s.len(),
{
    if s.len() == 0 {
    } else {
        let rest = s.drop_first();
        assert(forall|i: int| 0 <= i < rest.len() ==> rest[i] == s[i + 1]);
        assert(unique_keys(s) ==> unique_keys(rest));
        lemma_remove_key_props(rest, k);
        assert forall|x: (u64, u64)| #[trigger] remove_key(s, k).contains(x) implies s.contains(
            x,
        ) by {
            if s[0].0 == k {
                assert(remove_key(s, k) == remove_key(rest, k));
                assert(rest.contains(x));
                let m = choose|m: int| 0 <= m < rest.len() && rest[m] == x;
                assert(s[m + 1] == x);
            } else {
                assert(remove_key(s, k) == seq![s[0]] + remove_key(rest, k));
                let m = choose|m: int|
                    0 <= m < remove_key(s, k).len() && remove_key(s, k)[m] == x;
                if m == 0 {
                    assert(s[0] == x);
                } else {
                    assert(remove_key(rest, k)[m - 1] == x);
                    assert(remove_key(rest, k).contains(x));
                    assert(rest.contains(x));
                    let p = choose|p: int| 0 <= p < rest.len() && rest[p] == x;
                    assert(s[p + 1] == x);
                }
            }
        }
        if s[0].0 == k {
        } else {
            let r = seq![s[0]] + remove_key(rest, k);
            assert(remove_key(s, k) == r);
            assert(!has_key(remove_key(s, k), k)) by {
                assert forall|i: int| 0 <= i < r.len() implies r[i].0 != k by {
                    if i == 0 {
                    } else {
                        assert(r[i] == remove_key(rest, k)[i - 1]);
                        assert(!has_key(remove_key(rest, k), k));
                    }
                }
            }
            if unique_keys(s) {
                assert forall|i: int, j: int| 0 <= i < j < r.len() implies r[i].0 != r[j].0 by {
                    if i == 0 {
                        assert(r[j] == remove_key(rest, k)[j - 1]);
                        assert(remove_key(rest, k).contains(r[j]));
                        assert(rest.contains(r[j]));
                        let p = choose|p: int| 0 <= p < rest.len() && rest[p] == r[j];
                        assert(s[p + 1] == r[j]);
                        assert(s[0].0 != s[p + 1].0);
                    } else {
                        assert(r[i] == remove_key(rest, k)[i - 1]);
                        assert(r[j] == remove_key(rest, k)[j - 1]);
                        assert(unique_keys(remove_key(rest, k)));
                    }
                }
            }
        }
    }
}

/// Removing an absent key changes nothing.
pub proof fn lemma_remove_key_absent(s: Seq<(u64, u64)>, k: u64)
    requires
        !has_key(s, k),
    ensures
        remove_key(s, k) =~= s,
    decreases s.len(),
{
    if s.len() > 0 {
        assert(s[0].0 != k);
        let rest = s.drop_first();
        assert(forall|i: int| 0 <= i < rest.len() ==> rest[i] == s[i + 1]);
        assert(!has_key(rest, k));
        lemma_remove_key_absent(rest, k);
        assert(remove_key(s, k) == seq![s[0]] + remove_key(rest, k));
    }
}

/// Incrementing keeps the keys, hence their uniqueness.
pub proof fn lemma_inc_seq_unique(s: Seq<(u64, u64)>, n: u64)
    requires
        unique_keys(s),
        can_increment(s, n),
    ensures
        unique_keys(inc_seq(s, n)),
{
    assert forall|i: int, j: int| 0 <= i < j < inc_seq(s, n).len() implies inc_seq(s, n)[i].0
        != inc_seq(s, n)[j].0 by {
        assert(inc_seq(s, n)[i].0 == s[i].0);
        assert(inc_seq(s, n)[j].0 == s[j].0);
    }
}

} // verus!

verus! {

// ---------------------------------------------------------------------
// Substitution of abstract events by concrete time expressions.
// ---------------------------------------------------------------------

/// A finite binding from abstract event names to time expressions.
pub struct Binding {
    pairs: Vec<(Id, FsmIdxs)>,
}

/// The expression bound to the first pair of `b` that carries `k`.
pub open spec fn blookup(b: Seq<(u64, Seq<(u64, u64)>)>, k: u64) -> Option<Seq<(u64, u64)>>
    decreases b.len(),
{
    if b.len() == 0 {
        None
    } else if b[0].0 == k {
        Some(b[0].1)
    } else {
        blookup(b.drop_first(), k)
    }
}

impl View for Binding {
    type V = Seq<(u64, Seq<(u64, u64)>)>;

    /// The bound pairs `(event, expression summands)` in order.
    closed spec fn view(&self) -> Seq<(u64, Seq<(u64, u64)>)> {
        self.pairs@.map_values(|p: (Id, FsmIdxs)| (p.0.0, p.1@))
    }
}

impl Binding {
    /// A binding with no pairs.
    pub fn empty() -> (r: Self)
        ensures
            r@ == Seq::<(u64, Seq<(u64, u64)>)>::empty(),
    {
        let r = Binding { pairs: Vec::new() };
        proof {
            assert(r@ =~= Seq::<(u64, Seq<(u64, u64)>)>::empty());
        }
        r
    }

    /// Append a pair.  An earlier pair for the same event shadows it.
    pub fn bind(&mut self, name: Id, idxs: FsmIdxs)
        ensures
            final(self)@ == old(self)@.push((name.0, idxs@)),
    {
        let ghost pre = self@;
        self.pairs.push((name, idxs));
        proof {
            assert(final(self)@ =~= pre.push((name.0, idxs@)));
        }
    }

    /// Number of bound pairs.
    pub fn len(&self) -> (r: usize)
        ensures
            r == self@.len(),
    {
        self.pairs.len()
    }

    /// The expression bound to `name`, if any.
    pub fn get(&self, name: Id) -> (r: Option<&FsmIdxs>)
        ensures
            match r {
                Some(x) => blookup(self@, name.0) == Some(x@),
                None => blookup(self@, name.0) is None,
            },
    {
        let n = self.pairs.len();
        proof {
            assert(self@.skip(0) =~= self@);
        }
        for i in 0..n
            invariant
                n == self.pairs.len(),
                forall|j: int| 0 <= j < i ==> self@[j].0 != name.0,
                blookup(self@.skip(i as int), name.0) == blookup(self@, name.0),
        {
            proof {
                assert(self@.skip(i as int)[0] == self@[i as int]);
                assert(self@.skip(i as int).drop_first() =~= self@.skip(i + 1));
            }
            if self.pairs[i].0 == name {
                return Some(&self.pairs[i].1);
            }
        }
        proof {
            assert(self@.skip(n as int) =~= Seq::<(u64, Seq<(u64, u64)>)>::empty());
        }
        None
    }
}

/// Inserting each pair of `add`, front to back, into `acc` with the
/// displacing insertion of the underlying map.
pub open spec fn extend_seq(acc: Seq<(u64, u64)>, add: Seq<(u64, u64)>) -> Seq<(u64, u64)>
    decreases add.len(),
{
    if add.len() == 0 {
        acc
    } else {
        extend_seq(remove_key(acc, add[0].0).push(add[0]), add.drop_first())
    }
}

/// Every event of `s` has a binding in `b`.
pub open spec fn all_bound(s: Seq<(u64, u64)>, b: Seq<(u64, Seq<(u64, u64)>)>) -> bool {
    forall|i: int| 0 <= i < s.len() ==> (#[trigger] blookup(b, s[i].0)) is Some
}

/// The first event of `s` that has no binding in `b`.
pub open spec fn first_unbound(s: Seq<(u64, u64)>, b: Seq<(u64, Seq<(u64, u64)>)>) -> u64
    decreases s.len(),
{
    if s.len() == 0 {
        0
    } else if blookup(b, s[0].0) is None {
        s[0].0
    } else {
        first_unbound(s.drop_first(), b)
    }
}

/// Substitution may advance each bound expression without overflow.
pub open spec fn can_resolve(s: Seq<(u64, u64)>, b: Seq<(u64, Seq<(u64, u64)>)>) -> bool {
    forall|i: int|
        0 <= i < s.len() && (#[trigger] blookup(b, s[i].0)) is Some ==> can_increment(
            blookup(b, s[i].0).unwrap(),
            s[i].1,
        )
}

/// What substitution produces: each summand `(e, n)` of `s` replaced by
/// `b[e]` advanced by `n`, flattened left to right into one map.
pub open spec fn resolve_from(
    s: Seq<(u64, u64)>,
    b: Seq<(u64, Seq<(u64, u64)>)>,
    acc: Seq<(u64, u64)>,
) -> Seq<(u64, u64)>
    decreases s.len(),
{
    if s.len() == 0 {
        acc
    } else if blookup(b, s[0].0) is None {
        acc
    } else {
        resolve_from(s.drop_first(), b, extend_seq(acc, inc_seq(blookup(b, s[0].0).unwrap(), s[0].1)))
    }
}

/// Substitution of the whole expression, starting from nothing.
pub open spec fn resolve_seq(s: Seq<(u64, u64)>, b: Seq<(u64, Seq<(u64, u64)>)>) -> Seq<(u64, u64)> {
    resolve_from(s, b, Seq::empty())
}

impl FsmIdxs {
    /// Replace each summand `(e, n)` with `bindings[e]` advanced by `n`,
    /// flattening the maxes by unioning the summand maps in order.
    /// Fails with [`CheckError::UnboundEvent`] on the first event that
    /// has no binding.
    pub fn resolve(&self, bindings: &Binding) -> (r: Result<FsmIdxs, CheckError>)
        requires
            can_resolve(self@, bindings@),
        ensures
            match r {
                Ok(out) => {
                    &&& all_bound(self@, bindings@)
                    &&& out@ == resolve_seq(self@, bindings@)
                    &&& out.wf()
                },
                Err(e) => {
                    &&& !all_bound(self@, bindings@)
                    &&& e == CheckError::UnboundEvent(Id(first_unbound(self@, bindings@)))
                },
            },
    {
        let entries = lhm_to_vec(&self.fsms);
        let mut out = lhm_new();
        let n = entries.len();
        proof {
            assert(self@.skip(0) =~= self@);
        }
        for i in 0..n
            invariant
                n == entries.len(),
                entries@ == self@,
                can_resolve(self@, bindings@),
                unique_keys(crate::lhm::lhm_entries(out)),
                forall|j: int| 0 <= j < i ==> (#[trigger] blookup(bindings@, self@[j].0)) is Some,
                all_bound(self@, bindings@) ==> resolve_from(
                    self@.skip(i as int),
                    bindings@,
                    crate::lhm::lhm_entries(out),
                ) == resolve_seq(self@, bindings@),
        {
            let name: u64 = entries[i].0;
            let state: u64 = entries[i].1;
            match bindings.get(Id(name)) {
                None => {
                    proof {
                        assert(blookup(bindings@, self@[i as int].0) is None);
                        assert(!all_bound(self@, bindings@));
                        lemma_first_unbound(self@, bindings@, i as int);
                    }
                    return Err(CheckError::UnboundEvent(Id(name)));
                },
                Some(x) => {
                    let ghost pre = crate::lhm::lhm_entries(out);
                    let inc = x.clone().increment(state);
                    let add = inc.entries();
                    let m = add.len();
                    proof {
                        assert(add@.skip(0) =~= add@);
                    }
                    for j in 0..m
                        invariant
                            m == add.len(),
                            add@ == inc_seq(blookup(bindings@, self@[i as int].0).unwrap(), self@[i as int].1),
                            unique_keys(crate::lhm::lhm_entries(out)),
                            extend_seq(crate::lhm::lhm_entries(out), add@.skip(j as int))
                                == extend_seq(pre, add@),
                    {
                        let ghost cur = crate::lhm::lhm_entries(out);
                        proof {
                            assert(add@.skip(j as int)[0] == add@[j as int]);
                            assert(add@.skip(j as int).drop_first() =~= add@.skip(j + 1));
                        }
                        lhm_insert(&mut out, add[j].0, add[j].1);
                        proof {
                            lemma_remove_key_props(cur, add@[j as int].0);
                            lemma_unique_push(
                                remove_key(cur, add@[j as int].0),
                                add@[j as int].0,
                                add@[j as int].1,
                            );
                        }
                    }
                    proof {
                        assert(add@.skip(m as int) =~= Seq::<(u64, u64)>::empty());
                        assert(crate::lhm::lhm_entries(out) == extend_seq(pre, add@));
                        if all_bound(self@, bindings@) {
                            assert(self@.skip(i as int)[0] == self@[i as int]);
                            assert(self@.skip(i as int).drop_first() =~= self@.skip(i + 1));
                            assert(resolve_from(self@.skip(i as int), bindings@, pre)
                                == resolve_from(
                                self@.skip(i + 1),
                                bindings@,
                                extend_seq(pre, add@),
                            ));
                        }
                    }
                },
            }
        }
        proof {
            assert(self@.skip(n as int) =~= Seq::<(u64, u64)>::empty());
            assert forall|i: int| 0 <= i < self@.len() implies (#[trigger] blookup(
                bindings@,
                self@[i].0,
            )) is Some by {}
        }
        Ok(FsmIdxs { fsms: out })
    }
}

/// If a prefix of `s` is bound and `s[i]` is not, then `s[i]` is the
/// first unbound event.
pub proof fn lemma_first_unbound(s: Seq<(u64, u64)>, b: Seq<(u64, Seq<(u64, u64)>)>, i: int)
    requires
        0 <= i < s.len(),
        forall|j: int| 0 <= j < i ==> (#[trigger] blookup(b, s[j].0)) is Some,
        blookup(b, s[i].0) is None,
    ensures
        first_unbound(s, b) == s[i].0,
    decreases i,
{
    if i == 0 {
    } else {
        let rest = s.drop_first();
        assert(forall|m: int| 0 <= m < rest.len() ==> rest[m] == s[m + 1]);
        lemma_first_unbound(rest, b, i - 1);
    }
}

} // verus!

use core::cmp::Ordering;

verus! {

// ---------------------------------------------------------------------
// The partial order on time expressions.
// ---------------------------------------------------------------------

/// The map abstraction of a summand sequence: event to offset.
pub open spec fn as_map(s: Seq<(u64, u64)>) -> Map<u64, u64> {
    Map::new(|k: u64| has_key(s, k), |k: u64| lookup(s, k).unwrap())
}

/// Some shared key where `a` is strictly below `b`.
pub open spec fn map_lt(a: Map<u64, u64>, b: Map<u64, u64>) -> bool {
    exists|k: u64| #[trigger] a.dom().contains(k) && a[k] < b[k]
}

/// The partial order: comparable only when both mention the same set of
/// events and the offset ordering is consistent across every event.
pub open spec fn cmp_spec(a: Map<u64, u64>, b: Map<u64, u64>) -> Option<Ordering> {
    if a.dom() != b.dom() {
        None
    } else if map_lt(a, b) && map_lt(b, a) {
        None
    } else if map_lt(a, b) {
        Some(Ordering::Less)
    } else if map_lt(b, a) {
        Some(Ordering::Greater)
    } else {
        Some(Ordering::Equal)
    }
}

/// Summand `j` of `s` sits strictly below its counterpart in `o`.
pub open spec fn entry_lt(s: Seq<(u64, u64)>, o: Seq<(u64, u64)>, j: int) -> bool {
    s[j].1 < lookup(o, s[j].0).unwrap()
}

/// Summand `j` of `s` sits strictly above its counterpart in `o`.
pub open spec fn entry_gt(s: Seq<(u64, u64)>, o: Seq<(u64, u64)>, j: int) -> bool {
    s[j].1 > lookup(o, s[j].0).unwrap()
}

/// A key is found exactly when some pair carries it.
pub proof fn lemma_lookup_some(s: Seq<(u64, u64)>, k: u64)
    ensures
        (lookup(s, k) is Some) <==> has_key(s, k),
    decreases s.len(),
{
    if s.len() == 0 {
    } else {
        let rest = s.drop_first();
        assert(forall|i: int| 0 <= i < rest.len() ==> rest[i] == s[i + 1]);
        lemma_lookup_some(rest, k);
        if s[0].0 == k {
        } else {
            if has_key(s, k) {
                let i = choose|i: int| 0 <= i < s.len() && s[i].0 == k;
                assert(rest[i - 1].0 == k);
                assert(has_key(rest, k));
            }
        }
    }
}

/// With unique keys, lookup of a summand's key finds that summand.
pub proof fn lemma_lookup_at(s: Seq<(u64, u64)>, i: int)
    requires
        unique_keys(s),
        0 <= i < s.len(),
    ensures
        lookup(s, s[i].0) == Some(s[i].1),
    decreases i,
{
    if i == 0 {
    } else {
        let rest = s.drop_first();
        assert(forall|j: int| 0 <= j < rest.len() ==> rest[j] == s[j + 1]);
        assert(s[0].0 != s[i].0);
        lemma_lookup_at(rest, i - 1);
    }
}

impl FsmIdxs {
    /// Compare two expressions under the partial order: `Some(Equal)`,
    /// `Some(Less)` or `Some(Greater)` when both mention the same events
    /// and every offset agrees with the answer; `None` otherwise.
    pub fn partial_cmp(&self, other: &FsmIdxs) -> (r: Option<Ordering>)
        ensures
            r == cmp_spec(as_map(self@), as_map(other@)),
    {
        let a = lhm_to_vec(&self.fsms);
        let b = lhm_to_vec(&other.fsms);
        let nb = b.len();
        for i in 0..nb
            invariant
                nb == b.len(),
                a@ == self@,
                b@ == other@,
                unique_keys(self@),
                unique_keys(other@),
                forall|j: int| 0 <= j < i ==> has_key(self@, #[trigger] b@[j].0),
        {
            match lhm_get(&self.fsms, b[i].0) {
                None => {
                    proof {
                        lemma_lookup_some(self@, b@[i as int].0);
                        assert(!has_key(self@, b@[i as int].0));
                        assert(has_key(other@, b@[i as int].0));
                        assert(as_map(other@).dom().contains(b@[i as int].0));
                        assert(!as_map(self@).dom().contains(b@[i as int].0));
                        assert(as_map(self@).dom() != as_map(other@).dom());
                    }
                    return None;
                },
                Some(_) => {
                    proof {
                        lemma_lookup_some(self@, b@[i as int].0);
                    }
                },
            }
        }
        let mut has_lt = false;
        let mut has_gt = false;
        let na = a.len();
        for i in 0..na
            invariant
                na == a.len(),
                a@ == self@,
                b@ == other@,
                unique_keys(self@),
                unique_keys(other@),
                forall|j: int| 0 <= j < b@.len() ==> has_key(self@, #[trigger] b@[j].0),
                forall|j: int| 0 <= j < i ==> has_key(other@, #[trigger] a@[j].0),
                has_lt <==> exists|j: int| 0 <= j < i && #[trigger] entry_lt(self@, other@, j),
                has_gt <==> exists|j: int| 0 <= j < i && #[trigger] entry_gt(self@, other@, j),
        {
            match lhm_get(&other.fsms, a[i].0) {
                None => {
                    proof {
                        lemma_lookup_some(other@, a@[i as int].0);
                        assert(has_key(self@, a@[i as int].0));
                        assert(as_map(self@).dom().contains(a@[i as int].0));
                        assert(!as_map(other@).dom().contains(a@[i as int].0));
                        assert(as_map(self@).dom() != as_map(other@).dom());
                    }
                    return None;
                },
                Some(v2) => {
                    let v1 = a[i].1;
                    proof {
                        lemma_lookup_some(other@, a@[i as int].0);
                        assert(lookup(other@, a@[i as int].0).unwrap() == v2);
                    }
                    if v1 < v2 {
                        has_lt = true;
                        proof {
                            assert(entry_lt(self@, other@, i as int));
                        }
                    } else if v1 > v2 {
                        has_gt = true;
                        proof {
                            assert(entry_gt(self@, other@, i as int));
                        }
                    } else {
                        proof {
                            assert(!entry_lt(self@, other@, i as int));
                            assert(!entry_gt(self@, other@, i as int));
                        }
                    }
                },
            }
        }
        proof {
            let am = as_map(self@);
            let bm = as_map(other@);
            assert(am.dom() =~= bm.dom()) by {
                assert forall|k: u64| am.dom().contains(k) implies bm.dom().contains(k) by {
                    let j = choose|j: int| 0 <= j < self@.len() && self@[j].0 == k;
                    assert(has_key(other@, a@[j].0));
                };
                assert forall|k: u64| bm.dom().contains(k) implies am.dom().contains(k) by {
                    let j = choose|j: int| 0 <= j < other@.len() && other@[j].0 == k;
                    assert(has_key(self@, b@[j].0));
                };
            }
            assert(map_lt(am, bm) <==> has_lt) by {
                if has_lt {
                    let j = choose|j: int| 0 <= j < na && #[trigger] entry_lt(self@, other@, j);
                    let k = self@[j].0;
                    lemma_lookup_at(self@, j);
                    assert(am.dom().contains(k) && am[k] < bm[k]);
                }
                if map_lt(am, bm) {
                    let k = choose|k: u64| #[trigger] am.dom().contains(k) && am[k] < bm[k];
                    let j = choose|j: int| 0 <= j < self@.len() && self@[j].0 == k;
                    lemma_lookup_at(self@, j);
                    assert(entry_lt(self@, other@, j));
                }
            }
            assert(map_lt(bm, am) <==> has_gt) by {
                if has_gt {
                    let j = choose|j: int| 0 <= j < na && #[trigger] entry_gt(self@, other@, j);
                    let k = self@[j].0;
                    lemma_lookup_at(self@, j);
                    assert(bm.dom().contains(k) && bm[k] < am[k]);
                }
                if map_lt(bm, am) {
                    let k = choose|k: u64| #[trigger] bm.dom().contains(k) && bm[k] < am[k];
                    assert(am.dom().contains(k));
                    let j = choose|j: int| 0 <= j < self@.len() && self@[j].0 == k;
                    lemma_lookup_at(self@, j);
                    assert(entry_gt(self@, other@, j));
                }
            }
        }
        if has_lt && has_gt {
            None
        } else if has_lt {
            Some(Ordering::Less)
        } else if has_gt {
            Some(Ordering::Greater)
        } else {
            Some(Ordering::Equal)
        }
    }
}

// ---------------------------------------------------------------------
// Laws of the algebra.
// ---------------------------------------------------------------------

/// Law: incrementing by zero leaves every summand unchanged, so
/// `x.increment(0)` equals `x`.
pub proof fn lemma_increment_zero(x: FsmIdxs)
    ensures
        inc_seq(x@, 0) == x@,
{
    assert(inc_seq(x@, 0) =~= x@);
}

/// Law: consecutive increments add, so `x.increment(m).increment(n)`
/// equals `x.increment(m + n)` whenever the sums stay in range.
pub proof fn lemma_increment_sum(x: FsmIdxs, m: u64, n: u64)
    requires
        m + n <= u64::MAX,
        can_increment(x@, (m + n) as u64),
    ensures
        inc_seq(inc_seq(x@, m), n) == inc_seq(x@, (m + n) as u64),
{
    assert forall|i: int| 0 <= i < x@.len() implies #[trigger] inc_seq(inc_seq(x@, m), n)[i]
        == inc_seq(x@, (m + n) as u64)[i] by {
        assert(x@[i].1 + (m + n) <= u64::MAX);
        assert(inc_seq(x@, m)[i] == (x@[i].0, (x@[i].1 + m) as u64));
    }
    assert(inc_seq(inc_seq(x@, m), n) =~= inc_seq(x@, (m + n) as u64));
}

/// Inserting pairwise-fresh summands appends them in order.
pub proof fn lemma_extend_disjoint(acc: Seq<(u64, u64)>, add: Seq<(u64, u64)>)
    requires
        unique_keys(add),
        forall|i: int| 0 <= i < add.len() ==> !has_key(acc, #[trigger] add[i].0),
    ensures
        extend_seq(acc, add) == acc + add,
    decreases add.len(),
{
    if add.len() == 0 {
        assert(acc + add =~= acc);
    } else {
        assert(!has_key(acc, add[0].0));
        lemma_remove_key_absent(acc, add[0].0);
        let acc2 = acc.push(add[0]);
        assert(remove_key(acc, add[0].0).push(add[0]) =~= acc2);
        let rest = add.drop_first();
        assert(forall|i: int| 0 <= i < rest.len() ==> rest[i] == add[i + 1]);
        assert forall|i: int| 0 <= i < rest.len() implies !has_key(acc2, #[trigger] rest[i].0) by {
            assert(rest[i].0 == add[i + 1].0);
            assert(add[0].0 != add[i + 1].0);
            if has_key(acc2, rest[i].0) {
                let j = choose|j: int| 0 <= j < acc2.len() && acc2[j].0 == rest[i].0;
                assert(j < acc.len() || acc2[j] == add[0]);
                assert(j < acc.len() ==> acc[j] == acc2[j]);
            }
        }
        lemma_extend_disjoint(acc2, rest);
        assert(acc2 + rest =~= acc + add);
    }
}

/// Law: substituting the single summand `e+0` by a binding that maps
/// `e` to `y` yields exactly `y`.
pub proof fn lemma_resolve_unit(e: Id, b: Seq<(u64, Seq<(u64, u64)>)>, y: Seq<(u64, u64)>)
    requires
        blookup(b, e.0) == Some(y),
        unique_keys(y),
    ensures
        resolve_seq(seq![(e.0, 0u64)], b) == y,
{
    let s = seq![(e.0, 0u64)];
    assert(s[0] == (e.0, 0u64));
    assert(s[0].1 == 0u64);
    assert(inc_seq(y, 0) =~= y);
    assert(s.drop_first() =~= Seq::<(u64, u64)>::empty());
    reveal_with_fuel(resolve_from, 3);
    assert(resolve_seq(s, b) == resolve_from(s.drop_first(), b, extend_seq(Seq::empty(), y)));
    assert(resolve_seq(s, b) == extend_seq(Seq::empty(), y));
    lemma_extend_disjoint(Seq::empty(), y);
    assert(Seq::empty() + y =~= y);
}

/// `b` binds every event of `s` to that event at offset zero.
pub open spec fn identity_binding_for(s: Seq<(u64, u64)>, b: Seq<(u64, Seq<(u64, u64)>)>) -> bool {
    forall|i: int|
        0 <= i < s.len() ==> #[trigger] blookup(b, s[i].0) == Some(seq![(s[i].0, 0u64)])
}

proof fn lemma_resolve_identity_from(
    s: Seq<(u64, u64)>,
    b: Seq<(u64, Seq<(u64, u64)>)>,
    acc: Seq<(u64, u64)>,
)
    requires
        unique_keys(s),
        identity_binding_for(s, b),
        forall|i: int| 0 <= i < s.len() ==> !has_key(acc, #[trigger] s[i].0),
    ensures
        resolve_from(s, b, acc) == acc + s,
    decreases s.len(),
{
    if s.len() == 0 {
        assert(acc + s =~= acc);
    } else {
        let y = seq![(s[0].0, 0u64)];
        assert(blookup(b, s[0].0) == Some(y));
        assert(inc_seq(y, s[0].1) =~= seq![s[0]]) by {
            assert(y[0].1 + s[0].1 <= u64::MAX);
            assert(inc_seq(y, s[0].1)[0] == (s[0].0, s[0].1));
            assert((s[0].0, s[0].1) == s[0]);
        }
        assert(unique_keys(seq![s[0]]));
        assert(!has_key(acc, s[0].0));
        lemma_extend_disjoint(acc, seq![s[0]]);
        let acc2 = acc + seq![s[0]];
        let rest = s.drop_first();
        assert(forall|i: int| 0 <= i < rest.len() ==> rest[i] == s[i + 1]);
        assert forall|i: int| 0 <= i < rest.len() implies !has_key(acc2, #[trigger] rest[i].0) by {
            assert(rest[i].0 == s[i + 1].0);
            assert(s[0].0 != s[i + 1].0);
            if has_key(acc2, rest[i].0) {
                let j = choose|j: int| 0 <= j < acc2.len() && acc2[j].0 == rest[i].0;
                assert(j < acc.len() ==> acc[j] == acc2[j]);
                assert(j == acc.len() ==> acc2[j] == s[0]);
            }
        }
        lemma_resolve_identity_from(rest, b, acc2);
        assert(resolve_from(s, b, acc) == resolve_from(rest, b, acc2));
        assert(acc2 + rest =~= acc + s);
    }
}

/// Law: substitution under the identity binding returns the expression
/// unchanged.
pub proof fn lemma_resolve_identity(x: FsmIdxs, b: Seq<(u64, Seq<(u64, u64)>)>)
    requires
        x.wf(),
        identity_binding_for(x@, b),
    ensures
        resolve_seq(x@, b) == x@,
{
    assert forall|i: int| 0 <= i < x@.len() implies !has_key(
        Seq::<(u64, u64)>::empty(),
        #[trigger] x@[i].0,
    ) by {}
    lemma_resolve_identity_from(x@, b, Seq::empty());
    assert(Seq::<(u64, u64)>::empty() + x@ =~= x@);
}

/// Law: the partial order is reflexive.
pub proof fn lemma_cmp_reflexive(x: FsmIdxs)
    ensures
        cmp_spec(as_map(x@), as_map(x@)) == Some(Ordering::Equal),
{
    let a = as_map(x@);
    assert(!map_lt(a, a));
}

/// Law: the partial order is antisymmetric: if each side is at or below
/// the other, the two expressions denote the same event-to-offset map.
pub proof fn lemma_cmp_antisymmetric(x: FsmIdxs, y: FsmIdxs)
    requires
        cmp_spec(as_map(x@), as_map(y@)) matches Some(o1) && (o1 == Ordering::Less || o1
            == Ordering::Equal),
        cmp_spec(as_map(y@), as_map(x@)) matches Some(o2) && (o2 == Ordering::Less || o2
            == Ordering::Equal),
    ensures
        as_map(x@) == as_map(y@),
{
    let a = as_map(x@);
    let b = as_map(y@);
    assert(a.dom() == b.dom());
    assert(!map_lt(b, a));
    assert(!map_lt(a, b));
    assert forall|k: u64| a.dom().contains(k) implies a[k] == b[k] by {
        assert(b.dom().contains(k));
        assert(!(a[k] < b[k]) && !(b[k] < a[k]));
    }
    assert(a =~= b);
}

/// Law: expressions that mention different event sets are incomparable.
pub proof fn lemma_cmp_incomparable(x: FsmIdxs, y: FsmIdxs)
    requires
        as_map(x@).dom() != as_map(y@).dom(),
    ensures
        cmp_spec(as_map(x@), as_map(y@)) is None,
{
}

} // verus!

verus! {

// ---------------------------------------------------------------------
// Offset bounds: one substitution step cannot overflow.
// ---------------------------------------------------------------------

/// Every offset of `s` stays within `u32`, leaving room in `u64` for
/// one substitution step.
pub open spec fn bounded(s: Seq<(u64, u64)>) -> bool {
    forall|i: int| 0 <= i < s.len() ==> #[trigger] s[i].1 <= u32::MAX
}

/// Every expression bound in `b` is bounded.
pub open spec fn bounded_binding(b: Seq<(u64, Seq<(u64, u64)>)>) -> bool {
    forall|i: int| 0 <= i < b.len() ==> bounded(#[trigger] b[i].1)
}

/// A successful lookup returns one of the bound expressions.
proof fn lemma_blookup_member(b: Seq<(u64, Seq<(u64, u64)>)>, k: u64)
    requires
        blookup(b, k) is Some,
    ensures
        exists|i: int| 0 <= i < b.len() && #[trigger] b[i].1 == blookup(b, k).unwrap(),
    decreases b.len(),
{
    if b.len() == 0 {
    } else if b[0].0 == k {
        assert(b[0].1 == blookup(b, k).unwrap());
    } else {
        let rest = b.drop_first();
        assert(forall|i: int| 0 <= i < rest.len() ==> rest[i] == b[i + 1]);
        lemma_blookup_member(rest, k);
        let i = choose|i: int| 0 <= i < rest.len() && #[trigger] rest[i].1 == blookup(rest, k).unwrap();
        assert(b[i + 1].1 == blookup(b, k).unwrap());
    }
}

/// Bounded expressions substituted through a bounded binding never
/// overflow a `u64` offset.
pub proof fn lemma_bounded_can_resolve(s: Seq<(u64, u64)>, b: Seq<(u64, Seq<(u64, u64)>)>)
    requires
        bounded(s),
        bounded_binding(b),
    ensures
        can_resolve(s, b),
{
    assert forall|i: int|
        0 <= i < s.len() && (#[trigger] blookup(b, s[i].0)) is Some implies can_increment(
        blookup(b, s[i].0).unwrap(),
        s[i].1,
    ) by {
        lemma_blookup_member(b, s[i].0);
        let j = choose|j: int|
            0 <= j < b.len() && #[trigger] b[j].1 == blookup(b, s[i].0).unwrap();
        assert(bounded(b[j].1));
        assert(s[i].1 <= u32::MAX);
        assert forall|q: int|
            0 <= q < blookup(b, s[i].0).unwrap().len() implies #[trigger] blookup(
            b,
            s[i].0,
        ).unwrap()[q].1 + s[i].1 <= u64::MAX by {
            assert(blookup(b, s[i].0).unwrap()[q].1 <= u32::MAX);
        }
    }
}

} // verus!

verus! {

impl FsmIdxs {
    /// Does every offset stay within `u32`?
    pub fn is_bounded(&self) -> (r: bool)
        ensures
            r == bounded(self@),
    {
        let entries = lhm_to_vec(&self.fsms);
        let n = entries.len();
        for i in 0..n
            invariant
                n == entries.len(),
                entries@ == self@,
                forall|j: int| 0 <= j < i ==> #[trigger] self@[j].1 <= u32::MAX,
        {
            if entries[i].1 > 0xFFFF_FFFFu64 {
                return false;
            }
        }
        true
    }
}

} // verus!
