//! S-expressions as text, and the rendering of time expressions.

use crate::fsm_idx::FsmIdxs;
use crate::text::{app2, app2_s, dec_str, u64_to_string};
use vstd::prelude::*;

verus! {

/// An S-expression, kept as its textual rendering.
pub struct SExp(pub String);

/// The views of a list of names.
pub open spec fn strs_view(v: Seq<String>) -> Seq<Seq<char>> {
    v.map_values(|s: String| s@)
}

/// One summand `e+n` rendered for the solver: the bare event name at
/// offset zero, otherwise `(+ name n)`.
pub open spec fn term_s(names: Seq<Seq<char>>, p: (u64, u64)) -> Seq<char> {
    if p.1 == 0 {
        names[p.0 as int]
    } else {
        app2_s("+"@, names[p.0 as int], dec_str(p.1 as nat))
    }
}

/// A max-of-sums expression folded left to right:
/// `(max (max t0 t1) t2)`.
pub open spec fn fsm_sexp_s(entries: Seq<(u64, u64)>, names: Seq<Seq<char>>) -> Seq<char>
    decreases entries.len(),
{
    if entries.len() <= 1 {
        term_s(names, entries[0])
    } else {
        app2_s("max"@, fsm_sexp_s(entries.drop_last(), names), term_s(names, entries.last()))
    }
}

impl SExp {
    /// Render one summand.
    fn term(names: &Vec<String>, e: u64, st: u64) -> (r: String)
        requires
            (e as int) < names@.len(),
        ensures
            r@ == term_s(strs_view(names@), (e, st)),
    {
        proof {
            assert(strs_view(names@)[e as int] == names@[e as int]@);
        }
        let len: usize = names.len();
        proof {
            assert((e as int) < (len as int));
        }
        let ei: usize = e as usize;
        if st == 0 {
            names[ei].clone()
        } else {
            let n = u64_to_string(st);
            app2("+", names[ei].as_str(), n.as_str())
        }
    }

    /// Render a time expression as the solver sees it: the maximum of
    /// its summands, folded left to right in insertion order.
    pub fn from_idxs(idxs: &FsmIdxs, names: &Vec<String>) -> (r: SExp)
        requires
            idxs@.len() >= 1,
            forall|i: int| 0 <= i < idxs@.len() ==> (#[trigger] idxs@[i].0 as int) < names@.len(),
        ensures
            r.0@ == fsm_sexp_s(idxs@, strs_view(names@)),
    {
        let entries = idxs.entries();
        let mut acc = Self::term(names, entries[0].0, entries[0].1);
        let n = entries.len();
        proof {
            assert(idxs@.take(1).len() == 1);
            assert(idxs@.take(1)[0] == idxs@[0]);
        }
        for i in 1..n
            invariant
                n == entries@.len(),
                n >= 1,
                entries@ == idxs@,
                forall|j: int| 0 <= j < idxs@.len() ==> (#[trigger] idxs@[j].0 as int) < names@.len(),
                acc@ == fsm_sexp_s(idxs@.take(i as int), strs_view(names@)),
        {
            let t = Self::term(names, entries[i].0, entries[i].1);
            acc = app2("max", acc.as_str(), t.as_str());
            proof {
                assert(idxs@.take(i + 1).drop_last() =~= idxs@.take(i as int));
                assert(idxs@.take(i + 1).last() == idxs@[i as int]);
                assert(idxs@.take(i + 1).len() == i + 1);
            }
        }
        proof {
            assert(idxs@.take(n as int) =~= idxs@);
        }
        SExp(acc)
    }
}

} // verus!

verus! {

/// The pretty-printed form of a max-of-sums expression: the first
/// summand bare, each further summand folded as `max(acc, ev+st)`.
pub open spec fn fsm_display_s(entries: Seq<(u64, u64)>, names: Seq<Seq<char>>) -> Seq<char>
    decreases entries.len(),
{
    if entries.len() <= 1 {
        names[entries[0].0 as int] + "+"@ + dec_str(entries[0].1 as nat)
    } else {
        "max("@ + fsm_display_s(entries.drop_last(), names) + ", "@ + names[entries.last().0 as int]
            + "+"@ + dec_str(entries.last().1 as nat) + ")"@
    }
}

impl FsmIdxs {
    /// Render the expression for a reader, given the event names.
    /// An empty expression has no rendering: callers must ensure the
    /// expression is nonempty.
    pub fn display_with(&self, names: &Vec<String>) -> (r: String)
        requires
            self@.len() >= 1,
            forall|i: int| 0 <= i < self@.len() ==> (#[trigger] self@[i].0 as int) < names@.len(),
        ensures
            r@ == fsm_display_s(self@, strs_view(names@)),
    {
        let entries = self.entries();
        proof {
            assert(strs_view(names@)[entries@[0].0 as int] == names@[entries@[0].0 as int]@);
            assert(self@.take(1).len() == 1);
            assert(self@.take(1)[0] == self@[0]);
        }
        let len0: usize = names.len();
        proof {
            assert((entries@[0].0 as int) < (len0 as int));
        }
        let e0: usize = entries[0].0 as usize;
        let mut acc = names[e0].clone();
        acc.append("+");
        let d0 = u64_to_string(entries[0].1);
        acc.append(d0.as_str());
        proof {
            assert(acc@ =~= fsm_display_s(self@.take(1), strs_view(names@)));
        }
        let n = entries.len();
        for i in 1..n
            invariant
                n == entries@.len(),
                n >= 1,
                entries@ == self@,
                forall|j: int| 0 <= j < self@.len() ==> (#[trigger] self@[j].0 as int)
                    < names@.len(),
                acc@ == fsm_display_s(self@.take(i as int), strs_view(names@)),
        {
            proof {
                assert(strs_view(names@)[entries@[i as int].0 as int] == names@[entries@[i
                    as int].0 as int]@);
            }
            let ghost pre = acc@;
            let len1: usize = names.len();
            proof {
                assert((entries@[i as int].0 as int) < (len1 as int));
            }
            let mut s = String::from_str("max(");
            s.append(acc.as_str());
            s.append(", ");
            let ei: usize = entries[i].0 as usize;
            s.append(names[ei].as_str());
            s.append("+");
            let d = u64_to_string(entries[i].1);
            s.append(d.as_str());
            s.append(")");
            acc = s;
            proof {
                assert(self@.take(i + 1).drop_last() =~= self@.take(i as int));
                assert(self@.take(i + 1).last() == self@[i as int]);
                assert(self@.take(i + 1).len() == i + 1);
                assert(acc@ =~= fsm_display_s(self@.take(i + 1), strs_view(names@)));
            }
        }
        proof {
            assert(self@.take(n as int) =~= self@);
        }
        acc
    }
}

} // verus!
