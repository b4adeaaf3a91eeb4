use vstd::prelude::*;

use crate::error::Error;
use crate::object::{entries_view, lemma_entries_view, lemma_objs_view, objs_view, ObjView, Object};

verus! {

/// A builder: stages host values, in insertion order, for one persistent
/// collection.
///
/// A builder is frozen exactly once, into a vector or a map; freezing
/// consumes it, and each staged value is moved into it by `add`.
pub struct ArrayList {
    staged: Vec<Object>,
}

impl View for ArrayList {
    type V = Seq<ObjView>;

    closed spec fn view(&self) -> Seq<ObjView> {
        objs_view(self.staged@)
    }
}

impl ArrayList {
    /// An empty builder.
    pub fn new() -> (r: ArrayList)
        ensures
            r@ == Seq::<ObjView>::empty(),
    {
        ArrayList { staged: Vec::new() }
    }

    /// Stages `val` after the values staged so far.
    pub fn add(&mut self, val: Object)
        ensures
            final(self)@ == old(self)@.push(val@),
    {
        self.staged.push(val);
        assert(self.staged@.drop_last() =~= old(self).staged@);
    }

    /// The number of values staged.
    pub fn len(&self) -> (r: usize)
        ensures
            r == self@.len(),
    {
        proof {
            lemma_objs_view(self.staged@);
        }
        self.staged.len()
    }

    /// Freezes the staged values into a vector, in insertion order.
    pub fn to_vector(self) -> (r: Object)
        ensures
            r@ == ObjView::Vector(self@),
    {
        Object::Vector(self.staged)
    }

    /// Freezes the staged values into a map, read pairwise in insertion
    /// order as key then value. An odd count is refused, never truncated.
    pub fn to_hashmap(self) -> (r: Result<Object, Error>)
        ensures
            r is Ok <==> self@.len() % 2 == 0,
            r matches Ok(o) ==> o@ == ObjView::Dict(ObjView::pairs_of(self@)),
            r matches Err(e) ==> e == Error::OddMapLength,
    {
        proof {
            lemma_objs_view(self.staged@);
        }
        let n = self.staged.len();
        if n % 2 != 0 {
            return Err(Error::OddMapLength);
        }
        let mut staged = self.staged;
        let ghost all = staged@;
        let mut pairs: Vec<(Object, Object)> = Vec::new();
        // Taking from the back keeps each move O(1); the pairs are reversed after.
        let mut rev: Vec<(Object, Object)> = Vec::new();
        while staged.len() > 0
            invariant
                staged.len() % 2 == 0,
                staged.len() <= n,
                n == all.len(),
                n % 2 == 0,
                staged@ == all.subrange(0, staged.len() as int),
                rev.len() == (n - staged.len()) / 2,
                forall|j: int|
                    0 <= j < rev.len() ==> {
                        &&& #[trigger] rev[j].0@ == all[n - 2 * j - 2]@
                        &&& rev[j].1@ == all[n - 2 * j - 1]@
                    },
            decreases staged.len(),
        {
            let ghost len0 = staged.len() as int;
            let v = staged.pop().unwrap();
            let k = staged.pop().unwrap();
            proof {
                assert(v == all[len0 - 1]);
                assert(k == all[len0 - 2]);
                let j = rev.len() as int;
                assert(n - 2 * j - 2 == len0 - 2) by (nonlinear_arith)
                    requires j == (n - len0) / 2, (n - len0) % 2 == 0;
            }
            rev.push((k, v));
        }
        while rev.len() > 0
            invariant
                n == all.len(),
                n % 2 == 0,
                rev.len() + pairs.len() == n / 2,
                forall|j: int|
                    0 <= j < rev.len() ==> {
                        &&& #[trigger] rev[j].0@ == all[n - 2 * j - 2]@
                        &&& rev[j].1@ == all[n - 2 * j - 1]@
                    },
                forall|j: int|
                    0 <= j < pairs.len() ==> {
                        &&& #[trigger] pairs[j].0@ == all[2 * j]@
                        &&& pairs[j].1@ == all[2 * j + 1]@
                    },
            decreases rev.len(),
        {
            let ghost old_rev = rev@;
            let p = rev.pop().unwrap();
            proof {
                let j = pairs.len() as int;
                let m = rev.len() as int;
                assert(p == old_rev[m]);
                assert(old_rev[m].0@ == all[n - 2 * m - 2]@);
                assert(n - 2 * m - 2 == 2 * j) by (nonlinear_arith)
                    requires m + j + 1 == n / 2, n % 2 == 0;
            }
            pairs.push(p);
            proof {
                let j = pairs.len() - 1;
                assert(pairs[j].0@ == all[2 * j]@);
                assert(pairs[j].1@ == all[2 * j + 1]@);
            }
        }
        let r = Object::Dict(pairs);
        proof {
            lemma_objs_view(all);
            lemma_entries_view(pairs@);
            assert(entries_view(pairs@) =~= ObjView::pairs_of(self@));
        }
        Ok(r)
    }
}

} // verus!
