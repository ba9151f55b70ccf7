use vstd::prelude::*;

verus! {

/// The working set of a dual active-set solve over `n` variables with `p`
/// equality and `m` inequality constraints.
///
/// The equalities come first, in index order, and are never dropped; the
/// active inequalities follow in the order in which they were added. Its
/// position in this order is a constraint's slot in the solver's factors.
pub struct WorkingSet {
    n: usize,
    p: usize,
    m: usize,
    equalities: usize,
    inequalities: Vec<usize>,
}

impl WorkingSet {
    pub closed spec fn vars(&self) -> nat {
        self.n as nat
    }

    pub closed spec fn n_eq(&self) -> nat {
        self.p as nat
    }

    pub closed spec fn n_ineq(&self) -> nat {
        self.m as nat
    }

    /// How many equalities are active; they hold the first slots.
    pub closed spec fn eq_active(&self) -> nat {
        self.equalities as nat
    }

    /// The active inequalities, in slot order.
    pub closed spec fn ineq_active(&self) -> Seq<usize> {
        self.inequalities@
    }

    /// The number of active constraints.
    pub open spec fn size(&self) -> nat {
        self.eq_active() + self.ineq_active().len()
    }

    pub open spec fn is_active(&self, k: usize) -> bool {
        self.ineq_active().contains(k)
    }

    /// Well-formedness: every active inequality is in range and active once,
    /// and no more constraints are active than there are variables.
    pub open spec fn wf(&self) -> bool {
        &&& self.eq_active() <= self.n_eq()
        &&& self.size() <= self.vars()
        &&& self.ineq_active().no_duplicates()
        &&& forall|i: int|
            0 <= i < self.ineq_active().len() ==> #[trigger] self.ineq_active()[i] < self.n_ineq()
    }

    /// An empty working set.
    pub fn new(n: usize, p: usize, m: usize) -> (r: WorkingSet)
        ensures
            r.wf(),
            r.vars() == n,
            r.n_eq() == p,
            r.n_ineq() == m,
            r.eq_active() == 0,
            r.ineq_active() == Seq::<usize>::empty(),
    {
        WorkingSet { n, p, m, equalities: 0, inequalities: Vec::new() }
    }

    pub fn vars_count(&self) -> (r: usize)
        ensures
            r == self.vars(),
    {
        self.n
    }

    pub fn equality_count(&self) -> (r: usize)
        ensures
            r == self.n_eq(),
    {
        self.p
    }

    pub fn inequality_count(&self) -> (r: usize)
        ensures
            r == self.n_ineq(),
    {
        self.m
    }

    pub fn active_equalities(&self) -> (r: usize)
        ensures
            r == self.eq_active(),
    {
        self.equalities
    }

    /// The number of active constraints.
    pub fn len(&self) -> (r: usize)
        requires
            self.wf(),
        ensures
            r == self.size(),
    {
        self.equalities + self.inequalities.len()
    }

    /// Whether as many constraints are active as there are variables, so
    /// that no further constraint can be independent of them.
    pub fn is_full(&self) -> (r: bool)
        requires
            self.wf(),
        ensures
            r == (self.size() == self.vars()),
    {
        self.len() == self.n
    }

    /// The active inequalities, in slot order.
    pub fn inequalities(&self) -> (r: &Vec<usize>)
        ensures
            r@ == self.ineq_active(),
    {
        &self.inequalities
    }

    /// The inequality in the `i`-th slot after the equalities.
    pub fn inequality_at(&self, i: usize) -> (r: usize)
        requires
            i < self.ineq_active().len(),
        ensures
            r == self.ineq_active()[i as int],
    {
        self.inequalities[i]
    }

    /// Whether inequality `k` is active.
    pub fn contains(&self, k: usize) -> (r: bool)
        ensures
            r == self.is_active(k),
    {
        let mut i: usize = 0;
        while i < self.inequalities.len()
            invariant
                i <= self.inequalities@.len(),
                forall|j: int| 0 <= j < i ==> self.inequalities@[j] != k,
            decreases self.inequalities@.len() - i,
        {
            if self.inequalities[i] == k {
                return true;
            }
            i = i + 1;
        }
        false
    }

    /// Makes the next equality active.
    pub fn add_equality(&mut self)
        requires
            old(self).wf(),
            old(self).eq_active() < old(self).n_eq(),
            old(self).size() < old(self).vars(),
        ensures
            final(self).wf(),
            final(self).eq_active() == old(self).eq_active() + 1,
            final(self).ineq_active() == old(self).ineq_active(),
            final(self).vars() == old(self).vars(),
            final(self).n_eq() == old(self).n_eq(),
            final(self).n_ineq() == old(self).n_ineq(),
    {
        self.equalities = self.equalities + 1;
    }

    /// Makes inequality `k` active in the next free slot.
    pub fn add(&mut self, k: usize)
        requires
            old(self).wf(),
            k < old(self).n_ineq(),
            !old(self).is_active(k),
            old(self).size() < old(self).vars(),
        ensures
            final(self).wf(),
            final(self).eq_active() == old(self).eq_active(),
            final(self).ineq_active() == old(self).ineq_active().push(k),
            final(self).vars() == old(self).vars(),
            final(self).n_eq() == old(self).n_eq(),
            final(self).n_ineq() == old(self).n_ineq(),
    {
        self.inequalities.push(k);
        assert(self.inequalities@.no_duplicates()) by {
            assert forall|i: int, j: int|
                0 <= i < self.inequalities@.len() && 0 <= j < self.inequalities@.len() && i
                    != j implies self.inequalities@[i] != self.inequalities@[j] by {
                if i == old(self).inequalities@.len() as int {
                    assert(old(self).inequalities@.contains(self.inequalities@[j]));
                } else if j == old(self).inequalities@.len() as int {
                    assert(old(self).inequalities@.contains(self.inequalities@[i]));
                }
            }
        }
    }

    /// Drops the active inequality `k`, keeping the order of the others, and
    /// returns the slot it held.
    pub fn drop(&mut self, k: usize) -> (slot: usize)
        requires
            old(self).wf(),
            old(self).is_active(k),
        ensures
            final(self).wf(),
            old(self).eq_active() <= slot < old(self).size(),
            old(self).ineq_active()[slot - old(self).eq_active()] == k,
            final(self).ineq_active() == old(self).ineq_active().remove(
                slot - old(self).eq_active(),
            ),
            !final(self).is_active(k),
            final(self).eq_active() == old(self).eq_active(),
            final(self).vars() == old(self).vars(),
            final(self).n_eq() == old(self).n_eq(),
            final(self).n_ineq() == old(self).n_ineq(),
    {
        let ghost s = self.inequalities@;
        let mut i: usize = 0;
        while i < self.inequalities.len() && self.inequalities[i] != k
            invariant
                self.inequalities@ == s,
                i <= s.len(),
                forall|j: int| 0 <= j < i ==> s[j] != k,
            decreases s.len() - i,
        {
            i = i + 1;
        }
        proof {
            if i == s.len() {
                let w = choose|w: int| 0 <= w < s.len() && s[w] == k;
                assert(s[w] == k);
            }
        }
        self.inequalities.remove(i);
        proof {
            let r = s.remove(i as int);
            assert(r.no_duplicates()) by {
                assert forall|a: int, b: int|
                    0 <= a < r.len() && 0 <= b < r.len() && a != b implies r[a] != r[b] by {
                    let a2 = if a < i { a } else { a + 1 };
                    let b2 = if b < i { b } else { b + 1 };
                    assert(s[a2] != s[b2]);
                }
            }
            assert(!r.contains(k)) by {
                if r.contains(k) {
                    let a = choose|a: int| 0 <= a < r.len() && r[a] == k;
                    let a2 = if a < i { a } else { a + 1 };
                    assert(s[a2] == k && a2 != i);
                }
            }
            assert forall|j: int| 0 <= j < r.len() implies #[trigger] r[j] < self.m by {
                let j2 = if j < i { j } else { j + 1 };
                assert(s[j2] < self.m);
            }
        }
        self.equalities + i
    }

    /// Replaces the active inequalities by `saved`, an earlier state of them.
    pub fn restore(&mut self, saved: &Vec<usize>)
        requires
            old(self).wf(),
            saved@.no_duplicates(),
            forall|i: int| 0 <= i < saved@.len() ==> #[trigger] saved@[i] < old(self).n_ineq(),
            old(self).eq_active() + saved@.len() <= old(self).vars(),
        ensures
            final(self).wf(),
            final(self).eq_active() == old(self).eq_active(),
            final(self).ineq_active() == saved@,
            final(self).vars() == old(self).vars(),
            final(self).n_eq() == old(self).n_eq(),
            final(self).n_ineq() == old(self).n_ineq(),
    {
        self.inequalities = saved.clone();
    }
}

/// Adding an inequality and dropping it again gives back the working set's
/// active constraints in their order, and the slot dropped is the one that
/// the addition filled.
pub proof fn lemma_add_then_drop(before: Seq<usize>, k: usize, slot: int)
    requires
        !before.contains(k),
        0 <= slot < before.len() + 1,
        before.push(k)[slot] == k,
    ensures
        slot == before.len(),
        before.push(k).remove(slot) == before,
{
    if slot < before.len() {
        assert(before[slot] == k);
        assert(before.contains(k));
    }
    assert(before.push(k).remove(slot) =~= before);
}

} // verus!
