use vstd::prelude::*;
use crate::active::WorkingSet;
use crate::error::{Error, Failure};
use crate::shape::Sizes;
use crate::select::{first_min_below, is_first_min_below};

verus! {

/// Where the dual ascent stands.
#[derive(Clone, Copy, Debug, PartialEq, Eq, Structural)]
pub enum Phase {
    /// The equalities are being made active, one after the other.
    Equalities,
    /// An inactive inequality violated at the current point is looked for.
    Select,
    /// The dual ascent steps towards satisfying inequality `ip`.
    Step { ip: usize },
    /// Every constraint holds: the current point is the optimum.
    Optimal,
    /// No point satisfies every constraint.
    Infeasible,
    /// The solve was given up.
    Failed { reason: Failure },
}

/// What the numerical kernel observed at the driver's request.
#[derive(Clone, Copy, Debug, PartialEq, Eq, Structural)]
pub enum Event {
    /// The next equality is independent of the active constraints and was
    /// made to hold.
    EqualityAdded,
    /// The next equality depends linearly on the active constraints.
    EqualityDependent,
    /// No inactive inequality is violated at the current point.
    Satisfied,
    /// The only inactive inequalities violated at the current point were
    /// found dependent on the active constraints in this iteration.
    Blocked,
    /// Inequality `ip` is the most violated eligible one.
    Violated { ip: usize },
    /// The full step was taken and the inequality stepped for is
    /// independent of the active constraints.
    FullStep,
    /// The full step was taken, but the inequality stepped for depends
    /// linearly on the active constraints.
    FullStepDependent,
    /// The step was cut short where the multiplier of the active
    /// inequality `l` reached zero.
    PartialStep { l: usize },
    /// The dual objective grows without bound and no constraint blocks.
    Unbounded,
}

/// What the numerical kernel has to do to its factors after a transition.
#[derive(Clone, Copy, Debug, PartialEq, Eq, Structural)]
pub enum Action {
    /// Nothing.
    Keep,
    /// The constraint just stepped for now holds the next slot.
    Added,
    /// The constraint in `slot` left; the later slots move down by one.
    Dropped { slot: usize },
    /// The active inequalities are again those at the start of the
    /// iteration: restore the point and multipliers saved then, and
    /// refactor.
    Restored,
}

/// The decisions of a dual active-set solve: which constraint enters or
/// leaves the working set, when the solve is over, and with what outcome.
pub struct Driver {
    set: WorkingSet,
    saved: Vec<usize>,
    excluded: Vec<bool>,
    phase: Phase,
    iterations: usize,
    limit: usize,
}

/// No inequality excluded.
pub open spec fn none_excluded(m: nat) -> Seq<bool> {
    Seq::new(m, |i: int| false)
}

/// Phases that are reached only once every equality is active.
pub open spec fn past_equalities(phase: Phase) -> bool {
    phase is Select || phase is Step || phase is Optimal || phase is Infeasible
}

/// Phases in which the solve is over.
pub open spec fn is_terminal(phase: Phase) -> bool {
    phase is Optimal || phase is Infeasible || phase is Failed
}

/// What a finished solve reports: `None` while it runs.
pub open spec fn outcome_of(phase: Phase) -> Option<Result<(), Error>> {
    match phase {
        Phase::Optimal => Some(Ok(())),
        Phase::Infeasible => Some(Err(Error::Infeasible)),
        Phase::Failed { reason } => Some(Err(Error::Numerical { reason })),
        _ => None,
    }
}

fn no_exclusions(m: usize) -> (r: Vec<bool>)
    ensures
        r@ == none_excluded(m as nat),
{
    let mut r: Vec<bool> = Vec::new();
    while r.len() < m
        invariant
            r@.len() <= m,
            forall|i: int| 0 <= i < r@.len() ==> !#[trigger] r@[i],
        decreases m - r@.len(),
    {
        r.push(false);
    }
    assert(r@ =~= none_excluded(m as nat));
    r
}

/// Nothing but the phase changed between `o` and `f`.
pub open spec fn same_sets(o: Driver, f: Driver) -> bool {
    &&& f.set() == o.set()
    &&& f.saved() == o.saved()
    &&& f.excluded() == o.excluded()
}

/// The effect of the expected event `ev` on a driver `o` that has
/// transitions left: `f` is the driver after it, `act` what the kernel must
/// do.
pub open spec fn transition(o: Driver, ev: Event, f: Driver, act: Action) -> bool {
    let s = o.set();
    let t = f.set();
    match (o.phase(), ev) {
        (Phase::Equalities, Event::EqualityAdded) => if s.size() == s.vars() {
            same_sets(o, f) && act == Action::Keep && f.phase() == (Phase::Failed {
                reason: Failure::DependentEqualities,
            })
        } else {
            &&& t.eq_active() == s.eq_active() + 1
            &&& t.ineq_active() == s.ineq_active()
            &&& f.saved() == o.saved()
            &&& f.excluded() == o.excluded()
            &&& act == Action::Added
            &&& f.phase() == if t.eq_active() == s.n_eq() {
                Phase::Select
            } else {
                Phase::Equalities
            }
        },
        (Phase::Equalities, Event::EqualityDependent) => same_sets(o, f) && act == Action::Keep
            && f.phase() == (Phase::Failed { reason: Failure::DependentEqualities }),
        (Phase::Select, Event::Satisfied) => same_sets(o, f) && act == Action::Keep && f.phase()
            == Phase::Optimal,
        (Phase::Select, Event::Blocked) => same_sets(o, f) && act == Action::Keep && f.phase()
            == (Phase::Failed { reason: Failure::DependentInequalities }),
        (Phase::Select, Event::Violated { ip }) => same_sets(o, f) && act == Action::Keep
            && f.phase() == (Phase::Step { ip }),
        (Phase::Step { ip }, Event::FullStep) if s.size() < s.vars() => {
            &&& t.eq_active() == s.eq_active()
            &&& t.ineq_active() == s.ineq_active().push(ip)
            &&& f.saved() == t.ineq_active()
            &&& f.excluded() == none_excluded(s.n_ineq())
            &&& act == Action::Added
            &&& f.phase() == Phase::Select
        },
        (Phase::Step { ip }, Event::FullStep) | (Phase::Step { ip }, Event::FullStepDependent) => {
            &&& t.eq_active() == s.eq_active()
            &&& t.ineq_active() == o.saved()
            &&& f.saved() == o.saved()
            &&& f.excluded() == o.excluded().update(ip as int, true)
            &&& act == Action::Restored
            &&& f.phase() == Phase::Select
        },
        (Phase::Step { ip }, Event::PartialStep { l }) => {
            &&& act matches Action::Dropped { slot }
            &&& s.eq_active() <= slot < s.size()
            &&& s.ineq_active()[slot - s.eq_active()] == l
            &&& t.eq_active() == s.eq_active()
            &&& t.ineq_active() == s.ineq_active().remove(slot - s.eq_active())
            &&& f.saved() == o.saved()
            &&& f.excluded() == o.excluded()
            &&& f.phase() == (Phase::Step { ip })
        },
        (Phase::Step { .. }, Event::Unbounded) => same_sets(o, f) && act == Action::Keep
            && f.phase() == Phase::Infeasible,
        _ => false,
    }
}

/// The driver's decisions are deterministic: from one state, one expected
/// event leads to one next state and one action, so solving a problem
/// twice takes the same path.
pub proof fn lemma_deterministic(o: Driver, ev: Event, f1: Driver, a1: Action, f2: Driver, a2: Action)
    requires
        o.wf(),
        o.expects(ev),
        transition(o, ev, f1, a1),
        transition(o, ev, f2, a2),
    ensures
        a1 == a2,
        f1.phase() == f2.phase(),
        f1.set().eq_active() == f2.set().eq_active(),
        f1.set().ineq_active() == f2.set().ineq_active(),
        f1.saved() == f2.saved(),
        f1.excluded() == f2.excluded(),
{
    if let (Phase::Step { .. }, Event::PartialStep { l }) = (o.phase(), ev) {
        let s = o.set();
        let q = s.ineq_active();
        let e = s.eq_active() as int;
        if let (Action::Dropped { slot: x }, Action::Dropped { slot: y }) = (a1, a2) {
            assert(q[x - e] == l && q[y - e] == l);
            assert(x == y);
        }
    }
}

/// Without constraints the only expected event is that nothing is
/// violated, and it ends the solve as optimal with nothing active: the
/// point the kernel starts from, the unconstrained minimiser, is returned.
pub proof fn lemma_unconstrained(d: Driver, ev: Event, f: Driver, act: Action)
    requires
        d.wf(),
        d.set().n_eq() == 0,
        d.set().n_ineq() == 0,
        d.phase() is Select,
        d.expects(ev),
        transition(d, ev, f, act),
    ensures
        ev is Satisfied,
        f.phase() is Optimal,
        act is Keep,
        f.set().size() == 0,
{
    if d.set().ineq_active().len() > 0 {
        assert(d.set().ineq_active()[0] < d.set().n_ineq());
    }
}

/// A solve reports an outcome exactly when it is over, and once over it
/// expects no further event: no running solve is reported as a result.
pub proof fn lemma_outcome_only_when_over(d: Driver, ev: Event)
    ensures
        outcome_of(d.phase()) is Some <==> is_terminal(d.phase()),
        is_terminal(d.phase()) ==> !d.expects(ev),
{
}

/// A solve becomes optimal only from the selection phase, on the event that
/// no inactive inequality is violated.
pub proof fn lemma_optimal_only_when_satisfied(o: Driver, ev: Event, f: Driver, act: Action)
    requires
        transition(o, ev, f, act),
        f.phase() is Optimal,
    ensures
        o.phase() is Select,
        ev is Satisfied,
{
}

/// A solve that ends optimal or infeasible has every equality active.
pub proof fn lemma_equalities_kept(d: Driver)
    requires
        d.wf(),
        d.phase() is Optimal || d.phase() is Infeasible,
    ensures
        d.set().eq_active() == d.set().n_eq(),
{
}

/// Transitions granted to a solve: eight times the product of one more than
/// the number of variables and one more than the number of constraints,
/// capped at the largest `usize`.
pub open spec fn limit_of(s: Sizes) -> nat {
    let k = 8 * (s.n + 1) * (s.n + s.p + s.m + 1);
    if k <= usize::MAX {
        k as nat
    } else {
        usize::MAX as nat
    }
}

/// The number of transitions after which a solve of a problem of sizes `s`
/// is given up as cycling.
pub fn iteration_limit(s: Sizes) -> (r: usize)
    ensures
        r == limit_of(s),
{
    let max = usize::MAX as u128;
    let a = (s.n as u128) + 1;
    let b = (s.n as u128) + (s.p as u128) + (s.m as u128) + 1;
    assert(max <= 0xffff_ffff_ffff_ffff);
    if a > max / 8 || b > max {
        assert(8 * a * b > max) by (nonlinear_arith)
            requires
                a > max / 8 || b > max,
                a >= 1,
                b >= 1,
        ;
        return usize::MAX;
    }
    assert(8 * a * b <= 8 * (max / 8) * max) by (nonlinear_arith)
        requires
            a <= max / 8,
            b <= max,
    ;
    assert(8 * (max / 8) * max <= 0xffff_ffff_ffff_ffff_ffff_ffff_ffff_ffff) by (nonlinear_arith)
        requires
            max <= 0xffff_ffff_ffff_ffff,
    ;
    let k = 8 * a * b;
    if k <= max {
        k as usize
    } else {
        usize::MAX
    }
}

impl Driver {
    pub closed spec fn set(&self) -> WorkingSet {
        self.set
    }

    /// The active inequalities when the current iteration began.
    pub closed spec fn saved(&self) -> Seq<usize> {
        self.saved@
    }

    /// The inequalities that turned out dependent in this iteration.
    pub closed spec fn excluded(&self) -> Seq<bool> {
        self.excluded@
    }

    pub closed spec fn phase(&self) -> Phase {
        self.phase
    }

    pub closed spec fn iterations(&self) -> nat {
        self.iterations as nat
    }

    pub closed spec fn limit(&self) -> nat {
        self.limit as nat
    }

    pub open spec fn wf(&self) -> bool {
        let s = self.set();
        &&& s.wf()
        &&& self.excluded().len() == s.n_ineq()
        &&& self.iterations() <= self.limit()
        &&& self.saved().no_duplicates()
        &&& forall|i: int| 0 <= i < self.saved().len() ==> #[trigger] self.saved()[i] < s.n_ineq()
        &&& (past_equalities(self.phase()) ==> s.n_eq() + self.saved().len() <= s.vars())
        &&& (self.phase() is Equalities ==> s.eq_active() < s.n_eq() && s.ineq_active().len() == 0
            && self.saved().len() == 0)
        &&& (past_equalities(self.phase()) ==> s.eq_active() == s.n_eq())
        &&& (self.phase() is Select ==> s.ineq_active() == self.saved())
        &&& (self.phase() matches Phase::Step { ip } ==> ip < s.n_ineq() && !s.is_active(ip))
    }

    /// Takes the transition for `ev`. A finished solve stays as it is; an
    /// event that the phase does not expect ends the solve with a failure,
    /// as does reaching the limit of `limit` transitions.
    pub fn advance(&mut self, ev: Event) -> (act: Action)
        requires
            old(self).wf(),
        ensures
            final(self).wf(),
            final(self).limit() == old(self).limit(),
            final(self).set().vars() == old(self).set().vars(),
            final(self).set().n_eq() == old(self).set().n_eq(),
            final(self).set().n_ineq() == old(self).set().n_ineq(),
            final(self).set().eq_active() >= old(self).set().eq_active(),
            is_terminal(old(self).phase()) ==> {
                &&& same_sets(*old(self), *final(self))
                &&& act == Action::Keep
                &&& final(self).iterations() == old(self).iterations()
                &&& final(self).phase() == old(self).phase()
            },
            !is_terminal(old(self).phase()) && !old(self).expects(ev) ==> {
                &&& same_sets(*old(self), *final(self))
                &&& act == Action::Keep
                &&& final(self).iterations() == old(self).iterations()
                &&& final(self).phase() == (Phase::Failed { reason: Failure::UnexpectedEvent })
            },
            old(self).expects(ev) && old(self).iterations() == old(self).limit() ==> {
                &&& same_sets(*old(self), *final(self))
                &&& act == Action::Keep
                &&& final(self).iterations() == old(self).iterations()
                &&& final(self).phase() == (Phase::Failed { reason: Failure::IterationLimit })
            },
            old(self).expects(ev) && old(self).iterations() < old(self).limit() ==> {
                &&& final(self).iterations() == old(self).iterations() + 1
                &&& transition(*old(self), ev, *final(self), act)
            },
    {
        if self.is_over() {
            return Action::Keep;
        }
        if !self.accepts(ev) {
            self.phase = Phase::Failed { reason: Failure::UnexpectedEvent };
            return Action::Keep;
        }
        if self.iterations == self.limit {
            self.phase = Phase::Failed { reason: Failure::IterationLimit };
            return Action::Keep;
        }
        self.iterations = self.iterations + 1;
        match self.phase {
            Phase::Equalities => {
                if matches!(ev, Event::EqualityAdded) && !self.set.is_full() {
                    self.set.add_equality();
                    assert(self.set.ineq_active() =~= self.saved@);
                    if self.set.active_equalities() == self.set.equality_count() {
                        self.phase = Phase::Select;
                    }
                    Action::Added
                } else {
                    self.phase = Phase::Failed { reason: Failure::DependentEqualities };
                    Action::Keep
                }
            },
            Phase::Select => {
                match ev {
                    Event::Violated { ip } => {
                        self.phase = Phase::Step { ip };
                    },
                    Event::Blocked => {
                        self.phase = Phase::Failed { reason: Failure::DependentInequalities };
                    },
                    _ => {
                        self.phase = Phase::Optimal;
                    },
                }
                Action::Keep
            },
            Phase::Step { ip } => match ev {
                Event::FullStep if !self.set.is_full() => {
                    self.set.add(ip);
                    self.saved = self.set.inequalities().clone();
                    self.excluded = no_exclusions(self.set.inequality_count());
                    self.phase = Phase::Select;
                    Action::Added
                },
                Event::PartialStep { l } => {
                    let slot = self.set.drop(l);
                    Action::Dropped { slot }
                },
                Event::Unbounded => {
                    self.phase = Phase::Infeasible;
                    Action::Keep
                },
                _ => {
                    self.set.restore(&self.saved);
                    self.excluded.set(ip, true);
                    self.phase = Phase::Select;
                    Action::Restored
                },
            },
            _ => Action::Keep,
        }
    }

    /// The eligibility of each inequality, by index.
    pub open spec fn eligibility(&self) -> Seq<bool> {
        Seq::new(self.set().n_ineq(), |i: int| self.eligible(i as usize))
    }

    /// The activity of each inequality, negated: which are inactive.
    pub open spec fn inactivity(&self) -> Seq<bool> {
        Seq::new(self.set().n_ineq(), |i: int| !self.set().is_active(i as usize))
    }

    /// The selection event for the keys of the inequalities' values at the
    /// current point, ordered as the values are, where a value whose key is
    /// below `bound` counts as violated: the first eligible inequality of
    /// least key below `bound`; else whether some inactive one, excluded in
    /// this iteration, is still violated; else that none is.
    pub fn choose_violated(&self, keys: &Vec<u64>, bound: u64) -> (ev: Event)
        requires
            self.wf(),
            self.phase() is Select,
            keys@.len() == self.set().n_ineq(),
        ensures
            self.expects(ev),
            ev is Satisfied <==> forall|j: int|
                0 <= j < keys@.len() && self.inactivity()[j] ==> bound <= #[trigger] keys@[j],
            ev is Blocked <==> {
                &&& forall|j: int|
                    0 <= j < keys@.len() && self.eligibility()[j] ==> bound <= #[trigger] keys@[j]
                &&& exists|j: int|
                    0 <= j < keys@.len() && self.inactivity()[j] && #[trigger] keys@[j] < bound
            },
            ev matches Event::Violated { ip } ==> is_first_min_below(
                keys@,
                self.eligibility(),
                bound,
                ip as int,
            ),
    {
        let m = self.set.inequality_count();
        let mut eligible: Vec<bool> = Vec::new();
        let mut inactive: Vec<bool> = Vec::new();
        let mut i: usize = 0;
        while i < m
            invariant
                self.wf(),
                m == self.set().n_ineq(),
                i <= m,
                eligible@.len() == i,
                inactive@.len() == i,
                forall|j: int| 0 <= j < i ==> eligible@[j] == self.eligible(j as usize),
                forall|j: int| 0 <= j < i ==> inactive@[j] == !self.set().is_active(j as usize),
            decreases m - i,
        {
            eligible.push(self.is_eligible(i));
            inactive.push(!self.set.contains(i));
            i = i + 1;
        }
        assert(eligible@ =~= self.eligibility());
        assert(inactive@ =~= self.inactivity());
        match first_min_below(keys, &eligible, bound) {
            Some(ip) => {
                assert(!(forall|j: int|
                    0 <= j < keys@.len() && self.inactivity()[j] ==> bound <= #[trigger] keys@[j]));
                Event::Violated { ip }
            },
            None => match first_min_below(keys, &inactive, bound) {
                Some(k) => {
                    assert(keys@[k as int] < bound);
                    Event::Blocked
                },
                None => Event::Satisfied,
            },
        }
    }

    /// Whether inequality `k` may be stepped for in this iteration.
    pub open spec fn eligible(&self, k: usize) -> bool {
        k < self.set().n_ineq() && !self.set().is_active(k) && !self.excluded()[k as int]
    }

    /// Some inactive inequality was found dependent in this iteration.
    pub open spec fn some_excluded(&self) -> bool {
        exists|j: int|
            0 <= j < self.set().n_ineq() && !self.set().is_active(j as usize)
                && #[trigger] self.excluded()[j]
    }

    /// The events that the current phase expects.
    pub open spec fn expects(&self, ev: Event) -> bool {
        match self.phase() {
            Phase::Equalities => ev is EqualityAdded || ev is EqualityDependent,
            Phase::Select => ev is Satisfied || (ev is Blocked && self.some_excluded()) || (ev matches Event::Violated { ip } && self.eligible(
                ip,
            )),
            Phase::Step { .. } => ev is FullStep || ev is FullStepDependent || ev is Unbounded || (
            ev matches Event::PartialStep { l } && self.set().is_active(l)),
            _ => false,
        }
    }

    /// A driver for `n` variables, `p` equalities and `m` inequalities that
    /// gives up after `limit` transitions.
    pub fn new(n: usize, p: usize, m: usize, limit: usize) -> (r: Driver)
        ensures
            r.wf(),
            r.set().vars() == n,
            r.set().n_eq() == p,
            r.set().n_ineq() == m,
            r.set().eq_active() == 0,
            r.set().ineq_active() == Seq::<usize>::empty(),
            r.saved() == Seq::<usize>::empty(),
            r.excluded() == none_excluded(m as nat),
            r.phase() == (if p == 0 {
                Phase::Select
            } else {
                Phase::Equalities
            }),
            r.iterations() == 0,
            r.limit() == limit,
    {
        let phase = if p == 0 {
            Phase::Select
        } else {
            Phase::Equalities
        };
        let r = Driver {
            set: WorkingSet::new(n, p, m),
            saved: Vec::new(),
            excluded: no_exclusions(m),
            phase,
            iterations: 0,
            limit,
        };
        assert(r.saved() =~= Seq::<usize>::empty());
        r
    }

    /// A driver for a validated problem, with the iteration limit that its
    /// sizes give.
    pub fn for_problem(s: Sizes) -> (r: Driver)
        ensures
            r.wf(),
            r.set().vars() == s.n,
            r.set().n_eq() == s.p,
            r.set().n_ineq() == s.m,
            r.set().eq_active() == 0,
            r.set().ineq_active() == Seq::<usize>::empty(),
            r.saved() == Seq::<usize>::empty(),
            r.excluded() == none_excluded(s.m as nat),
            r.phase() == (if s.p == 0 {
                Phase::Select
            } else {
                Phase::Equalities
            }),
            r.iterations() == 0,
            r.limit() == limit_of(s),
    {
        Driver::new(s.n, s.p, s.m, iteration_limit(s))
    }

    pub fn working_set(&self) -> (r: &WorkingSet)
        ensures
            *r == self.set(),
    {
        &self.set
    }

    pub fn current_phase(&self) -> (r: Phase)
        ensures
            r == self.phase(),
    {
        self.phase
    }

    pub fn iteration_count(&self) -> (r: usize)
        ensures
            r == self.iterations(),
    {
        self.iterations
    }

    /// Whether inequality `k` may be stepped for in this iteration.
    pub fn is_eligible(&self, k: usize) -> (r: bool)
        requires
            self.wf(),
        ensures
            r == self.eligible(k),
    {
        k < self.set.inequality_count() && !self.set.contains(k) && !self.excluded[k]
    }

    /// Whether the current phase expects `ev`.
    pub fn accepts(&self, ev: Event) -> (r: bool)
        requires
            self.wf(),
        ensures
            r == self.expects(ev),
    {
        match self.phase {
            Phase::Equalities => matches!(ev, Event::EqualityAdded | Event::EqualityDependent),
            Phase::Select => match ev {
                Event::Satisfied => true,
                Event::Blocked => self.has_excluded(),
                Event::Violated { ip } => self.is_eligible(ip),
                _ => false,
            },
            Phase::Step { .. } => match ev {
                Event::FullStep | Event::FullStepDependent | Event::Unbounded => true,
                Event::PartialStep { l } => self.set.contains(l),
                _ => false,
            },
            _ => false,
        }
    }

    /// Whether some inactive inequality was found dependent in this
    /// iteration.
    pub fn has_excluded(&self) -> (r: bool)
        requires
            self.wf(),
        ensures
            r == self.some_excluded(),
    {
        let m = self.set.inequality_count();
        let mut i: usize = 0;
        while i < m
            invariant
                self.wf(),
                m == self.set().n_ineq(),
                i <= m,
                forall|j: int|
                    0 <= j < i ==> !(!self.set().is_active(j as usize) && #[trigger] self.excluded()[j]),
            decreases m - i,
        {
            if self.excluded[i] && !self.set.contains(i) {
                return true;
            }
            i = i + 1;
        }
        false
    }

    /// Whether the solve is over.
    pub fn is_over(&self) -> (r: bool)
        ensures
            r == is_terminal(self.phase()),
    {
        matches!(self.phase, Phase::Optimal | Phase::Infeasible | Phase::Failed { .. })
    }

    /// The outcome of a finished solve, `None` while it runs.
    pub fn outcome(&self) -> (r: Option<Result<(), Error>>)
        ensures
            r == outcome_of(self.phase()),
    {
        match self.phase {
            Phase::Optimal => Some(Ok(())),
            Phase::Infeasible => Some(Err(Error::Infeasible)),
            Phase::Failed { reason } => Some(Err(Error::Numerical { reason })),
            _ => None,
        }
    }
}

} // verus!
