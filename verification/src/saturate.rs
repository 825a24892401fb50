//! When equality saturation stops: after a number of rounds, when a round applies no
//! rule, or as soon as the e-graph outgrows the node limit.
//!
//! A round applies every rule once and then rebuilds the e-graph. The caller runs the
//! rules and reports what each did; [`Saturation`] decides what comes next.
use vstd::prelude::*;

verus! {

/// The number of e-graph nodes beyond which saturation stops at once.
pub const NODE_LIMIT: usize = 8000000;

/// The state of a saturation run.
#[derive(Debug)]
pub struct Saturation {
    iters: usize,
    round: usize,
    applied: usize,
    stopped: bool,
}

/// The mathematical value of a [`Saturation`].
pub ghost struct SaturationView {
    /// Rounds are numbered from 1; the ones before `iters` may run.
    pub iters: usize,
    /// The number of the next (or current) round.
    pub round: usize,
    /// The number of new e-classes that the current round's rules have reported.
    pub applied: usize,
    /// Whether the run has ended.
    pub stopped: bool,
}

impl View for Saturation {
    type V = SaturationView;

    closed spec fn view(&self) -> SaturationView {
        SaturationView {
            iters: self.iters,
            round: self.round,
            applied: self.applied,
            stopped: self.stopped,
        }
    }
}

/// [`Saturation::begin_round`]: whether another round runs, and the state after.
pub open spec fn begin_step(s: SaturationView) -> (bool, SaturationView) {
    if !s.stopped && s.round < s.iters {
        (true, SaturationView { applied: 0, ..s })
    } else {
        (false, SaturationView { stopped: true, ..s })
    }
}

/// [`Saturation::record`]: whether the round goes on after a rule added `added`
/// e-classes and left `size` nodes, and the state after.
pub open spec fn record_step(s: SaturationView, added: usize, size: usize) -> (bool, SaturationView) {
    let go = size <= NODE_LIMIT;
    (go, SaturationView { applied: (s.applied + added) as usize, stopped: s.stopped || !go, ..s })
}

/// [`Saturation::end_round`]: whether the run goes on after a round, and the state
/// after.
pub open spec fn end_step(s: SaturationView) -> (bool, SaturationView) {
    let go = s.applied > 0;
    (go, SaturationView { round: (s.round + 1) as usize, stopped: s.stopped || !go, ..s })
}

impl Saturation {
    /// A run of at most `iters - 1` rounds, numbered from 1.
    pub fn new(iters: usize) -> (r: Self)
        ensures
            r@ == start(iters),
    {
        Saturation { iters, round: 1, applied: 0, stopped: false }
    }

    /// Whether another round runs: the run has not ended and the round's number is
    /// below `iters`. Where it runs, its count of applications starts at 0; where it
    /// does not, the run ends (see [`begin_step`]).
    pub fn begin_round(&mut self) -> (r: bool)
        ensures
            (r, final(self)@) == begin_step(old(self)@),
    {
        if !self.stopped && self.round < self.iters {
            self.applied = 0;
            true
        } else {
            self.stopped = true;
            false
        }
    }

    /// Records that a rule added `added` e-classes and that the e-graph now has `size`
    /// nodes. Whether the round goes on with the next rule: it does unless `size` is
    /// beyond [`NODE_LIMIT`], which ends the run (see [`record_step`]).
    pub fn record(&mut self, added: usize, size: usize) -> (r: bool)
        requires
            old(self)@.applied + added <= usize::MAX,
        ensures
            (r, final(self)@) == record_step(old(self)@, added, size),
    {
        self.applied = self.applied + added;
        if size > NODE_LIMIT {
            self.stopped = true;
            false
        } else {
            true
        }
    }

    /// Ends a round (after the rebuild). Whether the run goes on: it does where the
    /// round's rules added anything, else it ends early (see [`end_step`]).
    pub fn end_round(&mut self) -> (r: bool)
        requires
            old(self)@.round < usize::MAX,
        ensures
            (r, final(self)@) == end_step(old(self)@),
    {
        self.round = self.round + 1;
        if self.applied == 0 {
            self.stopped = true;
            false
        } else {
            true
        }
    }

    /// The number of new e-classes that the current round's rules have reported.
    pub fn applied(&self) -> (r: usize)
        ensures
            r == self@.applied,
    {
        self.applied
    }

    /// The number of the next (or current) round.
    pub fn round(&self) -> (r: usize)
        ensures
            r == self@.round,
    {
        self.round
    }
}

// ---- a whole run ---------------------------------------------------------------------

/// The state of a new run of `iters` (see [`Saturation::new`]).
pub open spec fn start(iters: usize) -> SaturationView {
    SaturationView { iters, round: 1, applied: 0, stopped: false }
}

/// Recording the rules' reports `reps` (new e-classes, nodes after) of one round in
/// order, up to the first that ends the run: whether the round went through, and the
/// state after.
pub open spec fn record_all(s: SaturationView, reps: Seq<(usize, usize)>) -> (bool, SaturationView)
    decreases reps.len(),
{
    if reps.len() == 0 {
        (true, s)
    } else {
        let (go, s1) = record_step(s, reps[0].0, reps[0].1);
        if !go {
            (false, s1)
        } else {
            record_all(s1, reps.drop_first())
        }
    }
}

/// How many rounds a run from `s` begins when its rounds report `rounds` (each a
/// sequence of the rules' reports): a round is begun, its reports are recorded, and
/// the round is ended, as long as each step says to go on.
pub open spec fn rounds_run(s: SaturationView, rounds: Seq<Seq<(usize, usize)>>) -> nat
    decreases rounds.len(),
{
    if rounds.len() == 0 {
        0
    } else {
        let (go, s1) = begin_step(s);
        if !go {
            0
        } else {
            let (through, s2) = record_all(s1, rounds[0]);
            if !through {
                1
            } else {
                let (more, s3) = end_step(s2);
                if !more {
                    1
                } else {
                    1 + rounds_run(s3, rounds.drop_first())
                }
            }
        }
    }
}

/// Whether every report of `reps` leaves the e-graph within [`NODE_LIMIT`].
pub open spec fn within_limit(reps: Seq<(usize, usize)>) -> bool {
    forall|q: int| 0 <= q < reps.len() ==> #[trigger] reps[q].1 <= NODE_LIMIT
}

/// The number of e-classes that the reports `reps` add together.
pub open spec fn total_added(reps: Seq<(usize, usize)>) -> int
    decreases reps.len(),
{
    if reps.len() == 0 {
        0
    } else {
        reps[0].0 + total_added(reps.drop_first())
    }
}

proof fn lemma_record_all(s: SaturationView, reps: Seq<(usize, usize)>)
    ensures
        total_added(reps) >= 0,
        record_all(s, reps).1.iters == s.iters,
        record_all(s, reps).1.round == s.round,
        record_all(s, reps).0 ==> record_all(s, reps).1.stopped == s.stopped,
        record_all(s, reps).0 == within_limit(reps),
        within_limit(reps) && s.applied + total_added(reps) <= usize::MAX ==> record_all(
            s,
            reps,
        ).1.applied == s.applied + total_added(reps),
        (forall|q: int| 0 <= q < reps.len() ==> #[trigger] reps[q].0 == 0) ==> record_all(
            s,
            reps,
        ).1.applied == s.applied,
    decreases reps.len(),
{
    if reps.len() > 0 {
        let (go, s1) = record_step(s, reps[0].0, reps[0].1);
        let rest = reps.drop_first();
        lemma_record_all(s1, rest);
        assert forall|q: int| 0 <= q < rest.len() implies #[trigger] rest[q] == reps[q + 1] by {}
        if !go {
            assert(!within_limit(reps)) by {
                assert(reps[0].1 > NODE_LIMIT);
            }
        } else {
            if within_limit(rest) {
                assert forall|q: int| 0 <= q < reps.len() implies #[trigger] reps[q].1 <= NODE_LIMIT by {
                    if q > 0 {
                        assert(reps[q] == rest[q - 1]);
                    }
                }
            } else {
                let q = choose|q: int| 0 <= q < rest.len() && !(#[trigger] rest[q].1 <= NODE_LIMIT);
                assert(reps[q + 1] == rest[q]);
            }
            if within_limit(reps) {
                assert forall|q: int| 0 <= q < rest.len() implies #[trigger] rest[q].1 <= NODE_LIMIT by {
                    assert(rest[q] == reps[q + 1]);
                }
            }
            if forall|q: int| 0 <= q < reps.len() ==> #[trigger] reps[q].0 == 0 {
                assert(reps[0].0 == 0);
                assert forall|q: int| 0 <= q < rest.len() implies #[trigger] rest[q].0 == 0 by {
                    assert(rest[q] == reps[q + 1]);
                }
            }
        }
    }
}

proof fn lemma_rounds_len(s: SaturationView, rounds: Seq<Seq<(usize, usize)>>)
    ensures
        rounds_run(s, rounds) <= rounds.len(),
    decreases rounds.len(),
{
    if rounds.len() > 0 {
        let (go, s1) = begin_step(s);
        let (through, s2) = record_all(s1, rounds[0]);
        let (more, s3) = end_step(s2);
        lemma_rounds_len(s3, rounds.drop_first());
    }
}

/// A run of `iters` begins at most `iters - 1` rounds (none where `iters` is 1 or 0),
/// whatever the rules report.
pub proof fn rounds_stay_below_iters(iters: usize, rounds: Seq<Seq<(usize, usize)>>)
    ensures
        rounds_run(start(iters), rounds) + 1 <= iters || rounds_run(start(iters), rounds) == 0,
        iters <= 1 ==> rounds_run(start(iters), rounds) == 0,
{
    lemma_rounds_bound(start(iters), rounds);
}

proof fn lemma_rounds_bound(s: SaturationView, rounds: Seq<Seq<(usize, usize)>>)
    requires
        s.round >= 1,
    ensures
        rounds_run(s, rounds) <= rounds.len(),
        rounds_run(s, rounds) > 0 ==> !s.stopped && s.round + rounds_run(s, rounds) <= s.iters,
    decreases rounds.len(),
{
    if rounds.len() > 0 {
        let (go, s1) = begin_step(s);
        if go {
            lemma_record_all(s1, rounds[0]);
            let (through, s2) = record_all(s1, rounds[0]);
            if through {
                let (more, s3) = end_step(s2);
                if more {
                    lemma_rounds_bound(s3, rounds.drop_first());
                }
            }
        }
    }
}

/// A round in which some rule leaves the e-graph beyond [`NODE_LIMIT`] is the last one
/// a run begins: where round `k` is begun and one of its reports is beyond the limit,
/// exactly `k + 1` rounds run.
pub proof fn node_limit_ends_the_run(
    s: SaturationView,
    rounds: Seq<Seq<(usize, usize)>>,
    k: int,
)
    requires
        0 <= k < rounds_run(s, rounds),
        !within_limit(rounds[k]),
    ensures
        rounds_run(s, rounds) == k + 1,
    decreases k,
{
    lemma_rounds_len(s, rounds);
    let (go, s1) = begin_step(s);
    lemma_record_all(s1, rounds[0]);
    if k > 0 {
        let (through, s2) = record_all(s1, rounds[0]);
        let (more, s3) = end_step(s2);
        assert(rounds.drop_first()[k - 1] == rounds[k]);
        node_limit_ends_the_run(s3, rounds.drop_first(), k - 1);
    }
}

/// A round in which no rule adds anything is the last one a run begins: where round
/// `k` is begun and every report of it adds no e-class, exactly `k + 1` rounds run.
pub proof fn idle_round_ends_the_run(s: SaturationView, rounds: Seq<Seq<(usize, usize)>>, k: int)
    requires
        0 <= k < rounds_run(s, rounds),
        forall|q: int| 0 <= q < rounds[k].len() ==> #[trigger] rounds[k][q].0 == 0,
    ensures
        rounds_run(s, rounds) == k + 1,
    decreases k,
{
    lemma_rounds_len(s, rounds);
    let (go, s1) = begin_step(s);
    lemma_record_all(s1, rounds[0]);
    if k > 0 {
        let (through, s2) = record_all(s1, rounds[0]);
        let (more, s3) = end_step(s2);
        assert(rounds.drop_first()[k - 1] == rounds[k]);
        idle_round_ends_the_run(s3, rounds.drop_first(), k - 1);
    }
}

/// A run goes on while its rounds add something and stay within [`NODE_LIMIT`]: where
/// every round reports within the limit and adds between 1 and `usize::MAX` e-classes,
/// the run begins every round it is given, up to `iters - 1`.
pub proof fn busy_rounds_all_run(iters: usize, rounds: Seq<Seq<(usize, usize)>>)
    requires
        forall|k: int|
            0 <= k < rounds.len() ==> within_limit(#[trigger] rounds[k]) && 0 < total_added(
                rounds[k],
            ) <= usize::MAX,
    ensures
        rounds_run(start(iters), rounds) == (if iters < 1 {
            0
        } else if rounds.len() <= iters - 1 {
            rounds.len() as int
        } else {
            iters - 1
        }),
{
    lemma_busy(start(iters), rounds);
}

proof fn lemma_busy(s: SaturationView, rounds: Seq<Seq<(usize, usize)>>)
    requires
        !s.stopped,
        s.round >= 1,
        forall|k: int|
            0 <= k < rounds.len() ==> within_limit(#[trigger] rounds[k]) && 0 < total_added(
                rounds[k],
            ) <= usize::MAX,
    ensures
        rounds_run(s, rounds) == (if s.round >= s.iters {
            0
        } else if rounds.len() <= s.iters - s.round {
            rounds.len() as int
        } else {
            s.iters - s.round
        }),
    decreases rounds.len(),
{
    if rounds.len() > 0 && s.round < s.iters {
        let (go, s1) = begin_step(s);
        lemma_record_all(s1, rounds[0]);
        let (through, s2) = record_all(s1, rounds[0]);
        let (more, s3) = end_step(s2);
        let rest = rounds.drop_first();
        assert forall|k: int| 0 <= k < rest.len() implies within_limit(#[trigger] rest[k]) && 0
            < total_added(rest[k]) <= usize::MAX by {
            assert(rest[k] == rounds[k + 1]);
        }
        lemma_busy(s3, rest);
    }
}

} // verus!
