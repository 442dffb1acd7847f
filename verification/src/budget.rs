//! The RF budget of a chain: how the gain, the noise and the intercept points of its stages add
//! up from the source to the converter. The decibels are the caller's.

use vstd::prelude::*;
use crate::graph::OutPort;

verus! {

/// What the stages so far come to, in linear terms and referred to the chain's input.
#[derive(Clone, Copy, Debug)]
pub struct Cascade<D> {
    /// Gain from the source on.
    pub gain: D,
    /// Noise factor.
    pub noise_factor: D,
    /// Reciprocal of the third-order intercept point.
    pub inverse_intercept: D,
}

/// One node of the chain in the budget.
#[derive(Clone, Copy, Debug)]
pub struct BudgetRow<D, F, L> {
    pub node: usize,
    /// Figures of the stage; none for a node that only passes its signal on.
    pub figures: Option<F>,
    /// Level leaving the node.
    pub level: L,
    /// Gain from the source up to and including the node.
    pub gain: D,
}

/// The level noted first for a node, or `silence`.
pub open spec fn level_of<L>(levels: Seq<(usize, L)>, node: usize, silence: L) -> L
    decreases levels.len(),
{
    if levels.len() == 0 {
        silence
    } else if levels[0].0 == node {
        levels[0].1
    } else {
        level_of(levels.skip(1), node, silence)
    }
}

fn find_level<L: Copy>(levels: &Vec<(usize, L)>, node: usize, silence: L) -> (level: L)
    ensures
        level == level_of(levels@, node, silence),
{
    let mut i: usize = 0;
    assert(levels@.skip(0) =~= levels@);
    while i < levels.len()
        invariant
            i <= levels.len(),
            level_of(levels@, node, silence) == level_of(levels@.skip(i as int), node, silence),
        decreases levels.len() - i,
    {
        assert(levels@.skip(i as int)[0] == levels@[i as int]);
        assert(levels@.skip(i as int).skip(1) =~= levels@.skip(i + 1));
        if levels[i].0 == node {
            return levels[i].1;
        }
        i += 1;
    }
    silence
}

/// The level that drives node `k` of a chain: the one leaving the node before it.
pub open spec fn drive_of<L>(
    chain: Seq<OutPort>,
    levels: Seq<(usize, L)>,
    silence: L,
    k: int,
) -> L {
    if k <= 0 {
        silence
    } else {
        level_of(levels, chain[k - 1].node, silence)
    }
}

/// The arithmetic of a budget. `measure` gives the figures of the stage at a pin, driven at a
/// level, if it has any; `add_noise(factor, figures, gain)` adds the stage's excess noise divided
/// by the gain ahead of it, `add_intercept` the reciprocal of its intercept point multiplied by
/// that gain; `amplify` multiplies a gain by the stage's, and `compresses` says whether the stage
/// is driven too hard.
pub struct BudgetRules<M, N, I, A, C> {
    pub measure: M,
    pub add_noise: N,
    pub add_intercept: I,
    pub amplify: A,
    pub compresses: C,
}

impl<M, N, I, A, C> BudgetRules<M, N, I, A, C> {
    /// The arithmetic can be done on any values.
    pub open spec fn ready<D, F, L>(&self) -> bool where
        M: Fn(OutPort, L) -> Option<F>,
        N: Fn(D, F, D) -> D,
        I: Fn(D, F, D) -> D,
        A: Fn(D, F) -> D,
        C: Fn(F) -> bool,
     {
        &&& forall|pin: OutPort, drive: L| #[trigger] call_requires(self.measure, (pin, drive))
        &&& forall|x: D, figures: F, gain: D| #[trigger]
            call_requires(self.add_noise, (x, figures, gain))
        &&& forall|x: D, figures: F, gain: D| #[trigger]
            call_requires(self.add_intercept, (x, figures, gain))
        &&& forall|gain: D, figures: F| #[trigger] call_requires(self.amplify, (gain, figures))
        &&& forall|figures: F| #[trigger] call_requires(self.compresses, (figures,))
    }

    /// A stage takes the cascade from `before` to `after`. Its noise and its intercept point are
    /// weighed by the gain ahead of it, not by its own; a node without figures changes nothing.
    pub open spec fn adds<D, F>(
        &self,
        before: Cascade<D>,
        figures: Option<F>,
        after: Cascade<D>,
        compressing: bool,
    ) -> bool where
        N: Fn(D, F, D) -> D,
        I: Fn(D, F, D) -> D,
        A: Fn(D, F) -> D,
        C: Fn(F) -> bool,
     {
        match figures {
            None => after == before && !compressing,
            Some(f) => {
                &&& call_ensures(
                    self.add_noise,
                    (before.noise_factor, f, before.gain),
                    after.noise_factor,
                )
                &&& call_ensures(
                    self.add_intercept,
                    (before.inverse_intercept, f, before.gain),
                    after.inverse_intercept,
                )
                &&& call_ensures(self.amplify, (before.gain, f), after.gain)
                &&& call_ensures(self.compresses, (f,), compressing)
            },
        }
    }

    /// `cascades[k]` is what the first `k` nodes of a chain come to, `rows[k]` is node `k` in the
    /// budget, and `hard[k]` says whether it is driven too hard.
    pub open spec fn are_budgeted<D, F, L>(
        &self,
        chain: Seq<OutPort>,
        levels: Seq<(usize, L)>,
        silence: L,
        rows: Seq<BudgetRow<D, F, L>>,
        cascades: Seq<Cascade<D>>,
        hard: Seq<bool>,
    ) -> bool where
        M: Fn(OutPort, L) -> Option<F>,
        N: Fn(D, F, D) -> D,
        I: Fn(D, F, D) -> D,
        A: Fn(D, F) -> D,
        C: Fn(F) -> bool,
     {
        &&& rows.len() <= chain.len()
        &&& cascades.len() == rows.len() + 1
        &&& hard.len() == rows.len()
        &&& forall|k: int|
            0 <= k < rows.len() ==> {
                &&& (#[trigger] rows[k]).node == chain[k].node
                &&& rows[k].level == level_of(levels, chain[k].node, silence)
                &&& rows[k].gain == cascades[k + 1].gain
                &&& call_ensures(
                    self.measure,
                    (chain[k], drive_of(chain, levels, silence, k)),
                    rows[k].figures,
                )
                &&& self.adds(cascades[k], rows[k].figures, cascades[k + 1], hard[k])
            }
    }

    /// The budget of a chain: `total` is what all its nodes come to, and `compressing` says
    /// whether any of them is driven too hard.
    pub open spec fn is_budget<D, F, L>(
        &self,
        chain: Seq<OutPort>,
        levels: Seq<(usize, L)>,
        silence: L,
        start: Cascade<D>,
        rows: Seq<BudgetRow<D, F, L>>,
        total: Cascade<D>,
        compressing: bool,
    ) -> bool where
        M: Fn(OutPort, L) -> Option<F>,
        N: Fn(D, F, D) -> D,
        I: Fn(D, F, D) -> D,
        A: Fn(D, F) -> D,
        C: Fn(F) -> bool,
     {
        &&& rows.len() == chain.len()
        &&& exists|cascades: Seq<Cascade<D>>, hard: Seq<bool>|
            {
                &&& #[trigger] self.are_budgeted(chain, levels, silence, rows, cascades, hard)
                &&& cascades[0] == start
                &&& cascades.last() == total
                &&& compressing == hard.contains(true)
            }
    }

    /// Adds up a chain from the source forward. `levels` holds the level leaving each node, which
    /// drives the next; nodes that are not in it are silent.
    pub fn add_up<D: Copy, F: Copy, L: Copy>(
        &self,
        chain: &Vec<OutPort>,
        levels: &Vec<(usize, L)>,
        silence: L,
        start: Cascade<D>,
    ) -> (budget: (Vec<BudgetRow<D, F, L>>, Cascade<D>, bool)) where
        M: Fn(OutPort, L) -> Option<F>,
        N: Fn(D, F, D) -> D,
        I: Fn(D, F, D) -> D,
        A: Fn(D, F) -> D,
        C: Fn(F) -> bool,

        requires
            self.ready::<D, F, L>(),
        ensures
            self.is_budget(
                chain@,
                levels@,
                silence,
                start,
                budget.0@,
                budget.1,
                budget.2,
            ),
    {
        let mut rows: Vec<BudgetRow<D, F, L>> = Vec::new();
        let mut total: Cascade<D> = start;
        let mut compressing: bool = false;
        let mut drive: L = silence;
        let mut k: usize = 0;
        let ghost mut cascades: Seq<Cascade<D>> = seq![start];
        let ghost mut hard: Seq<bool> = Seq::empty();
        while k < chain.len()
            invariant
                self.ready::<D, F, L>(),
                k <= chain.len(),
                rows.len() == k,
                self.are_budgeted(chain@, levels@, silence, rows@, cascades, hard),
                cascades[0] == start,
                cascades.last() == total,
                drive == drive_of(chain@, levels@, silence, k as int),
                compressing == hard.contains(true),
            decreases chain.len() - k,
        {
            let pin: OutPort = chain[k];
            let figures: Option<F> = (self.measure)(pin, drive);
            let level: L = find_level(levels, pin.node, silence);
            let ghost before = total;
            let over: bool = match figures {
                None => false,
                Some(f) => {
                    let noise_factor: D = (self.add_noise)(total.noise_factor, f, total.gain);
                    let inverse_intercept: D = (self.add_intercept)(
                        total.inverse_intercept,
                        f,
                        total.gain,
                    );
                    let gain: D = (self.amplify)(total.gain, f);
                    total = Cascade { gain, noise_factor, inverse_intercept };
                    (self.compresses)(f)
                },
            };
            rows.push(BudgetRow { node: pin.node, figures, level, gain: total.gain });
            proof {
                let old_hard = hard;
                assert(self.adds(before, figures, total, over));
                cascades = cascades.push(total);
                hard = hard.push(over);
                assert forall|i: int| 0 <= i < rows.len() implies self.adds(
                    cascades[i],
                    (#[trigger] rows[i]).figures,
                    cascades[i + 1],
                    hard[i],
                ) by {}
                if over {
                    assert(hard[k as int]);
                }
                if old_hard.contains(true) {
                    let i = choose|i: int| 0 <= i < old_hard.len() && old_hard[i] == true;
                    assert(hard[i] == true);
                }
                if hard.contains(true) && !over {
                    let i = choose|i: int| 0 <= i < hard.len() && hard[i] == true;
                    assert(old_hard[i] == true);
                }
            }
            compressing = compressing || over;
            drive = level;
            k += 1;
        }
        (rows, total, compressing)
    }
}

/// The first stage of a chain is weighed by the starting gain alone: whatever follows, its noise
/// counts in full.
pub proof fn first_stage_counts_in_full<D, F, L, M, N, I, A, C>(
    rules: BudgetRules<M, N, I, A, C>,
    chain: Seq<OutPort>,
    levels: Seq<(usize, L)>,
    silence: L,
    start: Cascade<D>,
    rows: Seq<BudgetRow<D, F, L>>,
    total: Cascade<D>,
    compressing: bool,
) where
    M: Fn(OutPort, L) -> Option<F>,
    N: Fn(D, F, D) -> D,
    I: Fn(D, F, D) -> D,
    A: Fn(D, F) -> D,
    C: Fn(F) -> bool,

    requires
        rules.is_budget(chain, levels, silence, start, rows, total, compressing),
        chain.len() > 0,
    ensures
        call_ensures(rules.measure, (chain[0], silence), rows[0].figures),
        rows[0].figures matches Some(f) ==> call_ensures(
            rules.amplify,
            (start.gain, f),
            rows[0].gain,
        ) && exists|noise: D| #[trigger]
            call_ensures(rules.add_noise, (start.noise_factor, f, start.gain), noise),
        rows.last().gain == total.gain,
{
    let (cascades, hard) = choose|cascades: Seq<Cascade<D>>, hard: Seq<bool>|
        {
            &&& #[trigger] rules.are_budgeted(chain, levels, silence, rows, cascades, hard)
            &&& cascades[0] == start
            &&& cascades.last() == total
            &&& compressing == hard.contains(true)
        };
    assert(rules.adds(cascades[0], rows[0].figures, cascades[1], hard[0])) by {
        assert(rows[0].node == chain[0].node);
    }
    assert(rows[rows.len() - 1].node == chain[rows.len() - 1].node);
}

/// A chain of nodes without figures leaves the budget as it starts.
pub proof fn passing_on_costs_nothing<D, F, L, M, N, I, A, C>(
    rules: BudgetRules<M, N, I, A, C>,
    chain: Seq<OutPort>,
    levels: Seq<(usize, L)>,
    silence: L,
    start: Cascade<D>,
    rows: Seq<BudgetRow<D, F, L>>,
    total: Cascade<D>,
    compressing: bool,
) where
    M: Fn(OutPort, L) -> Option<F>,
    N: Fn(D, F, D) -> D,
    I: Fn(D, F, D) -> D,
    A: Fn(D, F) -> D,
    C: Fn(F) -> bool,

    requires
        rules.is_budget(chain, levels, silence, start, rows, total, compressing),
        forall|k: int| 0 <= k < rows.len() ==> (#[trigger] rows[k]).figures is None,
    ensures
        total == start,
        !compressing,
{
    let (cascades, hard) = choose|cascades: Seq<Cascade<D>>, hard: Seq<bool>|
        {
            &&& #[trigger] rules.are_budgeted(chain, levels, silence, rows, cascades, hard)
            &&& cascades[0] == start
            &&& cascades.last() == total
            &&& compressing == hard.contains(true)
        };
    unchanged_up_to(rules, chain, levels, silence, rows, cascades, hard, rows.len() as int);
    if hard.contains(true) {
        let i = choose|i: int| 0 <= i < hard.len() && hard[i] == true;
        assert(rows[i].figures is None);
    }
}

proof fn unchanged_up_to<D, F, L, M, N, I, A, C>(
    rules: BudgetRules<M, N, I, A, C>,
    chain: Seq<OutPort>,
    levels: Seq<(usize, L)>,
    silence: L,
    rows: Seq<BudgetRow<D, F, L>>,
    cascades: Seq<Cascade<D>>,
    hard: Seq<bool>,
    n: int,
) where
    M: Fn(OutPort, L) -> Option<F>,
    N: Fn(D, F, D) -> D,
    I: Fn(D, F, D) -> D,
    A: Fn(D, F) -> D,
    C: Fn(F) -> bool,

    requires
        rules.are_budgeted(chain, levels, silence, rows, cascades, hard),
        0 <= n <= rows.len(),
        forall|k: int| 0 <= k < n ==> (#[trigger] rows[k]).figures is None,
    ensures
        cascades[n] == cascades[0],
    decreases n,
{
    if n > 0 {
        unchanged_up_to(rules, chain, levels, silence, rows, cascades, hard, n - 1);
        assert(rows[n - 1].figures is None);
    }
}

/// What each later stage is weighed by. A stage is driven by the level that leaves the node before
/// it, and its noise and its intercept point count by the gain up to that node, not by its own; the
/// gain that leaves it is that gain amplified by it, or that gain itself if it has no figures.
pub proof fn stages_are_weighed_by_the_gain_ahead<D, F, L, M, N, I, A, C>(
    rules: BudgetRules<M, N, I, A, C>,
    chain: Seq<OutPort>,
    levels: Seq<(usize, L)>,
    silence: L,
    start: Cascade<D>,
    rows: Seq<BudgetRow<D, F, L>>,
    total: Cascade<D>,
    compressing: bool,
    k: int,
) where
    M: Fn(OutPort, L) -> Option<F>,
    N: Fn(D, F, D) -> D,
    I: Fn(D, F, D) -> D,
    A: Fn(D, F) -> D,
    C: Fn(F) -> bool,

    requires
        rules.is_budget(chain, levels, silence, start, rows, total, compressing),
        0 < k < chain.len(),
    ensures
        rows[k].node == chain[k].node,
        call_ensures(rules.measure, (chain[k], rows[k - 1].level), rows[k].figures),
        rows[k].figures is None ==> rows[k].gain == rows[k - 1].gain,
        rows[k].figures matches Some(f) ==> {
            &&& call_ensures(rules.amplify, (rows[k - 1].gain, f), rows[k].gain)
            &&& exists|before: D, after: D| #[trigger]
                call_ensures(rules.add_noise, (before, f, rows[k - 1].gain), after)
            &&& exists|before: D, after: D| #[trigger]
                call_ensures(rules.add_intercept, (before, f, rows[k - 1].gain), after)
            &&& call_ensures(rules.compresses, (f,), true) || call_ensures(
                rules.compresses,
                (f,),
                false,
            )
        },
        !compressing ==> (rows[k].figures matches Some(f) ==> call_ensures(
            rules.compresses,
            (f,),
            false,
        )),
{
    let (cascades, hard) = choose|cascades: Seq<Cascade<D>>, hard: Seq<bool>|
        {
            &&& #[trigger] rules.are_budgeted(chain, levels, silence, rows, cascades, hard)
            &&& cascades[0] == start
            &&& cascades.last() == total
            &&& compressing == hard.contains(true)
        };
    assert(rows[k].node == chain[k].node);
    assert(rows[k - 1].node == chain[k - 1].node);
    assert(rules.adds(cascades[k], rows[k].figures, cascades[k + 1], hard[k]));
    assert(rows[k - 1].gain == cascades[(k - 1) + 1].gain);
    if !compressing && hard[k] {
        assert(hard[k] == true);
        assert(hard.contains(true));
    }
}

} // verus!
