//! The state of a running simulation: its clock, what it shows, and what it annotates.

use vstd::arithmetic::div_mod::*;
use vstd::prelude::*;
use crate::clock::TIME_END;
use crate::graph::holds;
use crate::units::{Micro, UNIT};

verus! {

/// Wideband simulation rate in MHz, high enough to carry signals up to 7.5 GHz.
pub const SIM_SAMPLE_RATE_MHZ: Micro = 15_000_000_000;

/// The active tab in the main content area.
#[derive(Clone, Copy, Debug, PartialEq, Eq, Structural)]
pub enum Tab {
    Overview,
    RfChain,
    Spectrum,
}

/// Longest time one frame may advance the clock by, in microseconds: a tenth of a second.
pub const MAX_FRAME_US: Micro = 100_000_000_000;

/// Time the first frame advances the clock by, in microseconds.
pub const FIRST_FRAME_US: Micro = 16_000_000_000;

/// Time a single step advances the clock by, in microseconds.
pub const STEP_US: Micro = 10_000_000_000;

/// The simulation clock.
#[derive(Clone, Copy, Debug, PartialEq, Eq, Structural)]
pub struct SimClock {
    /// Whether simulated time runs.
    pub is_running: bool,
    /// Simulated time in whole millionths of a microsecond.
    pub time_us: i128,
    /// What simulated time has beyond that, in millionths of such a millionth.
    pub fraction: Micro,
    /// Simulated time per real time.
    pub speed: Micro,
}

impl Default for SimClock {
    fn default() -> (clock: Self)
        ensures
            clock.is_running,
            clock.time_us == 0,
            clock.fraction == 0,
            clock.speed == UNIT,
    {
        SimClock { is_running: true, time_us: 0, fraction: 0, speed: UNIT }
    }
}

impl SimClock {
    /// Simulated time in full.
    pub open spec fn exact_time(&self) -> int {
        self.time_us * UNIT + self.fraction
    }

    /// Time and speed are within the range of exact arithmetic.
    pub open spec fn in_range(&self) -> bool {
        &&& 0 <= self.time_us
        &&& 0 <= self.fraction < UNIT
        &&& self.exact_time() <= TIME_END * UNIT
        &&& 0 <= self.speed <= 1_000_000_000
    }

    /// Simulated time that passes while `elapsed_us` passes, in the unit of the exact time.
    pub open spec fn scaled(&self, elapsed_us: int) -> int {
        elapsed_us * self.speed
    }

    fn scale(&self, elapsed_us: Micro) -> (simulated: i128)
        requires
            self.in_range(),
            0 <= elapsed_us <= MAX_FRAME_US,
        ensures
            simulated == self.scaled(elapsed_us as int),
            0 <= simulated <= 100_000_000_000_000_000_000,
    {
        assert(0 <= elapsed_us * self.speed <= 100_000_000_000int * 1_000_000_000) by (nonlinear_arith)
            requires
                0 <= elapsed_us <= 100_000_000_000,
                0 <= self.speed <= 1_000_000_000,
        ;
        elapsed_us as i128 * self.speed as i128
    }

    /// The real time a frame counts for, given the time since the last one.
    pub open spec fn frame_time(since_last: Option<Micro>) -> int {
        match since_last {
            Some(elapsed) => if elapsed < MAX_FRAME_US {
                elapsed as int
            } else {
                MAX_FRAME_US as int
            },
            None => FIRST_FRAME_US as int,
        }
    }

    /// The clock `passed` later, which stands still at the end of its range.
    pub open spec fn moved_on(self, passed: int) -> SimClock {
        let wanted = self.exact_time() + passed;
        let reached = if wanted <= TIME_END * UNIT {
            wanted
        } else {
            TIME_END * UNIT
        };
        SimClock {
            time_us: (reached / UNIT as int) as i128,
            fraction: (reached % UNIT as int) as Micro,
            ..self
        }
    }

    fn move_on(&mut self, passed: i128)
        requires
            old(self).in_range(),
            0 <= passed <= 100_000_000_000_000_000_000,
        ensures
            *final(self) == old(self).moved_on(passed as int),
            final(self).in_range(),
    {
        let wanted: i128 = self.time_us * 1_000_000 + self.fraction as i128 + passed;
        let reached: i128 = if wanted <= TIME_END * 1_000_000 {
            wanted
        } else {
            TIME_END * 1_000_000
        };
        proof {
            lemma_fundamental_div_mod(reached as int, UNIT as int);
            lemma_mod_bound(reached as int, UNIT as int);
        }
        self.time_us = reached / 1_000_000;
        self.fraction = (reached % 1_000_000) as Micro;
    }

    /// The clock one frame later.
    pub open spec fn ticked(self, since_last: Option<Micro>) -> SimClock {
        if self.is_running {
            self.moved_on(self.scaled(SimClock::frame_time(since_last)))
        } else {
            self
        }
    }

    /// The clock after a step by hand.
    pub open spec fn stepped(self) -> SimClock {
        if self.is_running {
            self
        } else {
            self.moved_on(self.scaled(STEP_US as int))
        }
    }

    /// Advances the clock by one frame, if it runs. `since_last` is the real time since the
    /// frame before, in microseconds; there is none before the first.
    pub fn tick(&mut self, since_last: Option<Micro>)
        requires
            old(self).in_range(),
            since_last is Some ==> since_last->0 >= 0,
        ensures
            *final(self) == old(self).ticked(since_last),
            final(self).in_range(),
    {
        if self.is_running {
            let elapsed_us: Micro = match since_last {
                Some(elapsed) => if elapsed < MAX_FRAME_US {
                    elapsed
                } else {
                    MAX_FRAME_US
                },
                None => FIRST_FRAME_US,
            };
            let passed: i128 = self.scale(elapsed_us);
            self.move_on(passed);
        }
    }

    /// Advances a stopped clock by ten milliseconds; a running one is left alone. True if the
    /// clock moved.
    pub fn step(&mut self) -> (stepped: bool)
        requires
            old(self).in_range(),
        ensures
            stepped == !old(self).is_running,
            *final(self) == old(self).stepped(),
            final(self).in_range(),
    {
        if self.is_running {
            return false;
        }
        let passed: i128 = self.scale(STEP_US);
        self.move_on(passed);
        true
    }

    /// Sets simulated time back to zero.
    pub fn reset(&mut self)
        ensures
            *final(self) == (SimClock { time_us: 0, fraction: 0, ..*old(self) }),
    {
        self.time_us = 0;
        self.fraction = 0;
    }

    /// Starts a stopped clock, or stops a running one.
    pub fn toggle(&mut self)
        ensures
            *final(self) == (SimClock { is_running: !old(self).is_running, ..*old(self) }),
    {
        self.is_running = !self.is_running;
    }
}

/// Simulated time never runs backwards, and a frame never adds more than a tenth of a second at
/// the chosen speed, however long it took.
pub proof fn frames_are_bounded(clock: SimClock, since_last: Option<Micro>)
    requires
        clock.in_range(),
        since_last is Some ==> since_last->0 >= 0,
    ensures
        0 <= clock.scaled(SimClock::frame_time(since_last)) <= clock.scaled(MAX_FRAME_US as int),
        clock.exact_time() <= clock.ticked(since_last).exact_time() <= clock.exact_time()
            + clock.scaled(MAX_FRAME_US as int),
{
    let elapsed_us = SimClock::frame_time(since_last);
    assert(0 <= elapsed_us * clock.speed <= MAX_FRAME_US * clock.speed) by (nonlinear_arith)
        requires
            0 <= elapsed_us <= MAX_FRAME_US,
            0 <= clock.speed,
    ;
    if clock.is_running {
        moving_on_is_exact(clock, clock.scaled(elapsed_us));
    }
}

/// Nothing of the time that passes is lost to rounding: a frame adds the real time times the
/// speed, up to the end of the clock's range.
pub proof fn moving_on_is_exact(clock: SimClock, passed: int)
    requires
        clock.in_range(),
        0 <= passed,
    ensures
        clock.moved_on(passed).exact_time() == if clock.exact_time() + passed <= TIME_END * UNIT {
            clock.exact_time() + passed
        } else {
            TIME_END * UNIT
        },
{
    let wanted = clock.exact_time() + passed;
    let reached = if wanted <= TIME_END * UNIT {
        wanted
    } else {
        TIME_END * UNIT
    };
    lemma_fundamental_div_mod(reached, UNIT as int);
    lemma_mod_bound(reached, UNIT as int);
}

/// A frame counts for the time since the last one as long as that is under a tenth of a second,
/// and for no more than that; longer gaps never count for less. Before the first frame there is
/// nothing to go by, and it counts for less than the longest.
pub proof fn frames_count_the_time_between_them(shorter: Micro, longer: Micro)
    requires
        0 <= shorter <= longer,
    ensures
        SimClock::frame_time(Some(shorter)) <= SimClock::frame_time(Some(longer)) <= longer,
        10 * SimClock::frame_time(Some(longer)) <= 1_000_000 * UNIT,
        10 * SimClock::frame_time(Some(longer)) < 1_000_000 * UNIT ==> SimClock::frame_time(
            Some(longer),
        ) == longer,
        0 < 125 * SimClock::frame_time(None) == 2 * 1_000_000 * UNIT,
{
}

/// A frame moves only a running clock and a step only a stopped one. At the speed of real time a
/// frame adds the time it took, and a hundred steps add a second; at another speed both add that
/// many times as much, until the clock is at the end of its range.
pub proof fn frames_and_steps_keep_the_speed(clock: SimClock, elapsed_us: Micro)
    requires
        clock.in_range(),
        0 <= elapsed_us <= MAX_FRAME_US,
        clock.exact_time() + 100_000_000_000_000_000_000 <= TIME_END * UNIT,
    ensures
        !clock.is_running ==> clock.ticked(Some(elapsed_us)) == clock,
        clock.is_running ==> clock.stepped() == clock,
        clock.is_running ==> clock.ticked(Some(elapsed_us)).exact_time() - clock.exact_time()
            == clock.speed * elapsed_us,
        !clock.is_running ==> 100 * (clock.stepped().exact_time() - clock.exact_time())
            == clock.speed * (1_000_000 * UNIT),
        clock.is_running && clock.speed == UNIT ==> clock.ticked(Some(elapsed_us)).time_us
            == clock.time_us + elapsed_us,
        clock.ticked(Some(elapsed_us)).speed == clock.speed && clock.stepped().speed
            == clock.speed,
        clock.ticked(Some(elapsed_us)).is_running == clock.is_running,
        clock.stepped().is_running == clock.is_running,
{
    let (e, s) = (elapsed_us as int, clock.speed as int);
    assert(e * s == s * e && 0 <= e * s <= 100_000_000_000int * 1_000_000_000) by (nonlinear_arith)
        requires
            0 <= e <= 100_000_000_000,
            0 <= s <= 1_000_000_000,
    ;
    moving_on_is_exact(clock, e * s);
    moving_on_is_exact(clock, clock.scaled(STEP_US as int));
    if s == UNIT {
        lemma_fundamental_div_mod_converse(
            clock.exact_time() + e * s,
            UNIT as int,
            clock.time_us + e,
            clock.fraction as int,
        );
    }
}

// ---------------------------------------------------------------------------
// Annotations
// ---------------------------------------------------------------------------

/// Results of the last chain evaluation, so each node can annotate itself with what it is
/// doing to the signal.
pub struct GraphAnnotations<S> {
    pub stats: Vec<(usize, S)>,
    pub cycle_nodes: Vec<usize>,
    pub analysis_freq_mhz: Micro,
}

impl<S> GraphAnnotations<S> {
    /// No annotations.
    pub fn none(analysis_freq_mhz: Micro) -> (annotations: Self)
        ensures
            annotations.stats.len() == 0,
            annotations.cycle_nodes.len() == 0,
            annotations.analysis_freq_mhz == analysis_freq_mhz,
    {
        GraphAnnotations { stats: Vec::new(), cycle_nodes: Vec::new(), analysis_freq_mhz }
    }

    /// What is known of a node: the first entry for it.
    pub fn get(&self, id: usize) -> (found: Option<&S>)
        ensures
            found is None <==> forall|i: int|
                0 <= i < self.stats.len() ==> (#[trigger] self.stats[i]).0 != id,
            found is Some ==> exists|i: int|
                {
                    &&& 0 <= i < self.stats.len()
                    &&& (#[trigger] self.stats[i]).0 == id
                    &&& self.stats[i].1 == *found->0
                    &&& forall|j: int| 0 <= j < i ==> (#[trigger] self.stats[j]).0 != id
                },
    {
        let mut i: usize = 0;
        while i < self.stats.len()
            invariant
                i <= self.stats.len(),
                forall|j: int| 0 <= j < i ==> (#[trigger] self.stats[j]).0 != id,
            decreases self.stats.len() - i,
        {
            if self.stats[i].0 == id {
                assert(self.stats[i as int].0 == id);
                return Some(&self.stats[i].1);
            }
            i += 1;
        }
        None
    }

    /// Whether a node was met on a feedback loop.
    pub fn in_cycle(&self, id: usize) -> (found: bool)
        ensures
            found == self.cycle_nodes@.contains(id),
    {
        holds(&self.cycle_nodes, id)
    }
}

} // verus!
