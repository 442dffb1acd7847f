//! Reading a spectrum trace: levels and their order, and peak picking.

use vstd::prelude::*;
use vstd::seq_lib::*;

verus! {

// ---------------------------------------------------------------------------
// Levels
// ---------------------------------------------------------------------------

/// A level of a trace, held as the bit pattern of an IEEE 754 double-precision number.
#[derive(Clone, Copy, Debug, PartialEq, Eq, Structural)]
pub struct Level {
    pub bits: u64,
}

/// The bit pattern of negative infinity.
pub const NEG_INFINITY_BITS: u64 = 0xFFF0_0000_0000_0000;

impl Level {
    /// The bits without the sign.
    pub open spec fn magnitude(self) -> int {
        if self.bits >= 0x8000_0000_0000_0000 {
            self.bits - 0x8000_0000_0000_0000
        } else {
            self.bits as int
        }
    }

    /// Not a number: compares false with everything.
    pub open spec fn is_nan(self) -> bool {
        self.magnitude() > 0x7FF0_0000_0000_0000
    }

    /// A whole number that orders levels as the numbers they stand for; both zeros are 0.
    pub open spec fn key(self) -> int {
        if self.bits >= 0x8000_0000_0000_0000 {
            -self.magnitude()
        } else {
            self.magnitude()
        }
    }

    /// The number is greater than the other one.
    pub open spec fn above(self, other: Level) -> bool {
        !self.is_nan() && !other.is_nan() && self.key() > other.key()
    }

    /// The order key, if the level is a number.
    pub fn order_key(self) -> (key: Option<i64>)
        ensures
            key is Some <==> !self.is_nan(),
            key is Some ==> key->0 == self.key(),
    {
        let negative: bool = self.bits >= 0x8000_0000_0000_0000;
        let magnitude: u64 = if negative {
            self.bits - 0x8000_0000_0000_0000
        } else {
            self.bits
        };
        if magnitude > 0x7FF0_0000_0000_0000 {
            None
        } else if negative {
            Some(-(magnitude as i64))
        } else {
            Some(magnitude as i64)
        }
    }

    /// Whether the number is greater than the other one.
    pub fn is_above(self, other: Level) -> (above: bool)
        ensures
            above == self.above(other),
    {
        match (self.order_key(), other.order_key()) {
            (Some(a), Some(b)) => a > b,
            _ => false,
        }
    }
}

// ---------------------------------------------------------------------------
// Peaks
// ---------------------------------------------------------------------------

/// Bin `i` is above the threshold and above both its neighbours.
pub open spec fn is_peak(levels: Seq<Level>, threshold: Level, i: int) -> bool {
    &&& 0 < i < levels.len() - 1
    &&& levels[i].above(threshold)
    &&& levels[i].above(levels[i - 1])
    &&& levels[i].above(levels[i + 1])
}

/// The peaks among the first `n` bins, from left to right.
pub open spec fn peaks_before(levels: Seq<Level>, threshold: Level, n: int) -> Seq<usize>
    decreases n,
{
    if n <= 0 {
        Seq::empty()
    } else if is_peak(levels, threshold, n - 1) {
        peaks_before(levels, threshold, n - 1).push((n - 1) as usize)
    } else {
        peaks_before(levels, threshold, n - 1)
    }
}

/// Where a bin with order key `key` belongs behind the bins not below it, counted from the end.
pub open spec fn rank_place(levels: Seq<Level>, ranked: Seq<usize>, key: int) -> int
    decreases ranked.len(),
{
    if ranked.len() == 0 {
        0
    } else if levels[ranked.last() as int].key() >= key {
        ranked.len() as int
    } else {
        rank_place(levels, ranked.drop_last(), key)
    }
}

/// The bins with the strongest first; bins of one level keep their order.
pub open spec fn by_strength(levels: Seq<Level>, bins: Seq<usize>) -> Seq<usize>
    decreases bins.len(),
{
    if bins.len() == 0 {
        Seq::empty()
    } else {
        let before = by_strength(levels, bins.drop_last());
        before.insert(
            rank_place(levels, before, levels[bins.last() as int].key()),
            bins.last(),
        )
    }
}

proof fn rank_place_bounds(levels: Seq<Level>, ranked: Seq<usize>, key: int)
    ensures
        0 <= rank_place(levels, ranked, key) <= ranked.len(),
        rank_place(levels, ranked, key) > 0 ==> levels[ranked[rank_place(levels, ranked, key)
            - 1] as int].key() >= key,
        forall|i: int|
            rank_place(levels, ranked, key) <= i < ranked.len() ==> levels[(
            #[trigger] ranked[i]) as int].key() < key,
    decreases ranked.len(),
{
    if ranked.len() > 0 && levels[ranked.last() as int].key() < key {
        rank_place_bounds(levels, ranked.drop_last(), key);
        let p = rank_place(levels, ranked, key);
        assert forall|i: int| p <= i < ranked.len() implies levels[(
        #[trigger] ranked[i]) as int].key() < key by {
            if i < ranked.len() - 1 {
                assert(ranked.drop_last()[i] == ranked[i]);
            }
        }
    }
}

/// The bins fall in level.
pub open spec fn falling(levels: Seq<Level>, ranked: Seq<usize>) -> bool {
    forall|i: int, j: int|
        0 <= i <= j < ranked.len() ==> levels[(#[trigger] ranked[i]) as int].key() >= levels[(
        #[trigger] ranked[j]) as int].key()
}

/// Ranking by strength keeps the same bins and puts the strongest first.
pub proof fn by_strength_sorts(levels: Seq<Level>, bins: Seq<usize>)
    ensures
        falling(levels, by_strength(levels, bins)),
        by_strength(levels, bins).to_multiset() == bins.to_multiset(),
        by_strength(levels, bins).len() == bins.len(),
    decreases bins.len(),
{
    broadcast use group_to_multiset_ensures;

    if bins.len() == 0 {
        assert(by_strength(levels, bins) =~= bins);
    } else {
        let before = by_strength(levels, bins.drop_last());
        let bin = bins.last();
        let key = levels[bin as int].key();
        by_strength_sorts(levels, bins.drop_last());
        rank_place_bounds(levels, before, key);
        let at = rank_place(levels, before, key);
        let after = before.insert(at, bin);
        assert forall|i: int, j: int| 0 <= i <= j < after.len() implies levels[(
        #[trigger] after[i]) as int].key() >= levels[(#[trigger] after[j]) as int].key() by {
            if i < at {
                assert(after[i] == before[i]);
                assert(levels[before[i] as int].key() >= levels[before[at - 1] as int].key());
            }
            if j > at {
                assert(after[j] == before[j - 1]);
                assert(levels[before[j - 1] as int].key() < key);
            }
            if i > at {
                assert(after[i] == before[i - 1]);
            }
            if j < at {
                assert(after[j] == before[j]);
            }
        }
        assert(bins =~= bins.drop_last().push(bin));
        assert(after.remove(at) =~= before);
        assert(after[at] == bin);
        assert(after.to_multiset().count(bin) > 0);
        assert(after.to_multiset() =~= before.to_multiset().insert(bin));
    }
}

fn insert_ranked(levels: &Vec<Level>, ranked: &mut Vec<usize>, bin: usize)
    requires
        bin < levels.len(),
        !levels[bin as int].is_nan(),
        forall|i: int|
            0 <= i < old(ranked).len() ==> (#[trigger] old(ranked)[i]) < levels.len()
                && !levels[old(ranked)[i] as int].is_nan(),
    ensures
        final(ranked)@ == old(ranked)@.insert(
            rank_place(levels@, old(ranked)@, levels[bin as int].key()),
            bin,
        ),
        forall|i: int|
            0 <= i < final(ranked).len() ==> (#[trigger] final(ranked)[i]) < levels.len()
                && !levels[final(ranked)[i] as int].is_nan(),
{
    let ghost all = ranked@;
    let key: i64 = levels[bin].order_key().unwrap();
    let mut at: usize = ranked.len();
    let mut searching: bool = at > 0;
    assert(all.take(at as int) =~= all);
    while searching
        invariant
            ranked@ == all,
            at <= ranked.len(),
            key == levels[bin as int].key(),
            forall|i: int|
                0 <= i < all.len() ==> (#[trigger] all[i]) < levels.len()
                    && !levels[all[i] as int].is_nan(),
            searching ==> at > 0,
            rank_place(levels@, all.take(at as int), key as int) == rank_place(
                levels@,
                all,
                key as int,
            ),
            !searching ==> at == rank_place(levels@, all, key as int),
        decreases at + (if searching { 1int } else { 0int }),
    {
        assert(all[at - 1] < levels.len() && !levels[all[at - 1] as int].is_nan());
        let other: i64 = levels[ranked[at - 1]].order_key().unwrap();
        if other >= key {
            searching = false;
        } else {
            assert(all.take(at as int).drop_last() =~= all.take(at - 1));
            at -= 1;
            searching = at > 0;
        }
    }
    proof {
        rank_place_bounds(levels@, all, key as int);
    }
    ranked.insert(at, bin);
    assert forall|i: int| 0 <= i < ranked.len() implies (#[trigger] ranked[i]) < levels.len()
        && !levels[ranked[i] as int].is_nan() by {
        if i < at {
            assert(ranked@[i] == all[i]);
        } else if i > at {
            assert(ranked@[i] == all[i - 1]);
        }
    }
}

/// The local maxima of a trace above a threshold, strongest first.
pub fn spectral_maxima(levels: &Vec<Level>, threshold: Level) -> (ranked: Vec<usize>)
    ensures
        ranked@ == by_strength(
            levels@,
            peaks_before(levels@, threshold, levels.len() as int),
        ),
        forall|i: int| 0 <= i < ranked.len() ==> (#[trigger] ranked[i]) < levels.len(),
{
    let mut ranked: Vec<usize> = Vec::new();
    let mut i: usize = 0;
    assert(ranked@ =~= by_strength(levels@, peaks_before(levels@, threshold, 0)));
    while i < levels.len()
        invariant
            i <= levels.len(),
            ranked@ == by_strength(levels@, peaks_before(levels@, threshold, i as int)),
            forall|j: int|
                0 <= j < ranked.len() ==> (#[trigger] ranked[j]) < levels.len()
                    && !levels[ranked[j] as int].is_nan(),
        decreases levels.len() - i,
    {
        let level: Level = levels[i];
        if i > 0 && i + 1 < levels.len() && level.is_above(threshold) && level.is_above(
            levels[i - 1],
        ) && level.is_above(levels[i + 1]) {
            proof {
                let before = peaks_before(levels@, threshold, i as int);
                let after = peaks_before(levels@, threshold, i + 1);
                assert(after.drop_last() =~= before);
                assert(after.last() == i);
            }
            insert_ranked(levels, &mut ranked, i);
        }
        i += 1;
    }
    ranked
}

/// The candidates that passed, among the first `n`.
pub open spec fn survivors(ranked: Seq<usize>, passed: Seq<bool>, n: int) -> Seq<usize>
    decreases n,
{
    if n <= 0 {
        Seq::empty()
    } else if passed[n - 1] {
        survivors(ranked, passed, n - 1).push(ranked[n - 1])
    } else {
        survivors(ranked, passed, n - 1)
    }
}

/// `clears` may say `pass` of a bin when these bins have been kept.
pub open spec fn is_verdict<F: Fn(&Vec<usize>, usize) -> bool>(
    clears: F,
    kept: Seq<usize>,
    bin: usize,
    pass: bool,
) -> bool {
    exists|list: Vec<usize>| list@ == kept && #[trigger] call_ensures(clears, (&list, bin), pass)
}

/// Each candidate was judged against those kept before it.
pub open spec fn judged<F: Fn(&Vec<usize>, usize) -> bool>(
    clears: F,
    ranked: Seq<usize>,
    passed: Seq<bool>,
) -> bool {
    &&& passed.len() == ranked.len()
    &&& forall|i: int|
        0 <= i < ranked.len() ==> is_verdict(
            clears,
            survivors(ranked, passed, i),
            ranked[i],
            #[trigger] passed[i],
        )
}

proof fn survivors_depend_on_prefix(ranked: Seq<usize>, a: Seq<bool>, b: Seq<bool>, n: int)
    requires
        0 <= n <= a.len(),
        n <= b.len(),
        forall|i: int| 0 <= i < n ==> a[i] == b[i],
    ensures
        survivors(ranked, a, n) == survivors(ranked, b, n),
    decreases n,
{
    if n > 0 {
        survivors_depend_on_prefix(ranked, a, b, n - 1);
    }
}

/// Walks the candidates from the strongest down and keeps those that `clears` the ones already
/// kept.
pub fn keep_distinct<F: Fn(&Vec<usize>, usize) -> bool>(ranked: &Vec<usize>, clears: F) -> (kept: Vec<
    usize,
>)
    requires
        forall|kept: &Vec<usize>, bin: usize| #[trigger] call_requires(clears, (kept, bin)),
    ensures
        exists|passed: Seq<bool>| #[trigger]
            judged(clears, ranked@, passed) && kept@ == survivors(
                ranked@,
                passed,
                ranked.len() as int,
            ),
{
    let mut kept: Vec<usize> = Vec::new();
    let ghost mut passed: Seq<bool> = Seq::empty();
    let ghost mut states: Seq<Vec<usize>> = Seq::empty();
    let mut i: usize = 0;
    while i < ranked.len()
        invariant
            forall|kept: &Vec<usize>, bin: usize| #[trigger] call_requires(clears, (kept, bin)),
            i <= ranked.len(),
            passed.len() == i,
            states.len() == i,
            kept@ == survivors(ranked@, passed, i as int),
            forall|j: int|
                0 <= j < i ==> (#[trigger] states[j])@ == survivors(ranked@, passed, j)
                    && call_ensures(clears, (&states[j], ranked@[j]), passed[j]),
        decreases ranked.len() - i,
    {
        let ghost before = kept;
        let ghost old_passed = passed;
        let clear: bool = clears(&kept, ranked[i]);
        proof {
            passed = passed.push(clear);
            let old_states = states;
            states = states.push(before);
            survivors_depend_on_prefix(ranked@, old_passed, passed, i as int);
            assert forall|j: int| 0 <= j < i + 1 implies (#[trigger] states[j])@ == survivors(
                ranked@,
                passed,
                j,
            ) && call_ensures(clears, (&states[j], ranked@[j]), passed[j]) by {
                if j < i {
                    assert(states[j] == old_states[j]);
                    survivors_depend_on_prefix(ranked@, old_passed, passed, j);
                }
            }
        }
        if clear {
            kept.push(ranked[i]);
        }
        i += 1;
    }
    proof {
        assert forall|j: int| 0 <= j < ranked@.len() implies is_verdict(
            clears,
            survivors(ranked@, passed, j),
            ranked@[j],
            #[trigger] passed[j],
        ) by {
            assert(states[j]@ == survivors(ranked@, passed, j));
            assert(call_ensures(clears, (&states[j], ranked@[j]), passed[j]));
        }
        assert(judged(clears, ranked@, passed));
    }
    kept
}

/// Finds local spectral peaks above a threshold, strongest first, as bin numbers.
///
/// A zero-padded trace resolves a window's sidelobes into genuine local maxima. With `suppress`
/// on, `clears` decides of each candidate whether it stands clear of the leakage of the
/// stronger peaks already kept. A trace of fewer than three points, or whose axis has another
/// length, has no peaks.
pub fn find_spectral_peaks<F: Fn(&Vec<usize>, usize) -> bool>(
    levels: &Vec<Level>,
    axis_len: usize,
    threshold: Level,
    suppress: bool,
    clears: F,
) -> (peaks: Vec<usize>)
    requires
        forall|kept: &Vec<usize>, bin: usize| #[trigger] call_requires(clears, (kept, bin)),
    ensures
        levels.len() < 3 || levels.len() != axis_len ==> peaks@ == Seq::<usize>::empty(),
        levels.len() >= 3 && levels.len() == axis_len ==> {
            let ranked = by_strength(
                levels@,
                peaks_before(levels@, threshold, levels.len() as int),
            );
            &&& !suppress ==> peaks@ == ranked
            &&& suppress ==> exists|passed: Seq<bool>| #[trigger]
                judged(clears, ranked, passed) && peaks@ == survivors(
                    ranked,
                    passed,
                    ranked.len() as int,
                )
        },
{
    if levels.len() < 3 || levels.len() != axis_len {
        return Vec::new();
    }
    let ranked: Vec<usize> = spectral_maxima(levels, threshold);
    if suppress {
        keep_distinct(&ranked, clears)
    } else {
        ranked
    }
}

proof fn peaks_are_listed(levels: Seq<Level>, threshold: Level, n: int, i: int)
    requires
        0 <= n <= levels.len() <= usize::MAX,
    ensures
        peaks_before(levels, threshold, n).contains(i as usize) && 0 <= i <= usize::MAX <==> 0 <= i
            < n && is_peak(levels, threshold, i),
    decreases n,
{
    if n > 0 {
        peaks_are_listed(levels, threshold, n - 1, i);
        let before = peaks_before(levels, threshold, n - 1);
        let after = peaks_before(levels, threshold, n);
        if is_peak(levels, threshold, n - 1) {
            if 0 <= i <= usize::MAX && before.contains(i as usize) {
                let j = choose|j: int| 0 <= j < before.len() && before[j] == i as usize;
                assert(after[j] == i as usize);
            }
            assert(after[before.len() as int] == (n - 1) as usize);
            if 0 <= i <= usize::MAX && after.contains(i as usize) && i != n - 1 {
                let j = choose|j: int| 0 <= j < after.len() && after[j] == i as usize;
                assert(before[j] == i as usize);
            }
        }
    }
}

/// Without suppression every local maximum above the threshold is reported, and nothing else.
pub proof fn every_maximum_is_ranked(levels: Seq<Level>, threshold: Level, i: usize)
    requires
        levels.len() <= usize::MAX,
    ensures
        by_strength(levels, peaks_before(levels, threshold, levels.len() as int)).contains(i)
            <==> is_peak(levels, threshold, i as int),
{
    broadcast use group_to_multiset_ensures;

    let bins = peaks_before(levels, threshold, levels.len() as int);
    let ranked = by_strength(levels, bins);
    peaks_are_listed(levels, threshold, levels.len() as int, i as int);
    by_strength_sorts(levels, bins);
    assert(ranked.contains(i) <==> ranked.to_multiset().count(i) > 0);
    assert(bins.contains(i) <==> bins.to_multiset().count(i) > 0);
}

/// Suppression only ever removes peaks: what is kept was among the candidates, and still comes
/// strongest first.
pub proof fn survivors_keep_the_ranking(
    levels: Seq<Level>,
    ranked: Seq<usize>,
    passed: Seq<bool>,
    n: int,
)
    requires
        falling(levels, ranked),
        passed.len() == ranked.len(),
        0 <= n <= ranked.len(),
    ensures
        falling(levels, survivors(ranked, passed, n)),
        survivors(ranked, passed, n).len() <= n,
        forall|i: int|
            0 <= i < survivors(ranked, passed, n).len() ==> ranked.take(n).contains(
                #[trigger] survivors(ranked, passed, n)[i],
            ),
    decreases n,
{
    if n > 0 {
        survivors_keep_the_ranking(levels, ranked, passed, n - 1);
        let before = survivors(ranked, passed, n - 1);
        let kept = survivors(ranked, passed, n);
        assert forall|i: int| 0 <= i < kept.len() implies ranked.take(n).contains(
            #[trigger] kept[i],
        ) by {
            if i < before.len() {
                assert(kept[i] == before[i]);
                let j = choose|j: int|
                    0 <= j < n - 1 && #[trigger] ranked.take(n - 1)[j] == before[i];
                assert(ranked.take(n)[j] == kept[i]);
            } else {
                assert(ranked.take(n)[n - 1] == kept[i]);
            }
        }
        assert forall|i: int, j: int| 0 <= i <= j < kept.len() implies levels[(
        #[trigger] kept[i]) as int].key() >= levels[(#[trigger] kept[j]) as int].key() by {
            if j < before.len() {
                assert(kept[i] == before[i] && kept[j] == before[j]);
            } else if i < before.len() {
                assert(kept[i] == before[i]);
                let k = choose|k: int|
                    0 <= k < n - 1 && #[trigger] ranked.take(n - 1)[k] == before[i];
                assert(ranked[k] == kept[i] && ranked[n - 1] == kept[j]);
            }
        }
    }
}

/// The strongest peak is always kept by a test that every candidate passes against nothing.
pub proof fn strongest_peak_survives(ranked: Seq<usize>, passed: Seq<bool>, n: int)
    requires
        0 < n <= ranked.len(),
        passed.len() == ranked.len(),
        passed[0],
    ensures
        survivors(ranked, passed, n).len() > 0,
        survivors(ranked, passed, n)[0] == ranked[0],
    decreases n,
{
    reveal_with_fuel(survivors, 2);
    if n > 1 {
        strongest_peak_survives(ranked, passed, n - 1);
    }
}

/// Levels compare as the numbers they are. Of two positive ones the larger bit pattern is above, of
/// two negative ones the smaller; a positive one is above a negative one unless both are zero; and
/// nothing is above or below what is no number.
pub proof fn levels_compare_as_numbers(a: Level, b: Level)
    ensures
        ({
            let sign = 0x8000_0000_0000_0000u64;
            let numbers = !a.is_nan() && !b.is_nan();
            &&& !numbers ==> !a.above(b) && !b.above(a)
            &&& numbers && a.bits < sign && b.bits < sign ==> (a.above(b) <==> a.bits > b.bits)
            &&& numbers && a.bits >= sign && b.bits >= sign ==> (a.above(b) <==> a.bits < b.bits)
            &&& numbers && a.bits < sign && b.bits >= sign ==> (a.above(b) <==> a.bits != 0 || b.bits
                != sign)
            &&& numbers && a.bits >= sign && b.bits < sign ==> !a.above(b)
            &&& a.is_nan() <==> a.bits > 0x7FF0_0000_0000_0000 && a.bits < sign || a.bits
                > 0xFFF0_0000_0000_0000
        }),
{
}

/// A maximum stands above both its neighbours, so no neighbour of it is one; the ends of a trace,
/// which have one neighbour only, are none. Raising the threshold only loses maxima, and loses
/// exactly those that are not above it.
pub proof fn maxima_stand_alone(levels: Seq<Level>, threshold: Level, higher: Level, i: int)
    ensures
        is_peak(levels, threshold, i) ==> !is_peak(levels, threshold, i + 1) && !is_peak(
            levels,
            threshold,
            i - 1,
        ),
        is_peak(levels, threshold, i) ==> 0 < i < levels.len() - 1 && levels[i].above(threshold),
        !is_peak(levels, threshold, 0) && !is_peak(levels, threshold, levels.len() - 1),
        is_peak(levels, threshold, i) && levels[i].above(higher) <==> is_peak(levels, higher, i)
            && levels[i].above(threshold),
        0 < i < levels.len() - 1 && levels[i].above(levels[i - 1]) && levels[i].above(
            levels[i + 1],
        ) && levels[i].above(threshold) ==> is_peak(levels, threshold, i),
{
}

/// One more bin goes behind all that are at least as strong and before all that are weaker, so
/// bins of one strength keep their order.
pub proof fn one_more_bin_goes_behind_its_equals(
    levels: Seq<Level>,
    bins: Seq<usize>,
    bin: usize,
) -> (at: int)
    ensures
        0 <= at <= bins.len(),
        by_strength(levels, bins.push(bin)) == by_strength(levels, bins).insert(at, bin),
        forall|i: int|
            0 <= i < at ==> levels[(#[trigger] by_strength(levels, bins)[i]) as int].key()
                >= levels[bin as int].key(),
        forall|i: int|
            at <= i < bins.len() ==> levels[(#[trigger] by_strength(levels, bins)[i]) as int].key()
                < levels[bin as int].key(),
{
    let before = by_strength(levels, bins);
    let key = levels[bin as int].key();
    let at = rank_place(levels, before, key);
    assert(bins.push(bin).drop_last() =~= bins);
    by_strength_sorts(levels, bins);
    place_parts_the_ranking(levels, before, key);
    at
}

proof fn place_parts_the_ranking(levels: Seq<Level>, ranked: Seq<usize>, key: int)
    requires
        falling(levels, ranked),
    ensures
        0 <= rank_place(levels, ranked, key) <= ranked.len(),
        forall|i: int|
            0 <= i < rank_place(levels, ranked, key) ==> levels[(#[trigger] ranked[i]) as int].key()
                >= key,
        forall|i: int|
            rank_place(levels, ranked, key) <= i < ranked.len() ==> levels[(
            #[trigger] ranked[i]) as int].key() < key,
    decreases ranked.len(),
{
    if ranked.len() > 0 {
        let last = ranked.len() - 1;
        if levels[ranked.last() as int].key() >= key {
            assert forall|i: int| 0 <= i < ranked.len() implies levels[(
            #[trigger] ranked[i]) as int].key() >= key by {
                assert(levels[ranked[i] as int].key() >= levels[ranked[last] as int].key());
            }
        } else {
            let rest = ranked.drop_last();
            assert(falling(levels, rest)) by {
                assert forall|i: int, j: int| 0 <= i <= j < rest.len() implies levels[(
                #[trigger] rest[i]) as int].key() >= levels[(#[trigger] rest[j]) as int].key() by {
                    assert(rest[i] == ranked[i] && rest[j] == ranked[j]);
                }
            }
            place_parts_the_ranking(levels, rest, key);
            assert forall|i: int|
                0 <= i < rank_place(levels, ranked, key) implies levels[(
            #[trigger] ranked[i]) as int].key() >= key by {
                assert(rest[i] == ranked[i]);
            }
            assert forall|i: int|
                rank_place(levels, ranked, key) <= i < ranked.len() implies levels[(
            #[trigger] ranked[i]) as int].key() < key by {
                if i < last {
                    assert(rest[i] == ranked[i]);
                }
            }
        }
    }
}

/// Whatever passed is kept, and nothing else: one more bin is kept behind the others if it passed.
pub proof fn what_passes_is_kept(ranked: Seq<usize>, passed: Seq<bool>, n: int, k: int)
    requires
        passed.len() == ranked.len(),
        0 <= k < n <= ranked.len(),
    ensures
        passed[k] ==> survivors(ranked, passed, n).contains(ranked[k]),
        (forall|j: int| 0 <= j < n ==> passed[j]) ==> survivors(ranked, passed, n) == ranked.take(n),
        (forall|j: int| 0 <= j < n ==> !passed[j]) ==> survivors(ranked, passed, n).len() == 0,
    decreases n,
{
    let before = survivors(ranked, passed, n - 1);
    let after = survivors(ranked, passed, n);
    if n > 1 {
        what_passes_is_kept(
            ranked,
            passed,
            n - 1,
            if k < n - 1 {
                k
            } else {
                0
            },
        );
    }
    if passed[k] {
        if k < n - 1 {
            let i = choose|i: int| 0 <= i < before.len() && before[i] == ranked[k];
            assert(after[i] == ranked[k]);
        } else {
            assert(after[before.len() as int] == ranked[k]);
        }
    }
    if forall|j: int| 0 <= j < n ==> passed[j] {
        assert(passed[n - 1]);
        if n == 1 {
            assert(before =~= ranked.take(0));
        }
        assert(ranked.take(n) =~= ranked.take(n - 1).push(ranked[n - 1]));
    }
    if forall|j: int| 0 <= j < n ==> !passed[j] {
        assert(!passed[n - 1]);
    }
}

/// Negative infinity is a number below every other.
pub proof fn negative_infinity_is_below_every_number(level: Level)
    ensures
        ({
            let bottom = Level { bits: NEG_INFINITY_BITS };
            &&& !bottom.is_nan()
            &&& !bottom.above(level)
            &&& !level.is_nan() && level != bottom ==> level.above(bottom)
        }),
{
}

} // verus!
