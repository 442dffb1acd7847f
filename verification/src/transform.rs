//! Splitting long transforms and per-sample work into independent pieces.

use vstd::arithmetic::div_mod::*;
use vstd::prelude::*;
use crate::smooth::power;

verus! {

// ---------------------------------------------------------------------------
// Chunks
// ---------------------------------------------------------------------------

/// Sample count above which a per-sample stage is spread across the thread pool.
pub const PAR_MIN_LEN: usize = 32_768;

/// Samples one worker takes at a time from a parallel stage.
pub const PAR_CHUNK: usize = 8_192;

/// A stretch of a buffer.
#[derive(Clone, Copy, Debug, PartialEq, Eq, Structural)]
pub struct Chunk {
    pub start: usize,
    pub len: usize,
}

/// Chunk `c` of a buffer of `len` samples.
pub open spec fn chunk_at(len: int, c: int) -> Chunk {
    let start = c * PAR_CHUNK;
    Chunk {
        start: start as usize,
        len: (if len - start < PAR_CHUNK {
            len - start
        } else {
            PAR_CHUNK as int
        }) as usize,
    }
}

/// Splits a buffer into chunks of [`PAR_CHUNK`] samples, the last one shorter. The split goes
/// by index alone, so a stage that seeds anything from where a chunk starts gives the same
/// output whether it ran on one thread or on all of them.
pub fn chunks(len: usize) -> (list: Vec<Chunk>)
    requires
        len <= usize::MAX - PAR_CHUNK,
    ensures
        list.len() == (len + PAR_CHUNK - 1) / PAR_CHUNK as int,
        forall|c: int| 0 <= c < list.len() ==> #[trigger] list[c] == chunk_at(len as int, c),
{
    let mut list: Vec<Chunk> = Vec::new();
    let mut start: usize = 0;
    while start < len
        invariant
            len <= usize::MAX - PAR_CHUNK,
            start == list.len() * PAR_CHUNK,
            start < len + PAR_CHUNK,
            forall|c: int| 0 <= c < list.len() ==> #[trigger] list[c] == chunk_at(len as int, c),
        decreases len + PAR_CHUNK - start,
    {
        let left: usize = len - start;
        list.push(
            Chunk {
                start,
                len: if left < PAR_CHUNK {
                    left
                } else {
                    PAR_CHUNK
                },
            },
        );
        start += PAR_CHUNK;
    }
    list
}

/// Whether a buffer is long enough to be worth spreading over the thread pool.
pub fn runs_parallel(len: usize) -> (parallel: bool)
    ensures
        parallel == (len >= PAR_MIN_LEN),
{
    len >= PAR_MIN_LEN
}

/// Every sample belongs to exactly one chunk: the one whose number is its index divided by the
/// chunk length.
pub proof fn chunks_partition_the_buffer(len: int, i: int, c: int)
    requires
        0 <= i < len <= usize::MAX - PAR_CHUNK,
        0 <= c < (len + PAR_CHUNK - 1) / PAR_CHUNK as int,
    ensures
        (chunk_at(len, c).start <= i < chunk_at(len, c).start + chunk_at(len, c).len) <==> c == i
            / PAR_CHUNK as int,
{
}

// ---------------------------------------------------------------------------
// Four-step transform
// ---------------------------------------------------------------------------

/// Shortest transform worth splitting across the pool.
pub const PARALLEL_FFT_MIN: usize = 65_536;

/// The length is two to the power `e`.
pub open spec fn is_power_of_two(n: int, e: nat) -> bool {
    n == power(2, e)
}

/// Factors `n` into the two roughly equal halves the four-step decomposition needs: powers of
/// two only, and only lengths worth splitting. The second half is equal to the first or twice
/// as long.
pub fn fft_split(n: usize) -> (split: Option<(usize, usize)>)
    ensures
        split is Some <==> n >= PARALLEL_FFT_MIN && exists|e: nat| #[trigger]
            is_power_of_two(n as int, e),
        split is Some ==> {
            let (n1, n2) = split->0;
            &&& n1 * n2 == n
            &&& n2 == n1 || n2 == 2 * n1
            &&& exists|e: nat| #[trigger] is_power_of_two(n1 as int, e)
        },
{
    if n < PARALLEL_FFT_MIN {
        return None;
    }
    // Peel factors of two off, giving them to the two halves in turn.
    let mut rest: usize = n;
    let mut n1: usize = 1;
    let mut n2: usize = 1;
    let ghost mut e1: nat = 0;
    let ghost mut e2: nat = 0;
    proof {
        assert(power(2, 0) == 1);
        assert(n1 * n2 * rest == n) by (nonlinear_arith)
            requires
                n1 == 1,
                n2 == 1,
                rest == n,
        ;
    }
    while rest % 2 == 0
        invariant
            rest > 0,
            n1 > 0,
            n2 > 0,
            n1 * n2 * rest == n,
            n2 == n1 || n2 == 2 * n1,
            n1 == power(2, e1),
            n2 == power(2, e2),
        decreases rest,
    {
        let ghost (a, b, r) = (n1 as int, n2 as int, rest as int);
        let half: usize = rest / 2;
        let ghost h = half as int;
        proof {
            assert(a * b * (2 * h) == (2 * a) * b * h && a * b * (2 * h) == a * (2 * b) * h)
                by (nonlinear_arith);
            assert(2 * b <= n && 2 * a <= n) by (nonlinear_arith)
                requires
                    a * b * (2 * h) == n,
                    a >= 1,
                    b >= 1,
                    h >= 1,
            ;
        }
        rest = half;
        if n2 == n1 {
            proof {
                assert(power(2, e2 + 1) == 2 * b);
                e2 = e2 + 1;
            }
            n2 = n2 * 2;
        } else {
            proof {
                assert(power(2, e1 + 1) == 2 * a);
                e1 = e1 + 1;
            }
            n1 = n1 * 2;
        }
    }
    if rest == 1 {
        proof {
            power_product(e1, e2);
            assert(is_power_of_two(n as int, e1 + e2));
            assert(is_power_of_two(n1 as int, e1));
        }
        Some((n1, n2))
    } else {
        proof {
            power_product(e1, e2);
            let p = power(2, e1 + e2) as int;
            assert(n == p * rest);
            if exists|e: nat| #[trigger] is_power_of_two(n as int, e) {
                let e = choose|e: nat| #[trigger] is_power_of_two(n as int, e);
                odd_factor_is_one(e, e1 + e2, rest as int);
            }
        }
        None
    }
}

proof fn power_product(a: nat, b: nat)
    ensures
        power(2, a + b) == power(2, a) * power(2, b),
    decreases a,
{
    let y = power(2, b);
    if a == 0 {
        assert(power(2, 0) == 1);
        assert(1 * y == y);
    } else {
        power_product((a - 1) as nat, b);
        let x = power(2, (a - 1) as nat);
        assert(power(2, a + b) == 2 * power(2, (a - 1) as nat + b));
        assert(2 * (x * y) == (2 * x) * y) by (nonlinear_arith);
    }
}

proof fn odd_factor_is_one(e: nat, f: nat, odd: int)
    requires
        power(2, e) == power(2, f) * odd,
        odd % 2 == 1,
        odd > 0,
    ensures
        odd == 1,
    decreases e,
{
    if f == 0 {
        let one = power(2, 0);
        assert(one * odd == odd) by (nonlinear_arith)
            requires
                one == 1,
        ;
        if e > 0 {
            let x = power(2, (e - 1) as nat);
            assert(power(2, e) == 2 * x);
        }
    } else {
        let y = power(2, (f - 1) as nat);
        assert(power(2, f) == 2 * y);
        assert((2 * y) * odd == 2 * (y * odd)) by (nonlinear_arith);
        if e == 0 {
            assert(power(2, e) == 1);
        } else {
            let x = power(2, (e - 1) as nat);
            assert(power(2, e) == 2 * x);
            odd_factor_is_one((e - 1) as nat, (f - 1) as nat, odd);
        }
    }
}

/// `dst` is the transpose of the `rows` by `cols` matrix `src`, both stored row after row.
pub open spec fn is_transpose<T>(src: Seq<T>, dst: Seq<T>, rows: int, cols: int) -> bool {
    &&& dst.len() == src.len()
    &&& forall|i: int, j: int|
        0 <= i < rows && 0 <= j < cols ==> dst[#[trigger] place(j, i, rows)] == src[#[trigger] place(
            i,
            j,
            cols,
        )]
}

/// Where row `i`, column `j` of a matrix with `cols` columns is stored.
pub open spec fn place(i: int, j: int, cols: int) -> int {
    i * cols + j
}

proof fn places_fit(i: int, j: int, rows: int, cols: int)
    requires
        0 <= i < rows,
        0 <= j < cols,
    ensures
        0 <= place(i, j, cols) < rows * cols,
{
    assert(0 <= i * cols + j < rows * cols) by (nonlinear_arith)
        requires
            0 <= i < rows,
            0 <= j < cols,
    ;
}

proof fn places_differ(i: int, j: int, k: int, l: int, cols: int)
    requires
        0 <= j < cols,
        0 <= l < cols,
        place(i, j, cols) == place(k, l, cols),
    ensures
        i == k,
        j == l,
{
    if i < k {
        assert(i * cols + j < k * cols + l) by (nonlinear_arith)
            requires
                i + 1 <= k,
                j < cols,
                0 <= l,
                0 < cols,
        ;
    } else if k < i {
        assert(k * cols + l < i * cols + j) by (nonlinear_arith)
            requires
                k + 1 <= i,
                l < cols,
                0 <= j,
                0 < cols,
        ;
    }
}

/// Square block that keeps both the read and the write side of a transpose in cache.
pub const BLOCK: usize = 32;

/// The elements with column below `j1`, and those of the stripe from `j1` on with row below
/// `i1`, and those of the block there with column below `j2`, and of column `j2` with row below
/// `i2`, have been written.
spec fn written(i: int, j: int, j1: int, j1_end: int, i1: int, i1_end: int, j2: int, i2: int) -> bool {
    ||| j < j1
    ||| j < j1_end && i < i1
    ||| j < j1_end && i < i1_end && j < j2
    ||| j < j1_end && j == j2 && i < i2
}

spec fn done_where<T>(
    src: Seq<T>,
    dst: Seq<T>,
    rows: int,
    cols: int,
    j1: int,
    j1_end: int,
    i1: int,
    i1_end: int,
    j2: int,
    i2: int,
) -> bool {
    forall|i: int, j: int|
        0 <= i < rows && 0 <= j < cols && written(i, j, j1, j1_end, i1, i1_end, j2, i2)
            ==> dst[#[trigger] place(j, i, rows)] == src[#[trigger] place(i, j, cols)]
}

/// Writes `dst[j * rows + i] = src[i * cols + j]` for every element, block by block.
pub fn transpose<T: Copy>(src: &Vec<T>, dst: &mut Vec<T>, rows: usize, cols: usize)
    requires
        src.len() == rows * cols,
        old(dst).len() == rows * cols,
        rows <= usize::MAX - BLOCK,
        cols <= usize::MAX - BLOCK,
    ensures
        is_transpose(src@, final(dst)@, rows as int, cols as int),
{
    let mut j1: usize = 0;
    while j1 < cols
        invariant
            src.len() == rows * cols,
            dst.len() == rows * cols,
            rows <= usize::MAX - BLOCK,
            cols <= usize::MAX - BLOCK,
            j1 < cols + BLOCK,
            done_where(
                src@,
                dst@,
                rows as int,
                cols as int,
                j1 as int,
                j1 as int,
                0,
                0,
                j1 as int,
                0,
            ),
        decreases cols + BLOCK - j1,
    {
        let j1_end: usize = if j1 + BLOCK < cols {
            j1 + BLOCK
        } else {
            cols
        };
        let mut i1: usize = 0;
        while i1 < rows
            invariant
                src.len() == rows * cols,
                dst.len() == rows * cols,
                rows <= usize::MAX - BLOCK,
                cols <= usize::MAX - BLOCK,
                j1 < j1_end <= cols,
                i1 < rows + BLOCK,
                done_where(
                    src@,
                    dst@,
                    rows as int,
                    cols as int,
                    j1 as int,
                    j1_end as int,
                    i1 as int,
                    i1 as int,
                    j1 as int,
                    0,
                ),
            decreases rows + BLOCK - i1,
        {
            let i1_end: usize = if i1 + BLOCK < rows {
                i1 + BLOCK
            } else {
                rows
            };
            let mut j2: usize = j1;
            while j2 < j1_end
                invariant
                    src.len() == rows * cols,
                    dst.len() == rows * cols,
                    j1 <= j2 <= j1_end <= cols,
                    i1 < i1_end <= rows,
                    done_where(
                        src@,
                        dst@,
                        rows as int,
                        cols as int,
                        j1 as int,
                        j1_end as int,
                        i1 as int,
                        i1_end as int,
                        j2 as int,
                        i1 as int,
                    ),
                decreases j1_end - j2,
            {
                let mut i2: usize = i1;
                while i2 < i1_end
                    invariant
                        src.len() == rows * cols,
                        dst.len() == rows * cols,
                        j1 <= j2 < j1_end <= cols,
                        i1 <= i2 <= i1_end <= rows,
                        done_where(
                            src@,
                            dst@,
                            rows as int,
                            cols as int,
                            j1 as int,
                            j1_end as int,
                            i1 as int,
                            i1_end as int,
                            j2 as int,
                            i2 as int,
                        ),
                    decreases i1_end - i2,
                {
                    proof {
                        places_fit(i2 as int, j2 as int, rows as int, cols as int);
                        places_fit(j2 as int, i2 as int, cols as int, rows as int);
                        assert(cols * rows == rows * cols) by (nonlinear_arith);
                        assert(0 <= i2 * cols && 0 <= j2 * rows) by (nonlinear_arith)
                            requires
                                0 <= i2,
                                0 <= j2,
                                0 <= rows,
                                0 <= cols,
                        ;
                    }
                    let from: usize = i2 * cols + j2;
                    let to: usize = j2 * rows + i2;
                    let ghost before = dst@;
                    dst[to] = src[from];
                    proof {
                        assert forall|i: int, j: int|
                            0 <= i < rows && 0 <= j < cols && written(
                                i,
                                j,
                                j1 as int,
                                j1_end as int,
                                i1 as int,
                                i1_end as int,
                                j2 as int,
                                i2 + 1,
                            ) implies dst@[#[trigger] place(j, i, rows as int)]
                            == src@[#[trigger] place(i, j, cols as int)] by {
                            places_fit(j, i, cols as int, rows as int);
                            if place(j, i, rows as int) == to {
                                places_differ(j, i, j2 as int, i2 as int, rows as int);
                            } else {
                                assert(!(i == i2 && j == j2));
                                assert(before[place(j, i, rows as int)] == src@[place(
                                    i,
                                    j,
                                    cols as int,
                                )]);
                            }
                        }
                    }
                    i2 += 1;
                }
                j2 += 1;
            }
            i1 += BLOCK;
        }
        j1 += BLOCK;
    }
}

/// Transposing twice gives back the matrix.
pub proof fn transposing_twice_is_identity<T>(
    src: Seq<T>,
    middle: Seq<T>,
    back: Seq<T>,
    rows: int,
    cols: int,
)
    requires
        0 < rows,
        0 < cols,
        src.len() == rows * cols,
        is_transpose(src, middle, rows, cols),
        is_transpose(middle, back, cols, rows),
    ensures
        back == src,
{
    assert forall|p: int| 0 <= p < src.len() implies back[p] == src[p] by {
        let i = p / cols;
        let j = p % cols;
        lemma_fundamental_div_mod(p, cols);
        lemma_mod_bound(p, cols);
        assert(0 <= i < rows) by (nonlinear_arith)
            requires
                p == cols * i + j,
                0 <= j < cols,
                0 <= p < rows * cols,
        ;
        assert(cols * i == i * cols) by (nonlinear_arith);
        assert(place(i, j, cols) == p);
        assert(middle[place(j, i, rows)] == src[place(i, j, cols)]);
        assert(back[place(i, j, cols)] == middle[place(j, i, rows)]);
    }
    assert(back =~= src);
}

// ---------------------------------------------------------------------------
// Real transforms at half length
// ---------------------------------------------------------------------------

/// The even samples paired with the odd ones.
pub open spec fn pairs_of<T>(samples: Seq<T>) -> Seq<(T, T)> {
    Seq::new(samples.len() / 2, |i: int| (samples[2 * i], samples[2 * i + 1]))
}

/// The samples of the pairs one after the other.
pub open spec fn interleaved<T>(pairs: Seq<(T, T)>) -> Seq<T> {
    Seq::new(
        2 * pairs.len(),
        |j: int|
            if j % 2 == 0 {
                pairs[j / 2].0
            } else {
                pairs[j / 2].1
            },
    )
}

/// Packs a real record of even length into half as many pairs.
pub fn pack_pairs<T: Copy>(samples: &Vec<T>) -> (pairs: Vec<(T, T)>)
    requires
        samples.len() % 2 == 0,
    ensures
        pairs@ == pairs_of(samples@),
{
    let half: usize = samples.len() / 2;
    let mut pairs: Vec<(T, T)> = Vec::new();
    let mut i: usize = 0;
    while i < half
        invariant
            half == samples.len() / 2,
            i <= half,
            pairs@ =~= pairs_of(samples@).take(i as int),
        decreases half - i,
    {
        pairs.push((samples[2 * i], samples[2 * i + 1]));
        i += 1;
    }
    assert(pairs@ =~= pairs_of(samples@));
    pairs
}

/// Lays pairs out as a real record again.
pub fn unpack_pairs<T: Copy>(pairs: &Vec<(T, T)>) -> (samples: Vec<T>)
    requires
        2 * pairs.len() <= usize::MAX,
    ensures
        samples@ == interleaved(pairs@),
{
    let mut samples: Vec<T> = Vec::new();
    let mut i: usize = 0;
    while i < pairs.len()
        invariant
            i <= pairs.len(),
            samples@ =~= interleaved(pairs@).take(2 * i),
        decreases pairs.len() - i,
    {
        let (even, odd) = pairs[i];
        samples.push(even);
        samples.push(odd);
        i += 1;
    }
    assert(samples@ =~= interleaved(pairs@));
    samples
}

/// Packing and unpacking undo each other.
pub proof fn packing_round_trips<T>(samples: Seq<T>)
    requires
        samples.len() % 2 == 0,
    ensures
        interleaved(pairs_of(samples)) == samples,
{
    assert(interleaved(pairs_of(samples)) =~= samples);
}

/// Unpacks the transform of `half` packed pairs into the `half + 1` bins of the real record.
/// Both real bins come out of the first packed bin alone, by `edges`; bin `k` between them comes
/// from packed bin `k` and its mirror, by `combine`.
pub fn unpack_bins<Z: Copy, B, E: Fn(Z) -> (B, B), F: Fn(usize, Z, Z) -> B>(
    packed: &Vec<Z>,
    edges: E,
    combine: F,
) -> (bins: Vec<B>)
    requires
        packed.len() > 0,
        packed.len() < usize::MAX,
        forall|z: Z| #[trigger] call_requires(edges, (z,)),
        forall|k: usize, a: Z, b: Z| #[trigger] call_requires(combine, (k, a, b)),
    ensures
        bins.len() == packed.len() + 1,
        call_ensures(edges, (packed[0],), (bins[0], bins[packed.len() as int])),
        forall|k: int|
            0 < k < packed.len() ==> call_ensures(
                combine,
                (k as usize, packed[k], packed[packed.len() - k]),
                #[trigger] bins[k],
            ),
{
    let half: usize = packed.len();
    let (first, last) = edges(packed[0]);
    let mut bins: Vec<B> = Vec::new();
    bins.push(first);
    let mut k: usize = 1;
    while k < half
        invariant
            half == packed.len(),
            1 <= k <= half,
            bins.len() == k,
            bins[0] == first,
            forall|k: usize, a: Z, b: Z| #[trigger] call_requires(combine, (k, a, b)),
            forall|j: int|
                0 < j < k ==> call_ensures(
                    combine,
                    (j as usize, packed[j], packed[half - j]),
                    #[trigger] bins[j],
                ),
        decreases half - k,
    {
        let bin: B = combine(k, packed[k], packed[half - k]);
        bins.push(bin);
        k += 1;
    }
    bins.push(last);
    bins
}

/// Packs the `half + 1` bins of a real record for a half-length inverse transform: packed bin
/// `k` comes from bin `k` and its mirror, that of zero being the Nyquist bin.
pub fn pack_bins<B: Copy, Z, F: Fn(usize, B, B) -> Z>(bins: &Vec<B>, combine: F) -> (packed: Vec<Z>)
    requires
        bins.len() > 0,
        forall|k: usize, a: B, b: B| #[trigger] call_requires(combine, (k, a, b)),
    ensures
        packed.len() == bins.len() - 1,
        forall|k: int|
            0 <= k < packed.len() ==> call_ensures(
                combine,
                (k as usize, bins[k], bins[packed.len() - k]),
                #[trigger] packed[k],
            ),
{
    let half: usize = bins.len() - 1;
    let mut packed: Vec<Z> = Vec::new();
    let mut k: usize = 0;
    while k < half
        invariant
            half == bins.len() - 1,
            k <= half,
            packed.len() == k,
            forall|k: usize, a: B, b: B| #[trigger] call_requires(combine, (k, a, b)),
            forall|j: int|
                0 <= j < k ==> call_ensures(
                    combine,
                    (j as usize, bins[j], bins[half - j]),
                    #[trigger] packed[j],
                ),
        decreases half - k,
    {
        let z: Z = combine(k, bins[k], bins[half - k]);
        packed.push(z);
        k += 1;
    }
    packed
}

/// The first of each pair is a sample at an even place and the second the one after it, in order.
pub proof fn pairs_hold_neighbours<T>(samples: Seq<T>, i: int)
    requires
        0 <= i < samples.len() / 2,
    ensures
        pairs_of(samples).len() == samples.len() / 2,
        pairs_of(samples)[i].0 == samples[2 * i],
        pairs_of(samples)[i].1 == samples[2 * i + 1],
        interleaved(pairs_of(samples))[2 * i] == samples[2 * i],
{
}

/// Chunks follow one another without a gap, are all of the full length but for the last, and none
/// is empty.
pub proof fn chunks_follow_one_another(len: int, c: int)
    requires
        0 < len <= usize::MAX - PAR_CHUNK,
        0 <= c < (len + PAR_CHUNK - 1) / PAR_CHUNK as int,
    ensures
        chunk_at(len, 0).start == 0,
        0 < chunk_at(len, c).len <= PAR_CHUNK,
        c + 1 < (len + PAR_CHUNK - 1) / PAR_CHUNK as int ==> chunk_at(len, c).len == PAR_CHUNK
            && chunk_at(len, c + 1).start == chunk_at(len, c).start + PAR_CHUNK,
        c + 1 == (len + PAR_CHUNK - 1) / PAR_CHUNK as int ==> chunk_at(len, c).start + chunk_at(
            len,
            c,
        ).len == len,
{
}

/// A matrix keeps its corners in place where rows and columns meet: the element in row `i` and
/// column `j` stands in row `j` and column `i` of the transpose.
pub proof fn transposing_turns_rows_into_columns<T>(
    src: Seq<T>,
    dst: Seq<T>,
    rows: int,
    cols: int,
    i: int,
    j: int,
)
    requires
        is_transpose(src, dst, rows, cols),
        0 <= i < rows,
        0 <= j < cols,
    ensures
        dst[j * rows + i] == src[i * cols + j],
{
    assert(place(j, i, rows) == j * rows + i && place(i, j, cols) == i * cols + j);
}

} // verus!
