//! Deterministic pseudo-random streams: every noise realisation, hop and data symbol of the
//! simulator is a function of an index or a seed, so a capture can be repeated exactly.

use vstd::arithmetic::div_mod::*;
use vstd::arithmetic::mul::*;
use vstd::prelude::*;

verus! {

/// The odd integer nearest to 2^64 divided by the golden ratio.
pub const GOLDEN: u64 = 0x9E37_79B9_7F4A_7C15;

/// First multiplier of the counter hash.
pub const MIX_A: u64 = 0xBF58_476D_1CE4_E5B9;

/// Second multiplier of the counter hash.
pub const MIX_B: u64 = 0x94D0_49BB_1331_11EB;

/// Output multiplier of xorshift64*.
pub const STAR: u64 = 0x2545_F491_4F6C_DD1D;

/// Multiplier of the symbol hash.
pub const MURMUR: u64 = 0xFF51_AFD7_ED55_8CCD;

/// Multiplying by `k` and then by its inverse modulo 2^64 gives back the factor.
proof fn inverse_multiplies_back(x: u64, k: u64, inv: u64)
    requires
        (k * inv) % 0x1_0000_0000_0000_0000 == 1,
    ensures
        x.wrapping_mul(k).wrapping_mul(inv) == x,
{
    let m = 0x1_0000_0000_0000_0000int;
    let y = x.wrapping_mul(k);
    assert(y == (x * k) % m);
    lemma_mul_mod_noop_left(x * k, inv as int, m);
    assert((y * inv) % m == ((x * k) * inv) % m);
    lemma_mul_is_associative(x as int, k as int, inv as int);
    lemma_mul_mod_noop_right(x as int, k * inv, m);
    assert((x * (k * inv)) % m == (x * 1) % m);
    lemma_small_mod(x as nat, m as nat);
}

// ---------------------------------------------------------------------------
// Counter hash
// ---------------------------------------------------------------------------

/// The SplitMix64 finaliser of the counter `x`.
pub open spec fn splitmix(x: u64) -> u64 {
    let z0 = x.wrapping_add(GOLDEN);
    let z1 = (z0 ^ (z0 >> 30)).wrapping_mul(MIX_A);
    let z2 = (z1 ^ (z1 >> 27)).wrapping_mul(MIX_B);
    z2 ^ (z2 >> 31)
}

/// Mix a counter into a well-distributed seed, so that consecutive counters start their noise
/// streams somewhere unrelated.
pub fn splitmix64(x: u64) -> (mixed: u64)
    ensures
        mixed == splitmix(x),
{
    let z0: u64 = x.wrapping_add(GOLDEN);
    let z1: u64 = (z0 ^ (z0 >> 30)).wrapping_mul(MIX_A);
    let z2: u64 = (z1 ^ (z1 >> 27)).wrapping_mul(MIX_B);
    z2 ^ (z2 >> 31)
}

proof fn fold30_is_injective(a: u64, b: u64)
    requires
        a ^ (a >> 30) == b ^ (b >> 30),
    ensures
        a == b,
{
    assert(a ^ (a >> 30) == b ^ (b >> 30) ==> a == b) by (bit_vector);
}

proof fn fold27_is_injective(a: u64, b: u64)
    requires
        a ^ (a >> 27) == b ^ (b >> 27),
    ensures
        a == b,
{
    assert(a ^ (a >> 27) == b ^ (b >> 27) ==> a == b) by (bit_vector);
}

proof fn fold31_is_injective(a: u64, b: u64)
    requires
        a ^ (a >> 31) == b ^ (b >> 31),
    ensures
        a == b,
{
    assert(a ^ (a >> 31) == b ^ (b >> 31) ==> a == b) by (bit_vector);
}

/// Different counters always get different seeds.
pub proof fn splitmix_is_injective(a: u64, b: u64)
    requires
        splitmix(a) == splitmix(b),
    ensures
        a == b,
{
    let a0 = a.wrapping_add(GOLDEN);
    let b0 = b.wrapping_add(GOLDEN);
    let a1 = (a0 ^ (a0 >> 30)).wrapping_mul(MIX_A);
    let b1 = (b0 ^ (b0 >> 30)).wrapping_mul(MIX_A);
    let a2 = (a1 ^ (a1 >> 27)).wrapping_mul(MIX_B);
    let b2 = (b1 ^ (b1 >> 27)).wrapping_mul(MIX_B);
    fold31_is_injective(a2, b2);
    inverse_multiplies_back(a1 ^ (a1 >> 27), MIX_B, 0x3196_42B2_D24D_8EC3);
    inverse_multiplies_back(b1 ^ (b1 >> 27), MIX_B, 0x3196_42B2_D24D_8EC3);
    fold27_is_injective(a1, b1);
    inverse_multiplies_back(a0 ^ (a0 >> 30), MIX_A, 0x96DE_1B17_3F11_9089);
    inverse_multiplies_back(b0 ^ (b0 >> 30), MIX_A, 0x96DE_1B17_3F11_9089);
    fold30_is_injective(a0, b0);
}

// ---------------------------------------------------------------------------
// Shift-register stream
// ---------------------------------------------------------------------------

/// One step of the 64-bit xorshift register with shifts 13, 7 and 17.
pub open spec fn xorshift(state: u64) -> u64 {
    let a = state ^ (state << 13);
    let b = a ^ (a >> 7);
    b ^ (b << 17)
}

/// The register after `n` steps.
pub open spec fn xorshift_iter(state: u64, n: nat) -> u64
    decreases n,
{
    if n == 0 {
        state
    } else {
        xorshift(xorshift_iter(state, (n - 1) as nat))
    }
}

/// Advances a xorshift register by one step.
pub fn xorshift64(state: u64) -> (next: u64)
    ensures
        next == xorshift(state),
{
    let a: u64 = state ^ (state << 13);
    let b: u64 = a ^ (a >> 7);
    b ^ (b << 17)
}

/// A register that is not zero never becomes zero, so a stream cannot die out.
pub proof fn xorshift_never_dies(state: u64, n: nat)
    requires
        state != 0,
    ensures
        xorshift_iter(state, n) != 0,
    decreases n,
{
    if n > 0 {
        xorshift_never_dies(state, (n - 1) as nat);
        let s = xorshift_iter(state, (n - 1) as nat);
        assert(s != 0 ==> ({
            let a = s ^ (s << 13);
            let b = a ^ (a >> 7);
            (b ^ (b << 17)) != 0
        })) by (bit_vector);
    }
}

/// Two different registers never meet.
pub proof fn xorshift_is_injective(s: u64, t: u64)
    requires
        xorshift(s) == xorshift(t),
    ensures
        s == t,
{
    let s1 = s ^ (s << 13);
    let t1 = t ^ (t << 13);
    let s2 = s1 ^ (s1 >> 7);
    let t2 = t1 ^ (t1 >> 7);
    assert(s2 ^ (s2 << 17) == t2 ^ (t2 << 17) ==> s2 == t2) by (bit_vector);
    assert(s1 ^ (s1 >> 7) == t1 ^ (t1 >> 7) ==> s1 == t1) by (bit_vector);
    assert(s ^ (s << 13) == t ^ (t << 13) ==> s == t) by (bit_vector);
}

/// The 53 bits of a register that a unit deviate is made from.
pub fn unit_bits(state: u64) -> (bits: u64)
    ensures
        bits == state >> 11,
        bits < 0x20_0000_0000_0000,
{
    assert(state >> 11 < 0x20_0000_0000_0000) by (bit_vector);
    state >> 11
}

/// Generator with a multiplicative output scrambler (xorshift64*), one per node and purpose.
pub struct Rng {
    state: u64,
}

impl Rng {
    /// The register.
    pub closed spec fn register(&self) -> u64 {
        self.state
    }

    /// The register is alive.
    #[verifier::type_invariant]
    spec fn alive(&self) -> bool {
        self.state != 0
    }

    /// Seeds the register with the lowest bit forced on, so that it is never zero.
    pub fn new(seed: u64) -> (rng: Self)
        ensures
            rng.register() == seed | 1,
    {
        assert(seed | 1 != 0) by (bit_vector);
        Rng { state: seed | 1 }
    }

    /// Steps the register and returns it scrambled.
    pub fn next_u64(&mut self) -> (value: u64)
        ensures
            final(self).register() == xorshift(old(self).register()),
            value == final(self).register().wrapping_mul(STAR),
    {
        proof {
            use_type_invariant(&*self);
            reveal_with_fuel(xorshift_iter, 2);
            xorshift_never_dies(self.state, 1);
        }
        let next: u64 = xorshift64(self.state);
        self.state = next;
        next.wrapping_mul(STAR)
    }
}

// ---------------------------------------------------------------------------
// Seeds
// ---------------------------------------------------------------------------

/// Seed of the stream a node uses for one purpose in the frame whose start time has the given
/// bit pattern.
pub fn node_stream_seed(node_seed: u64, salt: u64, time_bits: u64) -> (seed: u64)
    ensures
        seed == node_seed ^ salt.wrapping_mul(GOLDEN) ^ ((time_bits << 17) | (time_bits >> 47)),
        seed == stream_seed(node_seed, salt, time_bits),
{
    node_seed ^ salt.wrapping_mul(GOLDEN) ^ ((time_bits << 17) | (time_bits >> 47))
}

/// Seed of the data carried by a modulated channel, from the bit patterns of its centre
/// frequency and of the frame's start time.
pub fn channel_seed(freq_bits: u64, time_bits: u64) -> (seed: u64)
    ensures
        seed == STAR ^ freq_bits ^ ((time_bits << 31) | (time_bits >> 33)),
        seed == data_seed(freq_bits, time_bits),
{
    STAR ^ freq_bits ^ ((time_bits << 31) | (time_bits >> 33))
}

/// Seed of the generator's noise floor, from the bit pattern of the frame's start time.
pub fn floor_seed(time_bits: u64) -> (seed: u64)
    ensures
        seed == 0xDEAD_BEEF_CAFE_BABEu64 ^ time_bits,
{
    0xDEAD_BEEF_CAFE_BABEu64 ^ time_bits
}

/// Seed of the converter noise for the chunk of samples that starts at index `base`.
pub fn converter_seed(base: usize) -> (seed: u64)
    requires
        base < usize::MAX,
    ensures
        seed == GOLDEN ^ splitmix((base + 1) as u64),
{
    GOLDEN ^ splitmix64(base as u64 + 1)
}

/// Chunks that start at different samples get different noise streams.
pub proof fn converter_seeds_differ(a: usize, b: usize)
    requires
        a != b,
        a < usize::MAX,
        b < usize::MAX,
    ensures
        GOLDEN ^ splitmix((a + 1) as u64) != GOLDEN ^ splitmix((b + 1) as u64),
{
    let x = splitmix((a + 1) as u64);
    let y = splitmix((b + 1) as u64);
    let g = GOLDEN;
    assert(g ^ x == g ^ y ==> x == y) by (bit_vector);
    if x == y {
        splitmix_is_injective((a + 1) as u64, (b + 1) as u64);
    }
}

/// FNV-1a over a byte string, before the lowest bit is forced on.
pub open spec fn fnv1a(bytes: Seq<u8>) -> u64
    decreases bytes.len(),
{
    if bytes.len() == 0 {
        0xCBF2_9CE4_8422_2325
    } else {
        (fnv1a(bytes.drop_last()) ^ bytes.last() as u64).wrapping_mul(0x100_0000_01B3)
    }
}

/// A deterministic odd seed from the name of a node.
pub fn name_seed(name: &Vec<u8>) -> (seed: u64)
    ensures
        seed == fnv1a(name@) | 1,
        seed != 0,
{
    let mut h: u64 = 0xCBF2_9CE4_8422_2325;
    let mut i: usize = 0;
    while i < name.len()
        invariant
            i <= name.len(),
            h == fnv1a(name@.take(i as int)),
        decreases name.len() - i,
    {
        assert(name@.take(i + 1).drop_last() =~= name@.take(i as int));
        h = (h ^ name[i] as u64).wrapping_mul(0x100_0000_01B3);
        i += 1;
    }
    assert(name@.take(i as int) =~= name@);
    assert(h | 1 != 0) by (bit_vector);
    h | 1
}

// ---------------------------------------------------------------------------
// Frequency hopping and data symbols
// ---------------------------------------------------------------------------

/// The hash that scatters hop indices.
pub open spec fn hop_hash(idx: i64) -> u64 {
    let h0 = (idx as u64).wrapping_mul(GOLDEN);
    let h1 = (h0 ^ (h0 >> 29)).wrapping_mul(MIX_A);
    h1 ^ (h1 >> 32)
}

/// Which channel the hop sequence visits at `idx`.
///
/// The index is hashed rather than multiplied by a stride, so no channel count shares a factor
/// with the sequence and stalls it.
pub fn hop_channel(idx: i64, num_channels: usize) -> (channel: usize)
    requires
        num_channels > 0,
    ensures
        channel == hop_hash(idx) % (num_channels as u64),
        channel < num_channels,
{
    let h0: u64 = (idx as u64).wrapping_mul(GOLDEN);
    let h1: u64 = (h0 ^ (h0 >> 29)).wrapping_mul(MIX_A);
    let h2: u64 = h1 ^ (h1 >> 32);
    (h2 % num_channels as u64) as usize
}

/// The hop hash reaches every value, so whatever the number of channels the sequence visits
/// each one of them.
pub proof fn every_channel_is_visited(channel: usize, num_channels: usize)
    requires
        channel < num_channels,
    ensures
        exists|idx: i64| #[trigger] hop_hash(idx) % (num_channels as u64) == channel,
{
    let target = channel as u64;
    // Undo the steps of the hash from the last to the first.
    let h1 = target ^ (target >> 32);
    assert((target ^ (target >> 32)) ^ ((target ^ (target >> 32)) >> 32) == target) by (bit_vector);
    let m = h1.wrapping_mul(0x96DE_1B17_3F11_9089);
    inverse_multiplies_back(h1, 0x96DE_1B17_3F11_9089, MIX_A);
    let h0 = m ^ (m >> 29) ^ (m >> 58);
    assert(({
        let h = m ^ (m >> 29) ^ (m >> 58);
        h ^ (h >> 29)
    }) == m) by (bit_vector);
    let word = h0.wrapping_mul(0xF1DE_83E1_9937_733D);
    inverse_multiplies_back(h0, 0xF1DE_83E1_9937_733D, GOLDEN);
    let idx = word as i64;
    assert((word as i64) as u64 == word) by (bit_vector);
    assert(hop_hash(idx) == target);
    lemma_small_mod(target as nat, num_channels as nat);
}

/// The hash behind the data bits of a QPSK stream.
pub open spec fn symbol_hash(k: i64) -> u64 {
    let h0 = (k as u64).wrapping_add(0x1234_5678).wrapping_mul(STAR);
    let h1 = (h0 ^ (h0 >> 33)).wrapping_mul(MURMUR);
    h1 ^ (h1 >> 33)
}

/// The quadrant (0 to 3, counted from 45 degrees in quarter turns) of QPSK symbol `k`.
pub fn qpsk_quadrant(k: i64) -> (quadrant: u8)
    ensures
        quadrant as u64 == symbol_hash(k) & 3,
        quadrant < 4,
{
    let h0: u64 = (k as u64).wrapping_add(0x1234_5678).wrapping_mul(STAR);
    let h1: u64 = (h0 ^ (h0 >> 33)).wrapping_mul(MURMUR);
    let h2: u64 = h1 ^ (h1 >> 33);
    assert(h2 & 3 < 4) by (bit_vector);
    (h2 & 3) as u8
}

/// Different symbols have different hashes, and every hash is that of some symbol: so every
/// quadrant is sent, each as often as any other.
pub proof fn every_quadrant_is_sent(quadrant: u64, a: i64, b: i64)
    requires
        quadrant < 4,
    ensures
        exists|k: i64| #[trigger] symbol_hash(k) & 3 == quadrant,
        symbol_hash(a) == symbol_hash(b) ==> a == b,
{
    let target = quadrant;
    let h1 = target ^ (target >> 33);
    assert((target ^ (target >> 33)) ^ ((target ^ (target >> 33)) >> 33) == target) by (bit_vector);
    let m = h1.wrapping_mul(0x4F74_430C_22A5_4005);
    inverse_multiplies_back(h1, 0x4F74_430C_22A5_4005, MURMUR);
    let h0 = m ^ (m >> 33);
    assert((m ^ (m >> 33)) ^ ((m ^ (m >> 33)) >> 33) == m) by (bit_vector);
    let sum = h0.wrapping_mul(0x5907_1D96_D81E_CD35);
    inverse_multiplies_back(h0, 0x5907_1D96_D81E_CD35, STAR);
    let word = sum.wrapping_sub(0x1234_5678);
    assert(word.wrapping_add(0x1234_5678) == sum);
    let k = word as i64;
    assert((word as i64) as u64 == word) by (bit_vector);
    assert(symbol_hash(k) == target);
    assert(target < 4 ==> target & 3 == target) by (bit_vector);
    if symbol_hash(a) == symbol_hash(b) {
        let (x, y) = ((a as u64).wrapping_add(0x1234_5678), (b as u64).wrapping_add(0x1234_5678));
        let (p, q) = (x.wrapping_mul(STAR), y.wrapping_mul(STAR));
        let (r, s) = ((p ^ (p >> 33)).wrapping_mul(MURMUR), (q ^ (q >> 33)).wrapping_mul(MURMUR));
        assert(r ^ (r >> 33) == s ^ (s >> 33) ==> r == s) by (bit_vector);
        inverse_multiplies_back(p ^ (p >> 33), MURMUR, 0x4F74_430C_22A5_4005);
        inverse_multiplies_back(q ^ (q >> 33), MURMUR, 0x4F74_430C_22A5_4005);
        assert(p ^ (p >> 33) == q ^ (q >> 33) ==> p == q) by (bit_vector);
        inverse_multiplies_back(x, STAR, 0x5907_1D96_D81E_CD35);
        inverse_multiplies_back(y, STAR, 0x5907_1D96_D81E_CD35);
        assert(x == y);
        assert(a as u64 == b as u64 ==> a == b) by (bit_vector);
    }
}

/// The seed of a node's stream, of a channel's data and of the noise floor.
pub open spec fn stream_seed(node_seed: u64, salt: u64, time_bits: u64) -> u64 {
    node_seed ^ salt.wrapping_mul(GOLDEN) ^ ((time_bits << 17) | (time_bits >> 47))
}

/// Two streams that differ in one thing alone, the node, the purpose or the frame, have different
/// seeds.
pub proof fn streams_differ_with_each_of_their_inputs(
    node_seed: u64,
    salt: u64,
    time_bits: u64,
    other: u64,
)
    ensures
        stream_seed(node_seed, salt, time_bits) == stream_seed(other, salt, time_bits) ==> node_seed
            == other,
        stream_seed(node_seed, salt, time_bits) == stream_seed(node_seed, other, time_bits) ==> salt
            == other,
        stream_seed(node_seed, salt, time_bits) == stream_seed(node_seed, salt, other) ==> time_bits
            == other,
{
    let (x, y) = (salt.wrapping_mul(GOLDEN), other.wrapping_mul(GOLDEN));
    assert((node_seed ^ x ^ ((time_bits << 17) | (time_bits >> 47))) == (other ^ x ^ ((time_bits
        << 17) | (time_bits >> 47))) ==> node_seed == other) by (bit_vector);
    assert((node_seed ^ x ^ ((time_bits << 17) | (time_bits >> 47))) == (node_seed ^ y ^ ((
    time_bits << 17) | (time_bits >> 47))) ==> x == y) by (bit_vector);
    assert((node_seed ^ x ^ ((time_bits << 17) | (time_bits >> 47))) == (node_seed ^ x ^ ((other
        << 17) | (other >> 47))) ==> time_bits == other) by (bit_vector);
    inverse_multiplies_back(salt, GOLDEN, 0xF1DE_83E1_9937_733D);
    inverse_multiplies_back(other, GOLDEN, 0xF1DE_83E1_9937_733D);
}

/// The seed of a channel's data.
pub open spec fn data_seed(freq_bits: u64, time_bits: u64) -> u64 {
    STAR ^ freq_bits ^ ((time_bits << 31) | (time_bits >> 33))
}

/// Channels at different frequencies carry different data, and so does one channel in different
/// frames.
pub proof fn channels_differ_with_each_of_their_inputs(freq_bits: u64, time_bits: u64, other: u64)
    ensures
        data_seed(freq_bits, time_bits) == data_seed(other, time_bits) ==> freq_bits == other,
        data_seed(freq_bits, time_bits) == data_seed(freq_bits, other) ==> time_bits == other,
{
    let star = STAR;
    assert((star ^ freq_bits ^ ((time_bits << 31) | (time_bits >> 33))) == (star ^ other ^ ((
    time_bits << 31) | (time_bits >> 33))) ==> freq_bits == other) by (bit_vector);
    assert((star ^ freq_bits ^ ((time_bits << 31) | (time_bits >> 33))) == (star ^ freq_bits ^ ((
    other << 31) | (other >> 33))) ==> time_bits == other) by (bit_vector);
}

} // verus!
