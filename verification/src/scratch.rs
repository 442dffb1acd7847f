//! Working buffers that are parked between uses rather than freed.

use vstd::prelude::*;

verus! {

/// Buffers a pool keeps parked.
pub const POOL_LIMIT: usize = 8;

/// Room in a buffer, by `Vec::capacity`: how many elements it can hold without moving. It is
/// never less than what the buffer holds; how much more depends on the allocator.
#[verifier::external_body]
fn room<T>(buffer: &Vec<T>) -> (n: usize)
    ensures
        n >= buffer.len(),
{
    buffer.capacity()
}

/// Which of the parked buffers to take for `len` samples, from their capacities: the first with
/// enough room, else the last one, else none.
pub fn pick_buffer(capacities: &Vec<usize>, len: usize) -> (pick: Option<usize>)
    ensures
        pick is None <==> capacities.len() == 0,
        pick is Some ==> {
            let i = pick->0 as int;
            &&& 0 <= i < capacities.len()
            &&& capacities[i] >= len || i == capacities.len() - 1
            &&& forall|j: int| 0 <= j < i ==> #[trigger] capacities[j] < len
            &&& capacities[i] < len ==> forall|j: int|
                0 <= j < capacities.len() ==> #[trigger] capacities[j] < len
        },
{
    let mut i: usize = 0;
    while i < capacities.len()
        invariant
            i <= capacities.len(),
            forall|j: int| 0 <= j < i ==> #[trigger] capacities[j] < len,
        decreases capacities.len() - i,
    {
        if capacities[i] >= len {
            return Some(i);
        }
        i += 1;
    }
    if capacities.len() == 0 {
        None
    } else {
        Some(capacities.len() - 1)
    }
}

/// A bounded pool of buffers.
pub struct ScratchPool<T> {
    parked: Vec<Vec<T>>,
}

impl<T> View for ScratchPool<T> {
    type V = Seq<Vec<T>>;

    closed spec fn view(&self) -> Seq<Vec<T>> {
        self.parked@
    }
}

/// The pool without its buffer `i`, whose place the last one takes.
pub open spec fn without<T>(pool: Seq<Vec<T>>, i: int) -> Seq<Vec<T>> {
    pool.update(i, pool.last()).drop_last()
}

/// `len` elements that repeat the start of `parked` and then `zero`.
pub open spec fn resized<T>(parked: Seq<T>, len: nat, zero: T) -> Seq<T> {
    Seq::new(
        len,
        |k: int|
            if k < parked.len() {
                parked[k]
            } else {
                zero
            },
    )
}

impl<T: Copy> ScratchPool<T> {
    /// The pool holds no more than its limit.
    pub open spec fn wf(&self) -> bool {
        self@.len() <= POOL_LIMIT
    }

    /// An empty pool.
    pub fn new() -> (pool: Self)
        ensures
            pool@ == Seq::<Vec<T>>::empty(),
            pool.wf(),
    {
        let parked: Vec<Vec<T>> = Vec::new();
        assert(parked@ =~= Seq::empty());
        ScratchPool { parked }
    }

    /// Number of parked buffers.
    pub fn len(&self) -> (n: usize)
        ensures
            n == self@.len(),
    {
        self.parked.len()
    }

    /// Takes a buffer out of the pool as it was left, one with room for `len` if there is one;
    /// a new one if the pool is empty.
    fn unpark(&mut self, len: usize) -> (buffer: Vec<T>)
        ensures
            old(self)@.len() == 0 ==> buffer@ == Seq::<T>::empty() && final(self)@ == old(self)@,
            old(self)@.len() > 0 ==> exists|i: int|
                0 <= i < old(self)@.len() && buffer == old(self)@[i] && final(self)@ == #[trigger]
                    without(old(self)@, i),
    {
        let mut capacities: Vec<usize> = Vec::new();
        let mut k: usize = 0;
        while k < self.parked.len()
            invariant
                k <= self.parked.len(),
                capacities.len() == k,
                *self == *old(self),
            decreases self.parked.len() - k,
        {
            capacities.push(room(&self.parked[k]));
            k += 1;
        }
        match pick_buffer(&capacities, len) {
            Some(i) => {
                let buffer: Vec<T> = self.parked.swap_remove(i);
                assert(self@ == without(old(self)@, i as int));
                buffer
            },
            None => {
                let buffer: Vec<T> = Vec::new();
                assert(buffer@ =~= Seq::empty());
                buffer
            },
        }
    }

    /// An empty buffer with room for `len`, for a caller that will extend it.
    pub fn take(&mut self, len: usize) -> (buffer: Vec<T>)
        ensures
            buffer@ == Seq::<T>::empty(),
            old(self).wf() ==> final(self).wf(),
            old(self)@.len() == 0 ==> final(self)@ == old(self)@,
            old(self)@.len() > 0 ==> exists|i: int|
                0 <= i < old(self)@.len() && final(self)@ == #[trigger] without(old(self)@, i),
    {
        let mut buffer: Vec<T> = self.unpark(len);
        buffer.clear();
        buffer.reserve(len);
        assert(buffer@ =~= Seq::empty());
        buffer
    }

    /// A buffer of `len` times `zero`, for a stage that writes its output by index.
    pub fn take_zeroed(&mut self, len: usize, zero: T) -> (buffer: Vec<T>)
        ensures
            buffer@ == Seq::new(len as nat, |k: int| zero),
            old(self).wf() ==> final(self).wf(),
            old(self)@.len() == 0 ==> final(self)@ == old(self)@,
            old(self)@.len() > 0 ==> exists|i: int|
                0 <= i < old(self)@.len() && final(self)@ == #[trigger] without(old(self)@, i),
    {
        let mut buffer: Vec<T> = self.take(len);
        while buffer.len() < len
            invariant
                buffer.len() <= len,
                forall|k: int| 0 <= k < buffer.len() ==> #[trigger] buffer[k] == zero,
            decreases len - buffer.len(),
        {
            buffer.push(zero);
        }
        assert(buffer@ =~= Seq::new(len as nat, |k: int| zero));
        buffer
    }

    /// A buffer of `len` elements of whatever its last user left there, for a caller that writes
    /// every element before reading any: what the parked buffer lacks is filled with `zero`.
    pub fn take_overwritten(&mut self, len: usize, zero: T) -> (buffer: Vec<T>)
        ensures
            old(self).wf() ==> final(self).wf(),
            old(self)@.len() == 0 ==> buffer@ == Seq::new(len as nat, |k: int| zero)
                && final(self)@ == old(self)@,
            old(self)@.len() > 0 ==> exists|i: int|
                0 <= i < old(self)@.len() && buffer@ == resized(old(self)@[i]@, len as nat, zero)
                    && final(self)@ == #[trigger] without(old(self)@, i),
    {
        let mut buffer: Vec<T> = self.unpark(len);
        let ghost left = buffer@;
        buffer.truncate(len);
        while buffer.len() < len
            invariant
                buffer.len() <= len,
                forall|k: int|
                    0 <= k < buffer.len() ==> #[trigger] buffer[k] == if k < left.len() {
                        left[k]
                    } else {
                        zero
                    },
                buffer.len() >= left.len() || buffer.len() == len,
            decreases len - buffer.len(),
        {
            buffer.push(zero);
        }
        assert(buffer@ =~= resized(left, len as nat, zero));
        assert(left.len() == 0 ==> buffer@ =~= Seq::new(len as nat, |k: int| zero));
        buffer
    }

    /// Hands a buffer back, unless the pool is already holding enough of them.
    pub fn recycle(&mut self, buffer: Vec<T>)
        ensures
            old(self).wf() ==> final(self).wf(),
            final(self)@ == if old(self)@.len() < POOL_LIMIT {
                old(self)@.push(buffer)
            } else {
                old(self)@
            },
    {
        if self.parked.len() < POOL_LIMIT {
            self.parked.push(buffer);
        }
    }
}

/// Taking a buffer out of a pool leaves every other buffer in it.
pub proof fn taking_one_leaves_the_others<T>(pool: Seq<Vec<T>>, i: int, j: int)
    requires
        0 <= i < pool.len(),
        0 <= j < pool.len(),
    ensures
        without(pool, i).len() == pool.len() - 1,
        j != i ==> without(pool, i).contains(pool[j]),
        0 <= j < pool.len() - 1 ==> pool.contains(without(pool, i)[j]),
{
    let rest = without(pool, i);
    if j != i {
        if j == pool.len() - 1 {
            assert(rest[i] == pool[j]);
        } else {
            assert(rest[j] == pool[j]);
        }
    }
    if j < pool.len() - 1 {
        if j == i {
            assert(rest[j] == pool[pool.len() - 1]);
        } else {
            assert(rest[j] == pool[j]);
        }
    }
}

/// A buffer brought to a length keeps what it held as far as it goes; what is new is `zero`.
pub proof fn resizing_keeps_what_fits<T>(parked: Seq<T>, len: nat, zero: T, k: int)
    requires
        0 <= k < len,
    ensures
        resized(parked, len, zero).len() == len,
        k < parked.len() ==> resized(parked, len, zero)[k] == parked[k],
        k >= parked.len() ==> resized(parked, len, zero)[k] == zero,
{
}

} // verus!
