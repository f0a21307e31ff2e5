//! A pool of slots that are lent out and taken back, never freed.
//!
//! The pool grows by chunks of `N` nodes. A node is a lock and a value. A
//! node is never removed, so the place of a node stays what it is for as
//! long as the pool lives. The list of the pool runs from the newest chunk
//! to the oldest, through each chunk from its first node to its last:
//! that is the order in which a free node is looked for.
//!
//! A guard names a node and remembers whether it still holds the node's
//! lock. A guard that has let go of its node can try to lock the same node
//! again without looking through the list.
use vstd::prelude::*;
use vstd::arithmetic::div_mod::{lemma_fundamental_div_mod, lemma_fundamental_div_mod_converse};
use core::marker::PhantomData;

verus! {

pub struct Hazard<T, const N: usize> {
    /// The nodes, chunk after chunk, the oldest chunk first.
    nodes: Vec<HazardNode<T>>,
    chunks: usize,
}

struct HazardNode<T> {
    is_locked: bool,
    value: T,
}

/// Runs through the values of every node of a pool.
pub struct HazardIter<'a, T, const N: usize> {
    hazard: &'a Hazard<T, N>,
    next: usize,
}

/// A node of a pool, and whether the guard holds its lock.
pub struct RawHazardGuard<T, const N: usize> {
    node: usize,
    released: bool,
    lt: PhantomData<T>,
}

/// The chunk in which the node at `place` lies, in a pool with chunks of `n`.
pub open spec fn chunk_of(n: int, place: int) -> int {
    place / n
}

/// The node at `a` comes before the node at `b` in the list of the pool: it
/// lies in a newer chunk, or in the same chunk in front of it.
pub open spec fn precedes(n: int, a: int, b: int) -> bool {
    chunk_of(n, a) > chunk_of(n, b) || (chunk_of(n, a) == chunk_of(n, b) && a < b)
}

proof fn lemma_chunk_bounds(n: int, chunk: int, item: int)
    requires
        0 < n,
        0 <= chunk,
        0 <= item < n,
    ensures
        chunk_of(n, chunk * n + item) == chunk,
        chunk * n + n == (chunk + 1) * n,
        0 <= chunk * n,
{
    lemma_fundamental_div_mod_converse(chunk * n + item, n, chunk, item);
    assert(chunk * n + n == (chunk + 1) * n) by (nonlinear_arith);
    assert(0 <= chunk * n) by (nonlinear_arith)
        requires
            0 <= chunk,
            0 < n,
    ;
}

/// A place in a chunk newer than `chunk` lies at or behind the end of
/// `chunk`; a place in `chunk` lies inside it.
proof fn lemma_place_of_chunk(n: int, chunk: int, place: int)
    requires
        0 < n,
        0 <= chunk,
        0 <= place,
    ensures
        chunk_of(n, place) > chunk ==> place >= (chunk + 1) * n,
        chunk_of(n, place) == chunk ==> chunk * n <= place < (chunk + 1) * n,
{
    lemma_fundamental_div_mod(place, n);
    let q = place / n;
    assert(0 <= place % n < n);
    if q > chunk {
        assert(n * q >= n * (chunk + 1)) by (nonlinear_arith)
            requires
                q >= chunk + 1,
                0 < n,
        ;
        assert(n * (chunk + 1) == (chunk + 1) * n) by (nonlinear_arith);
    }
    if q == chunk {
        assert(n * chunk == chunk * n) by (nonlinear_arith);
        assert((chunk + 1) * n == chunk * n + n) by (nonlinear_arith);
    }
}

impl<T> HazardNode<T> {
    spec fn locked(self) -> bool {
        self.is_locked
    }

    spec fn content(self) -> T {
        self.value
    }
}

impl<T, const N: usize> RawHazardGuard<T, N> {
    /// The place of the guard's node in its pool.
    pub closed spec fn place(&self) -> int {
        self.node as int
    }

    /// The guard has let go of the node's lock.
    pub closed spec fn is_released(&self) -> bool {
        self.released
    }

    /// Whether the guard has let go of the node's lock.
    pub fn released(&self) -> (released: bool)
        ensures
            released == self.is_released(),
    {
        self.released
    }

    /// The place of the guard's node in its pool.
    pub fn node(&self) -> (place: usize)
        ensures
            place == self.place(),
    {
        self.node
    }

    /// The value of the guard's node.
    pub fn as_ref<'a>(&self, hazard: &'a Hazard<T, N>) -> (value: &'a T)
        requires
            self.place() < hazard.len(),
        ensures
            *value == hazard.values()[self.place()],
    {
        &hazard.nodes[self.node].value
    }

    /// Tries to lock the node again. It succeeds exactly if the node is not
    /// locked; the guard then holds the lock.
    #[must_use]
    pub fn try_acquire(&mut self, hazard: &mut Hazard<T, N>) -> (is_success: bool)
        requires
            old(self).place() < old(hazard).len(),
        ensures
            final(self).place() == old(self).place(),
            is_success == !old(hazard).locks()[old(self).place()],
            final(hazard).values() == old(hazard).values(),
            final(hazard).chunk_count() == old(hazard).chunk_count(),
            final(hazard).locks() == old(hazard).locks().update(old(self).place(), true),
            final(self).is_released() == (old(self).is_released() && !is_success),
    {
        let is_success = !hazard.nodes[self.node].is_locked;
        if is_success {
            hazard.nodes[self.node].is_locked = true;
            self.released = false;
        }
        proof {
            assert(hazard.values() =~= old(hazard).values());
            assert(hazard.locks() =~= old(hazard).locks().update(old(self).place(), true));
        }
        is_success
    }

    /// Lets go of the node's lock.
    pub fn release(&mut self, hazard: &mut Hazard<T, N>)
        requires
            old(self).place() < old(hazard).len(),
        ensures
            final(self).place() == old(self).place(),
            final(self).is_released(),
            final(hazard).values() == old(hazard).values(),
            final(hazard).chunk_count() == old(hazard).chunk_count(),
            final(hazard).locks() == old(hazard).locks().update(old(self).place(), false),
    {
        hazard.nodes[self.node].is_locked = false;
        self.released = true;
        proof {
            assert(hazard.values() =~= old(hazard).values());
            assert(hazard.locks() =~= old(hazard).locks().update(old(self).place(), false));
        }
    }

    /// Gives the node up without letting go of its lock: the node stays
    /// locked for good and serves nobody any more.
    pub fn abandon(&mut self)
        ensures
            final(self).place() == old(self).place(),
            final(self).is_released(),
    {
        self.released = true;
    }

    /// Lets go of the node's lock if the guard still holds it.
    pub fn release_if_locked(&mut self, hazard: &mut Hazard<T, N>)
        requires
            old(self).place() < old(hazard).len(),
        ensures
            final(self).place() == old(self).place(),
            final(self).is_released(),
            final(hazard).values() == old(hazard).values(),
            final(hazard).chunk_count() == old(hazard).chunk_count(),
            final(hazard).locks() == if old(self).is_released() {
                old(hazard).locks()
            } else {
                old(hazard).locks().update(old(self).place(), false)
            },
    {
        if !self.released {
            self.release(hazard)
        }
    }
}

impl<T, const N: usize> Hazard<T, N> {
    /// The lock of every node.
    pub closed spec fn locks(&self) -> Seq<bool> {
        self.nodes@.map_values(|node: HazardNode<T>| node.locked())
    }

    /// The value of every node.
    pub closed spec fn values(&self) -> Seq<T> {
        self.nodes@.map_values(|node: HazardNode<T>| node.content())
    }

    /// The number of chunks.
    pub closed spec fn chunk_count(&self) -> nat {
        self.chunks as nat
    }

    /// The number of nodes.
    pub open spec fn len(&self) -> nat {
        self.values().len()
    }

    /// Every chunk has its `N` nodes.
    pub open spec fn wf(&self) -> bool {
        &&& N > 0
        &&& self.locks().len() == self.values().len()
        &&& self.values().len() == self.chunk_count() * N
    }

    /// An empty pool.
    pub fn new() -> (hazard: Self)
        requires
            N != 0,
        ensures
            hazard.wf(),
            hazard.chunk_count() == 0,
            hazard.len() == 0,
    {
        let hazard = Self { nodes: Vec::new(), chunks: 0 };
        assert(hazard.values().len() == 0 * N);
        hazard
    }

    /// The number of chunks.
    pub fn chunks(&self) -> (chunks: usize)
        ensures
            chunks == self.chunk_count(),
    {
        self.chunks
    }

    /// The number of nodes.
    pub fn nodes(&self) -> (nodes: usize)
        ensures
            nodes == self.len(),
    {
        self.nodes.len()
    }

    /// The value of the node at `place`.
    pub fn value(&self, place: usize) -> (value: &T)
        requires
            place < self.len(),
        ensures
            *value == self.values()[place as int],
    {
        &self.nodes[place].value
    }

    /// The value of the node at `place`, to change. Values that synchronize
    /// on their own are changed through the pool without holding the lock.
    pub fn value_mut(&mut self, place: usize) -> (value: &mut T)
        requires
            place < old(self).len(),
        ensures
            *value == old(self).values()[place as int],
            final(self).values() == old(self).values().update(place as int, *final(value)),
            final(self).locks() == old(self).locks(),
            final(self).chunk_count() == old(self).chunk_count(),
    {
        &mut self.nodes[place].value
    }

    /// Locks the first node of the list that is not locked and hands it
    /// out. If every node is locked, the pool grows by a chunk whose values
    /// `f` makes, and the first node of the new chunk is handed out.
    pub fn get_or_insert_with<F: FnMut() -> T>(&mut self, f: F) -> (guard: RawHazardGuard<T, N>)
        requires
            old(self).wf(),
            forall|unit: ()| f.requires(unit),
        ensures
            final(self).wf(),
            !guard.is_released(),
            0 <= guard.place() < final(self).len(),
            final(self).locks()[guard.place()],
            (exists|place: int| 0 <= place < old(self).len() && !old(self).locks()[place]) ==> {
                &&& guard.place() < old(self).len()
                &&& !old(self).locks()[guard.place()]
                &&& forall|other: int|
                    0 <= other < old(self).len() && precedes(N as int, other, guard.place())
                        ==> old(self).locks()[other]
                &&& final(self).locks() == old(self).locks().update(guard.place(), true)
                &&& final(self).values() == old(self).values()
                &&& final(self).chunk_count() == old(self).chunk_count()
            },
            (forall|place: int| 0 <= place < old(self).len() ==> old(self).locks()[place]) ==> {
                &&& guard.place() == old(self).len()
                &&& final(self).chunk_count() == old(self).chunk_count() + 1
                &&& final(self).locks() == old(self).locks() + Seq::new(
                    N as nat,
                    |item: int| item == 0,
                )
                &&& final(self).values().take(old(self).len() as int) == old(self).values()
                &&& forall|place: int|
                    old(self).len() <= place < final(self).len() ==> f.ensures(
                        (),
                        #[trigger] final(self).values()[place],
                    )
            },
    {
        let mut chunk = self.chunks;
        let mut base = self.nodes.len();
        proof {
            assert(chunk as int * N as int == base);
        }
        while chunk > 0
            invariant
                self.wf(),
                *self == *old(self),
                chunk <= self.chunks,
                base == chunk * N,
                base <= self.nodes.len(),
                forall|place: int| base <= place < self.len() ==> self.locks()[place],
            decreases chunk,
        {
            proof {
                lemma_chunk_bounds(N as int, chunk - 1, 0);
            }
            chunk = chunk - 1;
            base = base - N;
            let mut item: usize = 0;
            while item < N
                invariant
                    self.wf(),
                    *self == *old(self),
                    chunk < self.chunks,
                    base == chunk * N,
                    base + N <= self.nodes.len(),
                    item <= N,
                    forall|place: int| base + N <= place < self.len() ==> self.locks()[place],
                    forall|place: int| base <= place < base + item ==> self.locks()[place],
                decreases N - item,
            {
                let place = base + item;
                if !self.nodes[place].is_locked {
                    proof {
                        assert(!old(self).locks()[place as int]);
                        lemma_chunk_bounds(N as int, chunk as int, item as int);
                        assert forall|other: int|
                            0 <= other < old(self).len() && precedes(
                                N as int,
                                other,
                                place as int,
                            ) implies old(self).locks()[other] by {
                            lemma_place_of_chunk(N as int, chunk as int, other);
                        }
                    }
                    self.nodes[place].is_locked = true;
                    proof {
                        assert(self.values() =~= old(self).values());
                        assert(self.locks() =~= old(self).locks().update(place as int, true));
                    }
                    return RawHazardGuard { node: place, released: false, lt: PhantomData };
                }
                item += 1;
            }
        }
        self.insert_with(f)
    }

    /// Grows the pool by a chunk whose values `f` makes, and locks and
    /// hands out the first node of the chunk.
    fn insert_with<F: FnMut() -> T>(&mut self, f: F) -> (guard: RawHazardGuard<T, N>)
        requires
            old(self).wf(),
            forall|unit: ()| f.requires(unit),
        ensures
            final(self).wf(),
            !guard.is_released(),
            guard.place() == old(self).len(),
            final(self).chunk_count() == old(self).chunk_count() + 1,
            final(self).locks() == old(self).locks() + Seq::new(N as nat, |item: int| item == 0),
            final(self).values().take(old(self).len() as int) == old(self).values(),
            final(self).len() == old(self).len() + N,
            forall|place: int|
                old(self).len() <= place < final(self).len() ==> f.ensures(
                    (),
                    #[trigger] final(self).values()[place],
                ),
    {
        let ghost made = f;
        let mut f = f;
        let first = self.nodes.len();
        let mut item: usize = 0;
        while item < N
            invariant
                f == made,
                forall|unit: ()| f.requires(unit),
                item <= N,
                first == old(self).nodes@.len(),
                self.chunks == old(self).chunks,
                self.nodes@.len() == first + item,
                self.nodes@.take(first as int) == old(self).nodes@,
                forall|place: int|
                    first <= place < first + item ==> (#[trigger] self.nodes@[place]).is_locked == (
                    place == first),
                forall|place: int|
                    first <= place < first + item ==> made.ensures(
                        (),
                        (#[trigger] self.nodes@[place]).value,
                    ),
            decreases N - item,
        {
            let ghost before = self.nodes@;
            let value = f();
            // the first node of a chunk is locked when the chunk is made
            self.nodes.push(HazardNode { is_locked: item == 0, value });
            proof {
                assert(self.nodes@.take(first as int) =~= before.take(first as int));
                assert forall|place: int| first <= place < first + item + 1 implies made.ensures(
                    (),
                    (#[trigger] self.nodes@[place]).value,
                ) by {
                    if place < first + item {
                        assert(self.nodes@[place] == before[place]);
                    }
                }
            }
            item += 1;
        }
        let total = self.nodes.len();
        proof {
            assert(old(self).values().len() == old(self).nodes@.len());
            assert(self.chunks * N + N == total);
            let count = self.chunks as int;
            assert(count < usize::MAX) by (nonlinear_arith)
                requires
                    count * N + N <= usize::MAX,
                    N > 0,
            ;
        }
        let ghost chunks = self.chunks as int;
        self.chunks = self.chunks + 1;
        proof {
            assert((chunks + 1) * N == chunks * N + N) by (nonlinear_arith);
            assert(self.locks() =~= old(self).locks() + Seq::new(N as nat, |item: int| item == 0)) by {
                assert(self.nodes@.take(first as int) == old(self).nodes@);
                assert forall|i: int| 0 <= i < self.locks().len() implies self.locks()[i] == (old(
                    self,
                ).locks() + Seq::new(N as nat, |item: int| item == 0))[i] by {
                    if i < first {
                        assert(self.nodes@.take(first as int)[i] == self.nodes@[i]);
                    } else {
                        assert(self.nodes@[i].is_locked == (i == first));
                    }
                }
            }
            assert(self.values().take(first as int) =~= old(self).values()) by {
                assert(self.nodes@.take(first as int) == old(self).nodes@);
                assert forall|i: int| 0 <= i < first implies self.values()[i] == old(
                    self,
                ).values()[i] by {
                    assert(self.nodes@.take(first as int)[i] == self.nodes@[i]);
                }
            }
        }
        RawHazardGuard { node: first, released: false, lt: PhantomData }
    }

    /// Runs through the values of every node, locked or not.
    pub fn iter(&self) -> (iter: HazardIter<'_, T, N>)
        ensures
            iter.pool() == *self,
            iter.position() == 0,
    {
        HazardIter { hazard: self, next: 0 }
    }
}

impl<'a, T, const N: usize> HazardIter<'a, T, N> {
    /// The pool that is run through.
    pub closed spec fn pool(&self) -> Hazard<T, N> {
        *self.hazard
    }

    /// How many values have been handed out.
    pub closed spec fn position(&self) -> nat {
        self.next as nat
    }

    /// The next value, or `None` when every node has been visited.
    pub fn next(&mut self) -> (value: Option<&'a T>)
        requires
            old(self).position() <= old(self).pool().len(),
        ensures
            final(self).pool() == old(self).pool(),
            final(self).position() <= final(self).pool().len(),
            match value {
                Some(value) => {
                    &&& old(self).position() < old(self).pool().len()
                    &&& *value == old(self).pool().values()[old(self).position() as int]
                    &&& final(self).position() == old(self).position() + 1
                },
                None => {
                    &&& old(self).position() == old(self).pool().len()
                    &&& final(self).position() == old(self).position()
                },
            },
    {
        if self.next < self.hazard.nodes.len() {
            let value = &self.hazard.nodes[self.next].value;
            self.next = self.next + 1;
            Some(value)
        } else {
            None
        }
    }
}

} // verus!
