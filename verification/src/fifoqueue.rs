//! A bounded single-producer/single-consumer ring.

use vstd::prelude::*;

verus! {

/// A ring of `nb_elements + 1` slots, one of which always stays free so that
/// an empty ring (`read_index == write_index`) can be told from a full one.
pub struct FifoQueue<T: Clone> {
    pub write_index: usize,
    pub read_index: usize,
    pub nb_elements: usize,
    pub queue_size: usize,
    pub fifo_queue_elements: Vec<Option<T>>,
}

impl<T: Clone> FifoQueue<T> {
    /// Number of queued items: `(w - r) mod (N + 1)`.
    pub open spec fn count(&self) -> int {
        (self.write_index - self.read_index) % (self.queue_size as int)
    }

    /// The slot that holds the `i`-th queued item.
    pub open spec fn slot(&self, i: int) -> int {
        (self.read_index + i) % (self.queue_size as int)
    }

    /// The indices lie in the ring, and every slot from the read index up
    /// to the write index holds an item.
    pub open spec fn wf(&self) -> bool {
        &&& self.queue_size == self.nb_elements + 1
        &&& self.fifo_queue_elements.len() == self.queue_size
        &&& self.write_index < self.queue_size
        &&& self.read_index < self.queue_size
        &&& forall|i: int|
            0 <= i < self.count() ==> (#[trigger] self.fifo_queue_elements[self.slot(i)]).is_some()
    }

    /// Nothing waits: the two indices meet.
    pub open spec fn is_empty(&self) -> bool {
        self.read_index == self.write_index
    }

    /// As many items wait as the ring has places: `(w - r) mod (N + 1) = N`.
    pub open spec fn is_full(&self) -> bool {
        self.count() == self.nb_elements
    }

    /// The queued items, oldest first.
    pub open spec fn view(&self) -> Seq<T> {
        Seq::new(self.count() as nat, |i: int| self.fifo_queue_elements[self.slot(i)].unwrap())
    }

    /// `count` and `slot` without the modulo, for indices inside the ring.
    pub proof fn lemma_ring(&self)
        requires
            0 < self.queue_size,
            self.write_index < self.queue_size,
            self.read_index < self.queue_size,
        ensures
            self.count() == if self.write_index >= self.read_index {
                self.write_index - self.read_index
            } else {
                self.write_index - self.read_index + self.queue_size
            },
            0 <= self.count() < self.queue_size,
            forall|i: int|
                0 <= i < self.queue_size ==> #[trigger] self.slot(i) == if self.read_index + i
                    < self.queue_size {
                    self.read_index + i
                } else {
                    self.read_index + i - self.queue_size
                },
    {
        let n = self.queue_size as int;
        lemma_mod_near(self.write_index - self.read_index, n);
        assert forall|i: int| 0 <= i < n implies #[trigger] self.slot(i) == if self.read_index + i
            < n {
            self.read_index + i
        } else {
            self.read_index + i - n
        } by {
            lemma_mod_near(self.read_index + i, n);
        }
    }

    /// Never do more items wait than the ring has places.  The ring is
    /// full when the write index stands just behind the read index, empty
    /// when the two meet.
    pub proof fn lemma_bounded(&self)
        requires
            self.wf(),
        ensures
            self@.len() <= self.nb_elements,
            self.is_full() <==> self@.len() == self.nb_elements,
            self.is_full() <==> self.write_index == (self.read_index + self.nb_elements) % (
            self.queue_size as int),
            self.is_empty() <==> self@.len() == 0,
    {
        self.lemma_ring();
        lemma_mod_near(self.read_index + self.nb_elements, self.queue_size as int);
    }

    /// An empty ring with room for `nb_elements` items.
    pub fn new(nb_elements: usize) -> (q: FifoQueue<T>)
        requires
            nb_elements < usize::MAX,
        ensures
            q.wf(),
            q.write_index == 0,
            q.read_index == 0,
            q.nb_elements == nb_elements,
            q.queue_size == nb_elements + 1,
            q.fifo_queue_elements@.len() == nb_elements + 1,
            forall|i: int| 0 <= i <= nb_elements ==> (#[trigger] q.fifo_queue_elements@[i]).is_none(),
            q@ == Seq::<T>::empty(),
            q.is_empty(),
    {
        let mut elements: Vec<Option<T>> = Vec::new();
        let mut i: usize = 0;
        while i < nb_elements + 1
            invariant
                nb_elements < usize::MAX,
                i <= nb_elements + 1,
                elements.len() == i,
                forall|k: int| 0 <= k < i ==> (#[trigger] elements@[k]).is_none(),
            decreases nb_elements + 1 - i,
        {
            elements.push(None);
            i += 1;
        }
        let q = FifoQueue {
            write_index: 0,
            read_index: 0,
            nb_elements,
            queue_size: nb_elements + 1,
            fifo_queue_elements: elements,
        };
        proof {
            q.lemma_ring();
        }
        q
    }

    /// Appends `new_item` unless the ring is full; says whether it did.
    pub fn write(&mut self, new_item: T) -> (ok: bool)
        requires
            old(self).wf(),
        ensures
            final(self).wf(),
            final(self).nb_elements == old(self).nb_elements,
            final(self).read_index == old(self).read_index,
            ok == !old(self).is_full(),
            ok == (old(self)@.len() < old(self).nb_elements),
            final(self)@ == write_to(old(self)@, old(self).nb_elements as nat, new_item),
            !ok ==> *final(self) == *old(self),
    {
        proof {
            self.lemma_ring();
        }
        let last = if self.read_index == 0 { self.nb_elements } else { self.read_index - 1 };
        if self.write_index == last {
            return false;
        }
        let w = self.write_index;
        self.fifo_queue_elements.set(w, Some(new_item));
        self.write_index = if w + 1 == self.queue_size { 0 } else { w + 1 };
        proof {
            self.lemma_ring();
            assert(self.count() == old(self).count() + 1);
            assert(self.slot(old(self).count()) == w);
            assert forall|i: int| 0 <= i < self.count() implies (
            #[trigger] self.fifo_queue_elements[self.slot(i)]).is_some() by {
                if i < old(self).count() {
                    assert(old(self).fifo_queue_elements[old(self).slot(i)].is_some());
                }
            }
            assert(self@ =~= old(self)@.push(new_item));
        }
        true
    }

    /// Removes and returns the oldest item, if any.
    pub fn read(&mut self) -> (item: Option<&T>)
        requires
            old(self).wf(),
        ensures
            final(self).wf(),
            final(self).nb_elements == old(self).nb_elements,
            final(self).write_index == old(self).write_index,
            old(self).is_empty() <==> old(self)@.len() == 0,
            old(self).is_empty() ==> item.is_none() && *final(self) == *old(self),
            !old(self).is_empty() ==> item == Some(&old(self)@[0]) && final(self)@ == old(
                self,
            )@.skip(1),
    {
        proof {
            self.lemma_ring();
        }
        if self.write_index == self.read_index {
            return None;
        }
        let r = self.read_index;
        self.read_index = if r + 1 == self.queue_size { 0 } else { r + 1 };
        proof {
            self.lemma_ring();
            assert(self.count() == old(self).count() - 1);
            assert(old(self).slot(0) == r);
            assert(old(self).fifo_queue_elements[old(self).slot(0)].is_some());
            assert forall|i: int| 0 <= i < self.count() implies self.slot(i) == old(self).slot(
                i + 1,
            ) by {}
            assert forall|i: int| 0 <= i < self.count() implies (
            #[trigger] self.fifo_queue_elements[self.slot(i)]).is_some() by {
                assert(old(self).fifo_queue_elements[old(self).slot(i + 1)].is_some());
            }
            assert(self@ =~= old(self)@.skip(1));
        }
        self.fifo_queue_elements[r].as_ref()
    }
}

/// The items waiting after an attempt to write `m` to a ring of `n` places:
/// `m` goes to the back unless `n` items wait already.
pub open spec fn write_to<T>(q: Seq<T>, n: nat, m: T) -> Seq<T> {
    if q.len() < n {
        q.push(m)
    } else {
        q
    }
}

/// The items waiting after attempts to write each of `ms`, in order.
pub open spec fn write_all<T>(q: Seq<T>, n: nat, ms: Seq<T>) -> Seq<T>
    decreases ms.len(),
{
    if ms.len() == 0 {
        q
    } else {
        write_to(write_all(q, n, ms.drop_last()), n, ms.last())
    }
}

/// Whether each of the writes of `ms` succeeds.
pub open spec fn all_written<T>(q: Seq<T>, n: nat, ms: Seq<T>) -> bool {
    forall|k: int| 0 <= k < ms.len() ==> (#[trigger] write_all(q, n, ms.take(k))).len() < n
}

/// The items that `k` reads take out of the ring, in the order in which
/// they come.
pub open spec fn read_out<T>(q: Seq<T>, k: nat) -> Seq<T>
    decreases k,
{
    if k == 0 || q.len() == 0 {
        Seq::empty()
    } else {
        seq![q[0]] + read_out(q.skip(1), (k - 1) as nat)
    }
}

/// First in, first out.  Writes succeed as long as places are left, and
/// what was written by writes that all succeeded comes out in the same
/// order, behind what was waiting before.
pub proof fn lemma_fifo_order<T>(q: Seq<T>, n: nat, ms: Seq<T>)
    requires
        q.len() <= n,
    ensures
        all_written(q, n, ms) <==> q.len() + ms.len() <= n,
        all_written(q, n, ms) ==> write_all(q, n, ms) == q + ms,
        all_written(q, n, ms) ==> read_out(write_all(q, n, ms), q.len() + ms.len()) == q + ms,
    decreases ms.len(),
{
    lemma_write_all(q, n, ms);
    lemma_read_out(q + ms, q.len() + ms.len());
    assert((q + ms).take((q + ms).len() as int) =~= q + ms);
    if q.len() + ms.len() <= n {
        assert forall|k: int| 0 <= k < ms.len() implies (#[trigger] write_all(
            q,
            n,
            ms.take(k),
        )).len() < n by {
            lemma_write_all(q, n, ms.take(k));
        }
    } else {
        let k = n - q.len();
        lemma_write_all(q, n, ms.take(k));
        assert(write_all(q, n, ms.take(k)).len() == n);
    }
}

/// As long as places are left every write succeeds; never do more than `n`
/// items wait.
pub proof fn lemma_write_all<T>(q: Seq<T>, n: nat, ms: Seq<T>)
    requires
        q.len() <= n,
    ensures
        write_all(q, n, ms).len() <= n,
        q.len() + ms.len() <= n ==> write_all(q, n, ms) == q + ms,
        q.len() + ms.len() > n ==> write_all(q, n, ms).len() == n,
    decreases ms.len(),
{
    if ms.len() > 0 {
        lemma_write_all(q, n, ms.drop_last());
        if q.len() + ms.len() <= n {
            assert((q + ms.drop_last()).push(ms.last()) =~= q + ms);
        }
    } else {
        assert(q + ms =~= q);
    }
}

/// Reads take the items from the front, one by one.
pub proof fn lemma_read_out<T>(q: Seq<T>, k: nat)
    ensures
        read_out(q, k) == q.take(if k <= q.len() {
            k as int
        } else {
            q.len() as int
        }),
    decreases k,
{
    let m = if k <= q.len() {
        k as int
    } else {
        q.len() as int
    };
    if k == 0 || q.len() == 0 {
        assert(q.take(m) =~= Seq::empty());
    } else {
        lemma_read_out(q.skip(1), (k - 1) as nat);
        assert(seq![q[0]] + q.skip(1).take(m - 1) =~= q.take(m));
    }
}

/// `x mod n` for an `x` at most one period away from `[0, n)`.
pub proof fn lemma_mod_near(x: int, n: int)
    by (nonlinear_arith)
    requires
        0 < n,
        -n <= x < 2 * n,
    ensures
        x % n == if x < 0 {
            x + n
        } else if x < n {
            x
        } else {
            x - n
        },
{
}

} // verus!
