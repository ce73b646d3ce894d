use vstd::prelude::*;
use vstd::arithmetic::div_mod::{lemma_small_mod, lemma_mod_self_0};

verus! {

/// A fixed-size queue.
/// The `const`-parameter `C` denotes the capacity.
///
/// Elements live in a circular buffer of `C` optional slots: the oldest
/// element sits at the physical index `head`, and the `length` stored
/// elements occupy the slots `(head + i) mod C` for `i < length`. All other
/// slots are empty. Enqueuing never allocates and dequeuing never shifts
/// elements; both fail softly (by returning the element, or `None`) instead
/// of panicking.
#[derive(Clone, Copy, Debug)]
pub struct Queue<T, const C: usize> {
    elements: [Option<T>; C],
    head: usize,
    length: usize,
}

impl<T, const C: usize> View for Queue<T, C> {
    type V = Seq<T>;

    /// The abstract content of the queue: its elements in logical order,
    /// oldest (front) first.
    closed spec fn view(&self) -> Seq<T> {
        Seq::new(self.length as nat, |i: int| self.elements@[self.slot(i)]->Some_0)
    }
}

impl<T, const C: usize> Queue<T, C> {
    /// The physical index of the oldest occupied slot.
    pub closed spec fn spec_head(&self) -> int {
        self.head as int
    }

    /// The physical slot that holds logical position `i`, i.e.
    /// `(head + i) mod C`, written without modulus for `0 <= i <= C`.
    pub open spec fn slot(&self, i: int) -> int {
        if self.spec_head() + i < C {
            self.spec_head() + i
        } else {
            self.spec_head() + i - C
        }
    }

    /// Whether physical slot `j` holds one of the live elements.
    pub open spec fn occupied(&self, j: int) -> bool {
        exists|i: int| 0 <= i < self@.len() && #[trigger] self.slot(i) == j
    }

    /// Structural invariant: the occupancy count never exceeds the
    /// capacity, the head index stays in range, and a slot is full exactly
    /// when it holds one of the `length` live elements.
    pub closed spec fn wf(&self) -> bool {
        &&& self.length <= C
        &&& if C == 0 {
            self.head == 0
        } else {
            self.head < C
        }
        &&& forall|j: int|
            0 <= j < C ==> ((#[trigger] self.elements@[j]) is Some <==> self.occupied(j))
    }

    /// `(head + i) mod C` agrees with the branch form used by `slot`.
    proof fn lemma_slot_is_mod(&self, i: int)
        requires
            self.wf(),
            C > 0,
            0 <= i <= C,
        ensures
            self.slot(i) == (self.spec_head() + i) % (C as int),
    {
        if self.head + i < C {
            lemma_small_mod((self.head + i) as nat, C as nat);
        } else {
            lemma_small_mod((self.head + i - C) as nat, C as nat);
            assert((self.head + i) % (C as int) == (self.head + i - C) % (C as int)) by {
                vstd::arithmetic::div_mod::lemma_mod_sub_multiples_vanish(
                    self.head + i,
                    C as int,
                );
            }
        }
    }

    /// Capacity invariant: a well-formed queue holds at least zero and at
    /// most `C` elements, so `len()` never exceeds `capacity()` in any
    /// reachable state.
    pub proof fn lemma_capacity_invariant(&self)
        requires
            self.wf(),
        ensures
            0 <= self@.len() <= C,
    {
    }

    /// Constructs a new, empty `Queue<T, C>`.
    pub fn new() -> (queue: Self) where T: Copy
        ensures
            queue.wf(),
            queue@ == Seq::<T>::empty(),
            queue.spec_head() == 0,
    {
        let elements: [Option<T>; C] = [None; C];
        let queue = Queue { elements, head: 0, length: 0 };
        proof {
            assert(queue@ =~= Seq::<T>::empty());
        }
        queue
    }

    /// Returns the number of elements the queue can hold.
    pub fn capacity(&self) -> (capacity: usize)
        ensures
            capacity == C,
    {
        C
    }

    /// Returns the number of elements in the queue.
    pub fn len(&self) -> (length: usize)
        ensures
            length == self@.len(),
    {
        self.length
    }

    /// Returns `true` if the queue contains no elements.
    pub fn is_empty(&self) -> (empty: bool)
        ensures
            empty == (self@.len() == 0),
    {
        self.len() == 0
    }

    /// Returns `true` if the queue cannot contain any more elements.
    pub fn is_full(&self) -> (full: bool)
        ensures
            full == (self@.len() == C),
    {
        self.len() == self.capacity()
    }

    /// Returns a reference to the element at the given index relative
    /// to the start of the queue.
    /// Returns `None` if there is no element at the position.
    ///
    /// An index is in bounds exactly when it is below `len()`; the bound
    /// check precedes the modular slot computation, since a larger index
    /// could otherwise alias a real but wrong slot.
    pub fn get(&self, index: usize) -> (result: Option<&T>)
        requires
            self.wf(),
        ensures
            match result {
                Some(element) => index < self@.len() && *element == self@[index as int],
                None => index >= self@.len(),
            },
    {
        if index >= self.len() {
            return None;
        }
        let slot: usize = if index >= C - self.head {
            index - (C - self.head)
        } else {
            self.head + index
        };
        proof {
            assert(slot == self.slot(index as int));
            assert(self.occupied(self.slot(index as int)));
        }
        self.elements[slot].as_ref()
    }

    /// Returns the index of the first occupied slot in the queue.
    pub fn head(&self) -> (index: usize)
        ensures
            index as int == self.spec_head(),
    {
        self.head
    }

    /// Returns the index of the first empty slot in the queue.
    pub fn tail(&self) -> (index: usize)
        requires
            self.wf(),
            C > 0,
        ensures
            index as int == (self.spec_head() + self@.len()) % (C as int),
            index as int == self.slot(self@.len() as int),
            index < C,
    {
        proof {
            self.lemma_slot_is_mod(self.length as int);
        }
        if self.head >= C - self.length {
            self.head - (C - self.length)
        } else {
            self.head + self.length
        }
    }

    /// Returns a reference to the underlying storage of the queue.
    ///
    /// The slots appear in physical order: slot `(head + i) mod C` holds
    /// the element at logical position `i`, and every slot outside the
    /// occupied range is empty.
    pub fn as_slice(&self) -> (storage: &[Option<T>])
        requires
            self.wf(),
        ensures
            storage@.len() == C,
            forall|i: int|
                0 <= i < self@.len() ==> #[trigger] storage@[self.slot(i)] == Some(self@[i]),
            forall|j: int|
                0 <= j < C && !self.occupied(j) ==> (#[trigger] storage@[j]) is None,
    {
        &self.elements
    }

    /// Insert an element at the back of the queue.
    /// Returns `Err(element)` if the queue is full.
    ///
    /// A rejected element comes back unchanged and the queue keeps its
    /// exact prior state; a successful insertion appends the element at
    /// the logical back and leaves the head where it was.
    pub fn enqueue(&mut self, element: T) -> (result: Result<(), T>)
        requires
            old(self).wf(),
        ensures
            final(self).wf(),
            final(self).spec_head() == old(self).spec_head(),
            result is Ok <==> old(self)@.len() < C,
            old(self)@.len() < C ==> final(self)@ == old(self)@.push(element),
            old(self)@.len() == C ==> result == Err::<(), T>(element) && *final(self) == *old(
                self,
            ),
    {
        if self.is_full() {
            return Err(element);
        }
        let tail = self.tail();
        self.elements[tail] = Some(element);
        self.length = self.length + 1;
        proof {
            let prev = *old(self);
            assert forall|j: int|
                0 <= j < C implies ((#[trigger] self.elements@[j]) is Some <==> self.occupied(
                j,
            )) by {
                if j == tail as int {
                    assert(self.slot(prev.length as int) == j);
                    assert(self.occupied(j));
                } else {
                    assert(self.elements@[j] == prev.elements@[j]);
                    if self.occupied(j) {
                        let i = choose|i: int|
                            0 <= i < self.length && #[trigger] self.slot(i) == j;
                        assert(prev.slot(i) == j);
                        assert(prev.occupied(j));
                    }
                    if prev.occupied(j) {
                        let i = choose|i: int|
                            0 <= i < prev.length && #[trigger] prev.slot(i) == j;
                        assert(self.slot(i) == j);
                        assert(self.occupied(j));
                    }
                }
            }
            assert(self@ =~= prev@.push(element));
        }
        Ok(())
    }

    /// Take an element out of the front of the queue.
    /// Returns `None` if the queue is empty.
    ///
    /// An empty queue is left untouched; otherwise the oldest element is
    /// removed and returned, the head advances by one modulo `C`, and the
    /// remaining elements keep their order.
    pub fn dequeue(&mut self) -> (result: Option<T>)
        requires
            old(self).wf(),
        ensures
            final(self).wf(),
            result is Some <==> old(self)@.len() > 0,
            old(self)@.len() == 0 ==> *final(self) == *old(self),
            old(self)@.len() > 0 ==> {
                &&& result == Some(old(self)@[0])
                &&& final(self)@ == old(self)@.subrange(1, old(self)@.len() as int)
                &&& final(self).spec_head() == (old(self).spec_head() + 1) % (C as int)
            },
    {
        if self.is_empty() {
            return None;
        }
        proof {
            assert(old(self).slot(0) == old(self).spec_head());
            assert(old(self).occupied(old(self).spec_head()));
        }
        let element = self.elements[self.head].take();
        self.head = (self.head + 1) % self.capacity();
        self.length = self.length - 1;
        proof {
            let prev = *old(self);
            if prev.head + 1 < C {
                lemma_small_mod((prev.head + 1) as nat, C as nat);
            } else {
                lemma_mod_self_0(C as int);
            }
            assert forall|j: int|
                0 <= j < C implies ((#[trigger] self.elements@[j]) is Some <==> self.occupied(
                j,
            )) by {
                if j == prev.spec_head() {
                    if self.occupied(j) {
                        let i = choose|i: int|
                            0 <= i < self.length && #[trigger] self.slot(i) == j;
                        assert(false);
                    }
                } else {
                    assert(self.elements@[j] == prev.elements@[j]);
                    if self.occupied(j) {
                        let i = choose|i: int|
                            0 <= i < self.length && #[trigger] self.slot(i) == j;
                        assert(prev.slot(i + 1) == j);
                        assert(prev.occupied(j));
                    }
                    if prev.occupied(j) {
                        let i = choose|i: int|
                            0 <= i < prev.length && #[trigger] prev.slot(i) == j;
                        assert(i != 0);
                        assert(self.slot(i - 1) == j);
                        assert(self.occupied(j));
                    }
                }
            }
            assert forall|i: int| 0 <= i < self.length implies #[trigger] self@[i] == prev@[i
                + 1] by {
                assert(self.slot(i) == prev.slot(i + 1));
                assert(self.elements@[self.slot(i)] == prev.elements@[prev.slot(i + 1)]);
            }
            assert(self@ =~= prev@.subrange(1, prev@.len() as int));
        }
        element
    }
}

/// FIFO order: enqueuing `e1, ..., ek` into an empty queue, then dequeuing
/// `k` times, yields exactly `e1, ..., ek` in that order.
///
/// In terms of the view that `enqueue` and `dequeue` are specified over:
/// the `j`-th successful enqueue grows the view from the first `j` offered
/// elements to the first `j + 1`; once all are in, the view is `elements`,
/// and after `j` dequeues it is `elements.skip(j)`, so the next dequeue
/// returns `elements[j]` and leaves `elements.skip(j + 1)`.
pub proof fn lemma_fifo_order<T>(elements: Seq<T>, j: int)
    requires
        0 <= j < elements.len(),
    ensures
        elements.take(j).push(elements[j]) == elements.take(j + 1),
        elements.skip(j)[0] == elements[j],
        elements.skip(j).subrange(1, elements.skip(j).len() as int) == elements.skip(j + 1),
{
    assert(elements.take(j).push(elements[j]) =~= elements.take(j + 1));
    assert(elements.skip(j).subrange(1, elements.skip(j).len() as int) =~= elements.skip(j + 1));
}

impl<T: Copy, const C: usize> Default for Queue<T, C> {
    /// The default queue is empty.
    fn default() -> (queue: Self)
        ensures
            queue.wf(),
            queue@ == Seq::<T>::empty(),
            queue.spec_head() == 0,
    {
        Queue::new()
    }
}

} // verus!
