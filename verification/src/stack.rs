use vstd::prelude::*;

verus! {

/// A fixed-size stack.
/// The `const`-parameter `C` denotes the capacity.
///
/// Elements live in an array of `C` optional slots: the `length` stored
/// elements occupy the slots `0 .. length` in push order, bottom first, and
/// all other slots are empty. Pushing never allocates and both operations
/// fail softly (by returning the element, or `None`) instead of panicking.
#[derive(Clone, Copy, Debug)]
pub struct Stack<T, const C: usize> {
    elements: [Option<T>; C],
    length: usize,
}

impl<T, const C: usize> View for Stack<T, C> {
    type V = Seq<T>;

    /// The abstract content of the stack: its elements from the bottom up,
    /// so the last entry is the top.
    closed spec fn view(&self) -> Seq<T> {
        Seq::new(self.length as nat, |i: int| self.elements@[i]->Some_0)
    }
}

impl<T, const C: usize> Stack<T, C> {
    /// Structural invariant: the occupancy count never exceeds the
    /// capacity, and a slot is full exactly when its index is below the
    /// occupancy count.
    pub closed spec fn wf(&self) -> bool {
        &&& self.length <= C
        &&& forall|j: int|
            0 <= j < C ==> ((#[trigger] self.elements@[j]) is Some <==> j < self.length)
    }

    /// Capacity invariant: a well-formed stack holds at least zero and at
    /// most `C` elements, so `len()` never exceeds `capacity()` in any
    /// reachable state.
    pub proof fn lemma_capacity_invariant(&self)
        requires
            self.wf(),
        ensures
            0 <= self@.len() <= C,
    {
    }

    /// Constructs a new, empty `Stack<T, C>`.
    pub fn new() -> (stack: Self) where T: Copy
        ensures
            stack.wf(),
            stack@ == Seq::<T>::empty(),
    {
        let elements: [Option<T>; C] = [None; C];
        let stack = Stack { elements, length: 0 };
        proof {
            assert(stack@ =~= Seq::<T>::empty());
        }
        stack
    }

    /// Returns the number of elements the stack can hold.
    pub fn capacity(&self) -> (capacity: usize)
        ensures
            capacity == C,
    {
        C
    }

    /// Returns the number of elements on the stack.
    pub fn len(&self) -> (length: usize)
        ensures
            length == self@.len(),
    {
        self.length
    }

    /// Returns `true` if the stack contains no elements.
    pub fn is_empty(&self) -> (empty: bool)
        ensures
            empty == (self@.len() == 0),
    {
        self.len() == 0
    }

    /// Returns `true` if the stack cannot contain any more elements.
    pub fn is_full(&self) -> (full: bool)
        ensures
            full == (self@.len() == C),
    {
        self.len() == self.capacity()
    }

    /// Returns a reference to the element at the given index, counted from
    /// the bottom of the stack.
    /// Returns `None` if there is no element at the position.
    pub fn get(&self, index: usize) -> (result: Option<&T>)
        requires
            self.wf(),
        ensures
            match result {
                Some(element) => index < self@.len() && *element == self@[index as int],
                None => index >= self@.len(),
            },
    {
        if index >= self.len() {
            return None;
        }
        self.elements[index].as_ref()
    }

    /// Returns the index of the last occupied slot in the stack.
    pub fn top(&self) -> (index: usize)
        requires
            self@.len() > 0,
        ensures
            index as int == self@.len() - 1,
    {
        self.len() - 1
    }

    /// Returns a reference to the underlying storage of the stack.
    ///
    /// The slots `0 .. len()` hold the elements in push order; every slot
    /// from `len()` up is empty.
    pub fn as_slice(&self) -> (storage: &[Option<T>])
        requires
            self.wf(),
        ensures
            storage@.len() == C,
            forall|i: int| 0 <= i < self@.len() ==> #[trigger] storage@[i] == Some(self@[i]),
            forall|j: int| self@.len() <= j < C ==> (#[trigger] storage@[j]) is None,
    {
        &self.elements
    }

    /// Insert an element at the top of the stack.
    /// Returns `Err(element)` if the stack is full.
    ///
    /// A rejected element comes back unchanged and the stack keeps its
    /// exact prior state; a successful push appends the element on top.
    pub fn push(&mut self, element: T) -> (result: Result<(), T>)
        requires
            old(self).wf(),
        ensures
            final(self).wf(),
            result is Ok <==> old(self)@.len() < C,
            old(self)@.len() < C ==> final(self)@ == old(self)@.push(element),
            old(self)@.len() == C ==> result == Err::<(), T>(element) && *final(self) == *old(
                self,
            ),
    {
        if self.is_full() {
            return Err(element);
        }
        let index = self.len();
        self.elements[index] = Some(element);
        self.length = self.length + 1;
        proof {
            assert(self@ =~= old(self)@.push(element));
        }
        Ok(())
    }

    /// Take an element off of the top of the stack.
    /// Returns `None` if the stack is empty.
    ///
    /// An empty stack is left untouched; otherwise the most recently
    /// pushed element is removed and returned, and the elements below it
    /// keep their order.
    pub fn pop(&mut self) -> (result: Option<T>)
        requires
            old(self).wf(),
        ensures
            final(self).wf(),
            result is Some <==> old(self)@.len() > 0,
            old(self)@.len() == 0 ==> *final(self) == *old(self),
            old(self)@.len() > 0 ==> result == Some(old(self)@.last()) && final(self)@ == old(
                self,
            )@.drop_last(),
    {
        if self.is_empty() {
            return None;
        }
        let index = self.top();
        let element = self.elements[index].take();
        self.length = self.length - 1;
        proof {
            assert(self@ =~= old(self)@.drop_last());
        }
        element
    }
}

/// LIFO order: pushing `e1, ..., ek` onto an empty stack, then popping `k`
/// times, yields exactly `ek, ..., e1` — the reverse of the push order.
///
/// In terms of the view that `push` and `pop` are specified over: the
/// `j`-th successful push grows the view from the first `j` offered
/// elements to the first `j + 1`; once all `k` are in, the view is
/// `elements`, and after `j` pops it is `elements.take(k - j)`, so the next
/// pop returns `elements[k - 1 - j]` and leaves `elements.take(k - j - 1)`.
pub proof fn lemma_lifo_order<T>(elements: Seq<T>, j: int)
    requires
        0 <= j < elements.len(),
    ensures
        elements.take(j).push(elements[j]) == elements.take(j + 1),
        elements.take(elements.len() - j).last() == elements[elements.len() - 1 - j],
        elements.take(elements.len() - j).drop_last() == elements.take(elements.len() - j - 1),
{
    assert(elements.take(j).push(elements[j]) =~= elements.take(j + 1));
    assert(elements.take(elements.len() - j).drop_last() =~= elements.take(
        elements.len() - j - 1,
    ));
}

impl<T: Copy, const C: usize> Default for Stack<T, C> {
    /// The default stack is empty.
    fn default() -> (stack: Self)
        ensures
            stack.wf(),
            stack@ == Seq::<T>::empty(),
    {
        Stack::new()
    }
}

} // verus!
