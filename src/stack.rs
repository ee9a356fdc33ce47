use std::collections::vec_deque;
use std::collections::VecDeque;
use vstd::std_specs::iter::IteratorSpec;
use vstd::prelude::*;

verus! {

broadcast use vstd::std_specs::vecdeque::group_vec_dequeue_axioms;

/// True when every adjacent pair of `s`, read from the top down, is
/// strictly increasing.
pub open spec fn strictly_ascending(s: Seq<i32>) -> bool {
    forall|i: int| 0 <= i < s.len() - 1 ==> #[trigger] s[i] < s[i + 1]
}

/// The two top elements exchanged; unchanged below two elements.
pub open spec fn swapped(s: Seq<i32>) -> Seq<i32> {
    if s.len() < 2 {
        s
    } else {
        seq![s[1], s[0]] + s.subrange(2, s.len() as int)
    }
}

/// The top element moved to the bottom; unchanged when empty.
pub open spec fn rotated(s: Seq<i32>) -> Seq<i32> {
    if s.len() == 0 {
        s
    } else {
        s.drop_first().push(s[0])
    }
}

/// The bottom element moved to the top; unchanged when empty.
pub open spec fn reverse_rotated(s: Seq<i32>) -> Seq<i32> {
    if s.len() == 0 {
        s
    } else {
        seq![s.last()] + s.drop_last()
    }
}

/// The pair `(from, to)` after the top of `from` has been moved onto `to`;
/// unchanged when `from` is empty.
pub open spec fn transferred(from: Seq<i32>, to: Seq<i32>) -> (Seq<i32>, Seq<i32>) {
    if from.len() == 0 {
        (from, to)
    } else {
        (from.drop_first(), seq![from[0]] + to)
    }
}

/// A stack of integers whose top is the front of the sequence.
pub struct Stack(VecDeque<i32>);

impl View for Stack {
    type V = Seq<i32>;

    closed spec fn view(&self) -> Seq<i32> {
        self.0@
    }
}

impl Stack {
    /// Moves the top of `other` onto `self`; nothing happens when `other`
    /// is empty.
    pub fn receive_push_from_other(&mut self, other: &mut Self)
        ensures
            (final(other)@, final(self)@) == transferred(old(other)@, old(self)@),
    {
        if let Some(top) = other.0.pop_front() {
            self.0.push_front(top);
        }
    }

    /// Exchanges the two top elements; nothing happens below two elements.
    pub fn swap(&mut self)
        ensures
            final(self)@ == swapped(old(self)@),
    {
        let len = self.0.len();
        if len >= 2 {
            let first = self.0.pop_front().unwrap();
            let second = self.0.pop_front().unwrap();
            self.0.push_front(first);
            self.0.push_front(second);
            assert(self@ =~= swapped(old(self)@));
        }
    }

    /// Moves the top element to the bottom; nothing happens when empty.
    pub fn rotate(&mut self)
        ensures
            final(self)@ == rotated(old(self)@),
    {
        if let Some(top) = self.0.pop_front() {
            self.0.push_back(top);
            assert(self@ =~= rotated(old(self)@));
        }
    }

    /// Moves the bottom element to the top; nothing happens when empty.
    pub fn reverse_rotate(&mut self)
        ensures
            final(self)@ == reverse_rotated(old(self)@),
    {
        if let Some(bot) = self.0.pop_back() {
            self.0.push_front(bot);
            assert(self@ =~= reverse_rotated(old(self)@));
        }
    }

    /// An empty stack with room reserved for `cap` elements.
    pub fn with_capacity(cap: usize) -> (r: Self)
        ensures
            r@ == Seq::<i32>::empty(),
    {
        Stack(VecDeque::with_capacity(cap))
    }

    /// A stack holding `values`, the first of them on top.
    pub fn from_vec(values: Vec<i32>) -> (r: Self)
        ensures
            r@ == values@,
    {
        let mut deque: VecDeque<i32> = VecDeque::with_capacity(values.len());
        let mut i: usize = 0;
        while i < values.len()
            invariant
                i <= values@.len(),
                deque@ == values@.subrange(0, i as int),
            decreases values@.len() - i,
        {
            deque.push_back(values[i]);
            i += 1;
            assert(deque@ =~= values@.subrange(0, i as int));
        }
        assert(values@.subrange(0, values@.len() as int) =~= values@);
        Stack(deque)
    }

    /// Whether the stack holds no element.
    pub fn is_empty(&self) -> (r: bool)
        ensures
            r == (self@.len() == 0),
    {
        self.0.len() == 0
    }

    /// Whether the stack, read from the top down, is strictly increasing.
    /// The contents are left as they are.
    pub fn is_sorted(&mut self) -> (r: bool)
        ensures
            final(self)@ == old(self)@,
            r == strictly_ascending(old(self)@),
            old(self)@.len() <= 1 ==> r,
    {
        let len = self.0.len();
        let mut i: usize = 1;
        while i < len
            invariant
                len == self@.len(),
                1 <= i,
                forall|k: int| 0 <= k < i - 1 && k < len - 1 ==> #[trigger] self@[k] < self@[k + 1],
            decreases len - i,
        {
            if self.0[i - 1] >= self.0[i] {
                assert(!(self@[i - 1] < self@[(i - 1) + 1]));
                return false;
            }
            i += 1;
        }
        true
    }

    /// The elements from the top down.
    pub fn iter(&self) -> (r: vec_deque::Iter<'_, i32>)
        ensures
            r.remaining() == self@.as_ref(),
    {
        self.0.iter()
    }

    /// How many elements the stack holds.
    pub fn len(&self) -> (r: usize)
        ensures
            r == self@.len(),
    {
        self.0.len()
    }
}

/// Rotating and then rotating back, in either order, gives the stack back.
pub proof fn lemma_rotate_round_trip(s: Seq<i32>)
    requires
        s.len() >= 2,
    ensures
        reverse_rotated(rotated(s)) == s,
        rotated(reverse_rotated(s)) == s,
{
    assert(reverse_rotated(rotated(s)) =~= s);
    assert(rotated(reverse_rotated(s)) =~= s);
}

/// Moving the top of `from` onto `to` and then straight back restores both
/// stacks, when `from` was not empty.
pub proof fn lemma_transfer_round_trip(from: Seq<i32>, to: Seq<i32>)
    requires
        from.len() > 0,
    ensures
        ({
            let (from1, to1) = transferred(from, to);
            let (to2, from2) = transferred(to1, from1);
            from2 == from && to2 == to
        }),
{
    let (from1, to1) = transferred(from, to);
    assert(to1.drop_first() =~= to);
    assert(seq![to1[0]] + from1 =~= from);
}

/// A stack of at most one element counts as sorted.
pub proof fn lemma_short_stack_sorted(s: Seq<i32>)
    requires
        s.len() <= 1,
    ensures
        strictly_ascending(s),
{
}

} // verus!
