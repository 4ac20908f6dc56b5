//! A list kept in the prefix of a fixed backing array; the array is
//! regrown to twice the element count when it fills, and shrunk when two
//! thirds of it are idle.

use vstd::prelude::*;

verus! {

/// The backing array `a` holds the `n` elements in its prefix; the rest of
/// the slots are idle.
pub struct ArrayStack<T> {
    pub a: Vec<T>,
    pub n: usize,
}

impl<T: Copy> View for ArrayStack<T> {
    type V = Seq<T>;

    open spec fn view(&self) -> Seq<T> {
        self.a@.take(self.n as int)
    }
}

impl<T: Default + Copy> ArrayStack<T> {
    /// The elements fit in the backing array.
    pub open spec fn wf(self) -> bool {
        self.n <= self.a@.len()
    }

    /// An empty list over a backing array of `size` slots.
    pub fn new(size: usize) -> (s: ArrayStack<T>)
        ensures
            s.wf(),
            s@ == Seq::<T>::empty(),
            s.a@.len() == size,
            s.n == 0,
    {
        let mut a: Vec<T> = Vec::new();
        let mut i: usize = 0;
        while i < size
            invariant
                a@.len() == i,
                0 <= i <= size,
            decreases size - i,
        {
            a.push(T::default());
            i += 1;
        }
        let s = ArrayStack { a, n: 0 };
        proof {
            assert(s@ =~= Seq::<T>::empty());
        }
        s
    }

    /// Regrow the backing array to twice the element count, at least one
    /// slot, keeping the elements.
    pub fn resize(&mut self)
        requires
            old(self).wf(),
            old(self).n <= usize::MAX / 2,
        ensures
            final(self).wf(),
            final(self)@ == old(self)@,
            final(self).n == old(self).n,
            final(self).a@.len() == (if old(self).n > 0 {
                2 * old(self).n
            } else {
                1
            }),
    {
        let cap = if self.n > 0 {
            2 * self.n
        } else {
            1
        };
        let mut b: Vec<T> = Vec::new();
        let mut i: usize = 0;
        while i < self.n
            invariant
                self == old(self),
                self.wf(),
                0 <= i <= self.n,
                b@ =~= self.a@.take(i as int),
            decreases self.n - i,
        {
            b.push(self.a[i]);
            proof {
                assert(b@ =~= self.a@.take(i + 1));
            }
            i += 1;
        }
        while b.len() < cap
            invariant
                self == old(self),
                self.wf(),
                self.n <= b@.len() <= cap,
                b@.take(self.n as int) =~= self.a@.take(self.n as int),
            decreases cap - b@.len(),
        {
            b.push(T::default());
            proof {
                assert(b@.take(self.n as int) =~= b@.drop_last().take(self.n as int));
            }
        }
        self.a = b;
        proof {
            assert(final(self)@ =~= old(self)@);
        }
    }

    /// Number of elements.
    pub fn size(&self) -> (r: usize)
        requires
            self.wf(),
        ensures
            r == self@.len(),
            r == self.n,
    {
        self.n
    }

    /// The slot at position `i` of the backing array, if it exists; idle
    /// slots past the elements are visible here.
    pub fn get(&self, i: usize) -> (r: Option<&T>)
        ensures
            match r {
                Some(v) => i < self.a@.len() && *v == self.a@[i as int],
                None => i >= self.a@.len(),
            },
    {
        if i < self.a.len() {
            Some(&self.a[i])
        } else {
            None
        }
    }

    /// Replace the slot at position `i` of the backing array, returning the
    /// old value.
    pub fn set(&mut self, i: usize, x: T) -> (r: T)
        requires
            i < old(self).a@.len(),
        ensures
            final(self).a@ == old(self).a@.update(i as int, x),
            final(self).n == old(self).n,
            r == old(self).a@[i as int],
    {
        let r = self.a[i];
        self.a[i] = x;
        r
    }

    /// Insert `x` at position `i`, shifting the later elements up; the
    /// array is regrown first when it is full.
    pub fn add(&mut self, i: usize, x: T)
        requires
            old(self).wf(),
            i <= old(self).n,
            old(self).n < usize::MAX / 2,
        ensures
            final(self).wf(),
            final(self)@ == old(self)@.insert(i as int, x),
            final(self).n == old(self).n + 1,
    {
        if self.n >= self.a.len() {
            self.resize();
        }
        let ghost pre = *self;
        let mut j = self.n;
        while j > i
            invariant
                pre.wf(),
                self.n == pre.n,
                self.n < self.a@.len(),
                i <= j <= self.n,
                self.a@.len() == pre.a@.len(),
                forall|k: int| 0 <= k <= j ==> self.a@[k] == pre.a@[k],
                forall|k: int| j < k <= self.n ==> self.a@[k] == pre.a@[k - 1],
            decreases j,
        {
            let v = self.a[j - 1];
            self.a[j] = v;
            j -= 1;
        }
        self.a[i] = x;
        self.n = self.n + 1;
        proof {
            assert(final(self)@ =~= pre@.insert(i as int, x));
            assert(pre@ =~= old(self)@);
        }
    }

    /// Remove and return the element at position `i`, shifting the later
    /// elements down; the array is shrunk when two thirds of it are idle.
    pub fn remove(&mut self, i: usize) -> (r: T)
        requires
            old(self).wf(),
            i < old(self).n,
        ensures
            final(self).wf(),
            final(self)@ == old(self)@.remove(i as int),
            final(self).n == old(self).n - 1,
            r == old(self)@[i as int],
    {
        let ghost pre = *self;
        let x = self.a[i];
        let mut j = i;
        while j < self.n - 1
            invariant
                pre.wf(),
                self.n == pre.n,
                0 < self.n <= self.a@.len(),
                i <= j <= self.n - 1,
                self.a@.len() == pre.a@.len(),
                forall|k: int| 0 <= k < i ==> self.a@[k] == pre.a@[k],
                forall|k: int| i <= k < j ==> self.a@[k] == pre.a@[k + 1],
                forall|k: int| j <= k < self.a@.len() ==> self.a@[k] == pre.a@[k],
            decreases self.n - j,
        {
            let v = self.a[j + 1];
            self.a[j] = v;
            j += 1;
        }
        self.n = self.n - 1;
        proof {
            assert(self@ =~= pre@.remove(i as int));
        }
        let ghost mid = *self;
        if self.n <= self.a.len() / 3 {
            self.resize();
        }
        proof {
            assert(final(self)@ == mid@);
        }
        x
    }
}

} // verus!
