//! A double-ended queue interface: elements enter and leave at either end.

use vstd::prelude::*;

verus! {

/// A sequence of elements with access at both ends.
pub trait Deque<T> {
    /// The elements, front to back.
    spec fn deque_view(&self) -> Seq<T>;

    /// The implementation's well-formedness.
    spec fn deque_wf(&self) -> bool;

    /// Prepend an element.
    fn add_first(&mut self, x: T)
        requires
            old(self).deque_wf(),
        ensures
            final(self).deque_wf(),
            final(self).deque_view() == seq![x] + old(self).deque_view(),
    ;

    /// Remove and return the first element, if any.
    fn remove_first(&mut self) -> (r: Option<T>)
        requires
            old(self).deque_wf(),
        ensures
            final(self).deque_wf(),
            match r {
                Some(x) => old(self).deque_view().len() > 0 && x == old(self).deque_view()[0]
                    && final(self).deque_view() == old(self).deque_view().drop_first(),
                None => old(self).deque_view().len() == 0 && final(self).deque_view() == old(
                    self,
                ).deque_view(),
            },
    ;

    /// Append an element.
    fn add_last(&mut self, x: T)
        requires
            old(self).deque_wf(),
        ensures
            final(self).deque_wf(),
            final(self).deque_view() == old(self).deque_view().push(x),
    ;

    /// Remove and return the last element, if any.
    fn remove_last(&mut self) -> (r: Option<T>)
        requires
            old(self).deque_wf(),
        ensures
            final(self).deque_wf(),
            match r {
                Some(x) => old(self).deque_view().len() > 0 && x == old(self).deque_view().last()
                    && final(self).deque_view() == old(self).deque_view().drop_last(),
                None => old(self).deque_view().len() == 0 && final(self).deque_view() == old(
                    self,
                ).deque_view(),
            },
    ;
}

} // verus!
