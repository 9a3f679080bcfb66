//! A deduplicating FIFO of pending work.
//!
//! Jobs that are structurally equal collapse to one queued instance;
//! distinct jobs keep their arrival order.

use vstd::prelude::*;
use vstd::pervasive::cloned;
use vstd::std_specs::cmp::PartialEqSpec;
use std::collections::VecDeque;

verus! {

/// Whether an element structurally equal to `x` is already queued in `s`.
pub open spec fn queued<T: PartialEq>(s: Seq<T>, x: T) -> bool {
    exists|i: int| 0 <= i < s.len() && #[trigger] s[i].eq_spec(&x)
}

/// A FIFO of pending work items with structural deduplication on entry.
pub struct WorkQueue<T: PartialEq + Clone> {
    pub inner: VecDeque<T>,
}

impl<T: PartialEq + Clone> WorkQueue<T> {
    /// An empty queue.
    pub fn new() -> (r: Self)
        ensures
            r.inner@ =~= Seq::<T>::empty(),
    {
        WorkQueue { inner: VecDeque::new() }
    }

    /// Pops the front element, or reports that the queue is empty.
    pub fn get_work(&mut self) -> (r: Option<T>)
        ensures
            old(self).inner@.len() == 0 ==> r is None && final(self).inner@ == old(self).inner@,
            old(self).inner@.len() > 0 ==> {
                &&& r == Option::Some(old(self).inner@[0])
                &&& final(self).inner@ == old(self).inner@.drop_first()
            },
    {
        self.inner.pop_front()
    }

    /// Appends `work` unless a structurally equal item is already queued,
    /// and returns the resulting queue length.
    pub fn add_work(&mut self, work: T) -> (r: usize)
        ensures
            r == final(self).inner@.len(),
            final(self).inner@ == old(self).inner@ || final(self).inner@ == old(
                self,
            ).inner@.push(work),
            T::obeys_eq_spec() ==> final(self).inner@ == if queued(old(self).inner@, work) {
                old(self).inner@
            } else {
                old(self).inner@.push(work)
            },
    {
        let ghost s = self.inner@;
        let mut present = false;
        let mut i: usize = 0;
        while i < self.inner.len()
            invariant_except_break
                *self == *old(self),
                s == self.inner@,
                i <= s.len(),
                !present,
                T::obeys_eq_spec() ==> forall|j: int| 0 <= j < i ==> !(#[trigger] s[j].eq_spec(
                    &work,
                )),
            ensures
                *self == *old(self),
                s == self.inner@,
                T::obeys_eq_spec() ==> present == queued(s, work),
            decreases s.len() - i,
        {
            if self.inner[i] == work {
                proof {
                    if T::obeys_eq_spec() {
                        assert(s[i as int].eq_spec(&work));
                    }
                }
                present = true;
                break;
            }
            i += 1;
        }
        if !present {
            self.inner.push_back(work);
        }
        self.inner.len()
    }

    /// A filtered copy of the queue: clones of the queued elements the
    /// predicate accepts, in queue order; the queue itself is unchanged.
    pub fn retain<F: Fn(&T) -> bool>(&self, f: F) -> (r: VecDeque<T>)
        requires
            forall|x: &T| #[trigger] f.requires((x,)),
        ensures
            exists|sel: Seq<int>| #[trigger] filtered_from(self.inner@, f, r@, sel),
    {
        let mut out: VecDeque<T> = VecDeque::new();
        let ghost mut sel: Seq<int> = Seq::empty();
        let mut i: usize = 0;
        while i < self.inner.len()
            invariant
                i <= self.inner@.len(),
                forall|x: &T| #[trigger] f.requires((x,)),
                sel.len() == out@.len(),
                forall|k: int| 0 <= k < sel.len() ==> 0 <= #[trigger] sel[k] < i,
                forall|k: int, l: int| 0 <= k < l < sel.len() ==> sel[k] < sel[l],
                forall|k: int|
                    0 <= k < sel.len() ==> cloned::<T>(self.inner@[#[trigger] sel[k]], out@[k])
                        && f.ensures((&self.inner@[sel[k]],), true),
                forall|j: int|
                    0 <= j < i ==> sel.contains(j) || f.ensures((&self.inner@[j],), false),
            decreases self.inner@.len() - i,
        {
            let item = &self.inner[i];
            if f(item) {
                let ghost prior = out@;
                out.push_back(item.clone());
                proof {
                    assert(out@ =~= prior.push(out@.last()));
                    let old_sel = sel;
                    sel = sel.push(i as int);
                    assert(sel.last() == i as int);
                    assert forall|j: int|
                        0 <= j < i + 1 implies sel.contains(j) || f.ensures(
                        (&self.inner@[j],),
                        false,
                    ) by {
                        if j == i {
                            assert(sel[sel.len() - 1] == j);
                        } else {
                            if old_sel.contains(j) {
                                let k = choose|k: int| 0 <= k < old_sel.len() && old_sel[k] == j;
                                assert(sel[k] == j);
                            }
                        }
                    }
                }
            } else {
                proof {
                    assert(f.ensures((&self.inner@[i as int],), false));
                }
            }
            i += 1;
        }
        proof {
            assert(filtered_from(self.inner@, f, out@, sel));
        }
        out
    }
}

/// `r` was selected out of `src` by the predicate `f`: `sel` lists, in
/// increasing order, the positions whose element `f` accepted, `r` holds a
/// clone of each in that order, and `f` rejected every position left out.
pub open spec fn filtered_from<T: Clone, F: Fn(&T) -> bool>(
    src: Seq<T>,
    f: F,
    r: Seq<T>,
    sel: Seq<int>,
) -> bool {
    &&& sel.len() == r.len()
    &&& forall|k: int| 0 <= k < sel.len() ==> 0 <= #[trigger] sel[k] < src.len()
    &&& forall|k: int, l: int| 0 <= k < l < sel.len() ==> sel[k] < sel[l]
    &&& forall|k: int|
        0 <= k < sel.len() ==> cloned::<T>(src[#[trigger] sel[k]], r[k]) && f.ensures(
            (&src[sel[k]],),
            true,
        )
    &&& forall|j: int| 0 <= j < src.len() ==> sel.contains(j) || f.ensures((&src[j],), false)
}

} // verus!
