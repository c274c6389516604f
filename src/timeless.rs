//! The change journal that makes every step reversible.
use vstd::prelude::*;

verus! {

/// Abstract state of a change journal: the current step and, for every step
/// reached so far, the changes recorded during that step in insertion order.
pub ghost struct JournalState<T> {
    pub time: nat,
    pub buckets: Seq<Seq<T>>,
}

impl<T> JournalState<T> {
    /// The bucket of the current step exists, and the buckets fit in memory.
    pub open spec fn inv(self) -> bool {
        self.time < self.buckets.len() <= usize::MAX
    }
}

/// A journal of change records kept per execution step, so that each step can
/// be undone by replaying its records in reverse order.
pub struct TimelessEngine<T> {
    time_step: usize,
    changes: Vec<Vec<T>>,
}

impl<T> View for TimelessEngine<T> {
    type V = JournalState<T>;

    closed spec fn view(&self) -> JournalState<T> {
        JournalState {
            time: self.time_step as nat,
            buckets: self.changes@.map_values(|b: Vec<T>| b@),
        }
    }
}

impl<T> TimelessEngine<T> {
    /// Well-formedness: the bucket of the current step exists.
    pub open spec fn wf(&self) -> bool {
        self@.inv()
    }

    /// An empty journal at step zero.
    pub fn new() -> (r: Self)
        ensures
            r.wf(),
            r@.time == 0,
            r@.buckets == seq![Seq::<T>::empty()],
    {
        let mut changes: Vec<Vec<T>> = Vec::new();
        changes.push(Vec::new());
        let r = TimelessEngine { time_step: 0, changes };
        assert(r.changes.len() <= usize::MAX);
        assert(r@.buckets =~= seq![Seq::<T>::empty()]);
        r
    }

    /// The current step.
    pub fn time(&self) -> (r: usize)
        ensures
            r == self@.time,
    {
        self.time_step
    }

    /// Advances the step counter by one, opening an empty bucket for the new
    /// step if it was never reached before.
    pub fn step_forward(&mut self)
        requires
            old(self).wf(),
        ensures
            final(self).wf(),
            final(self)@.time == old(self)@.time + 1,
            final(self)@.buckets == (if old(self)@.time + 1 < old(self)@.buckets.len() {
                old(self)@.buckets
            } else {
                old(self)@.buckets.push(Seq::<T>::empty())
            }),
    {
        let reached = self.changes.len();
        self.time_step = self.time_step + 1;
        if self.time_step >= reached {
            self.changes.push(Vec::new());
        }
        assert(self.changes.len() <= usize::MAX);
        assert(self@.buckets =~= (if old(self)@.time + 1 < old(self)@.buckets.len() {
            old(self)@.buckets
        } else {
            old(self)@.buckets.push(Seq::<T>::empty())
        }));
    }

    /// Steps back one step: at step zero nothing happens and `None` comes back;
    /// otherwise the counter goes down by one and the bucket of the step now
    /// current is handed out and left empty.
    pub fn step_backward(&mut self) -> (r: Option<Vec<T>>)
        requires
            old(self).wf(),
        ensures
            final(self).wf(),
            old(self)@.time == 0 ==> r is None && final(self)@ == old(self)@,
            old(self)@.time > 0 ==> {
                let t = (old(self)@.time - 1) as int;
                &&& r is Some
                &&& r->0@ == old(self)@.buckets[t]
                &&& final(self)@.time == t
                &&& final(self)@.buckets == old(self)@.buckets.update(t, Seq::<T>::empty())
            },
    {
        if self.time_step == 0 {
            return None;
        }
        self.time_step = self.time_step - 1;
        let mut bucket: Vec<T> = Vec::new();
        self.changes.set_and_swap(self.time_step, &mut bucket);
        proof {
            let t = self.time_step as int;
            assert(self.changes.len() <= usize::MAX);
            assert(self@.buckets =~= old(self)@.buckets.update(t, Seq::<T>::empty()));
        }
        Some(bucket)
    }

    /// Records a change in the bucket of the current step.
    pub fn add_change(&mut self, change: T)
        requires
            old(self).wf(),
        ensures
            final(self).wf(),
            final(self)@.time == old(self)@.time,
            final(self)@.buckets == old(self)@.buckets.update(
                old(self)@.time as int,
                old(self)@.buckets[old(self)@.time as int].push(change),
            ),
    {
        let t = self.time_step;
        let mut bucket: Vec<T> = Vec::new();
        self.changes.set_and_swap(t, &mut bucket);
        bucket.push(change);
        self.changes.set_and_swap(t, &mut bucket);
        proof {
            assert(self.changes.len() <= usize::MAX);
            assert(self@.buckets =~= old(self)@.buckets.update(
                old(self)@.time as int,
                old(self)@.buckets[old(self)@.time as int].push(change),
            ));
        }
    }
}

} // verus!
