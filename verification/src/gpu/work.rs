//! Admission of work: a bounded queue, reservation for the processor, and a
//! failure that stays.
use std::collections::VecDeque;
use vstd::prelude::*;

verus! {

pub const CAPACITY: usize = 8;

/// Why work is not taken.
#[derive(Debug, PartialEq, Eq)]
pub enum Refusal<E> {
    /// Try again.
    Busy,
    /// The device is gone.
    Failed(E),
}

/// Work that was taken and is not retired. Work that was being done when the device
/// failed counts for ever: it may still own memory.
pub struct WorkQueue<T, E> {
    queue: VecDeque<T>,
    outstanding: usize,
    cpu_access: bool,
    failure: Option<E>,
}

/// A queue as it is seen from outside.
pub struct QueueView<T, E> {
    pub queue: Seq<T>,
    pub outstanding: nat,
    pub cpu_access: bool,
    pub failure: Option<E>,
}

impl<T, E> View for WorkQueue<T, E> {
    type V = QueueView<T, E>;

    closed spec fn view(&self) -> QueueView<T, E> {
        QueueView {
            queue: self.queue@,
            outstanding: self.outstanding as nat,
            cpu_access: self.cpu_access,
            failure: self.failure,
        }
    }
}

impl<T, E> QueueView<T, E> {
    /// What waits is among what is outstanding, and that is bounded.
    pub open spec fn wf(self) -> bool {
        self.queue.len() <= self.outstanding <= CAPACITY
    }

    /// Why new work would not be taken.
    pub open spec fn refusal(self) -> Option<Refusal<E>> {
        match self.failure {
            Some(error) => Some(Refusal::Failed(error)),
            None => if self.cpu_access || self.outstanding >= CAPACITY {
                Some(Refusal::Busy)
            } else {
                None
            },
        }
    }

    pub open spec fn accepted(self, item: T) -> Self {
        QueueView {
            queue: self.queue.push(item),
            outstanding: self.outstanding + 1,
            ..self
        }
    }

    pub open spec fn taken(self) -> Self {
        QueueView { queue: self.queue.skip(1), ..self }
    }

    pub open spec fn settled(self, lost: Option<E>) -> Self {
        match lost {
            Some(error) => QueueView { failure: Some(error), ..self },
            None => QueueView { outstanding: (self.outstanding - 1) as nat, ..self },
        }
    }

    pub open spec fn reserved(self, cpu_access: bool) -> Self {
        QueueView { cpu_access, ..self }
    }
}

impl<T, E: Copy> WorkQueue<T, E> {
    pub fn new() -> (r: Self)
        ensures
            r@.wf(),
            r@ == (QueueView {
                queue: Seq::<T>::empty(),
                outstanding: 0,
                cpu_access: false,
                failure: None::<E>,
            }),
    {
        WorkQueue { queue: VecDeque::new(), outstanding: 0, cpu_access: false, failure: None }
    }

    /// Whether work would be taken now.
    pub fn admission(&self) -> (r: Result<(), Refusal<E>>)
        requires
            self@.wf(),
        ensures
            match r {
                Ok(_) => self@.refusal() is None,
                Err(refusal) => self@.refusal() == Some(refusal),
            },
    {
        if let Some(error) = self.failure {
            return Err(Refusal::Failed(error));
        }
        if self.cpu_access || self.outstanding >= CAPACITY {
            return Err(Refusal::Busy);
        }
        Ok(())
    }

    /// Takes work, behind all that waits.
    pub fn accept(&mut self, item: T)
        requires
            old(self)@.wf(),
            old(self)@.refusal() is None,
        ensures
            final(self)@.wf(),
            final(self)@ == old(self)@.accepted(item),
    {
        self.queue.push_back(item);
        self.outstanding = self.outstanding + 1;
        assert(self@.queue =~= old(self)@.queue.push(item));
    }

    /// Reserves the device for the processor: no new work from now on. Nothing
    /// changes where it is reserved already.
    pub fn reserve(&mut self) -> (r: Result<bool, &'static str>)
        requires
            old(self)@.wf(),
        ensures
            final(self)@.wf(),
            old(self)@.failure is Some ==> r == Err::<bool, &'static str>("GM20B device lost")
                && final(self)@ == old(self)@,
            old(self)@.failure is None ==> r == Ok::<bool, &'static str>(!old(self)@.cpu_access)
                && final(self)@ == old(self)@.reserved(true),
    {
        if self.failure.is_some() {
            return Err("GM20B device lost");
        }
        if self.cpu_access {
            return Ok(false);
        }
        self.cpu_access = true;
        Ok(true)
    }

    /// Whether everything that was taken is retired.
    pub fn drained(&self) -> (r: Result<bool, &'static str>)
        requires
            self@.wf(),
        ensures
            r == if self@.failure is Some {
                Err::<bool, &'static str>("GM20B device lost")
            } else {
                Ok::<bool, &'static str>(self@.outstanding == 0)
            },
    {
        if self.failure.is_some() {
            return Err("GM20B device lost");
        }
        Ok(self.outstanding == 0)
    }

    /// Ends a reservation.
    pub fn release(&mut self)
        requires
            old(self)@.wf(),
        ensures
            final(self)@.wf(),
            final(self)@ == old(self)@.reserved(false),
    {
        self.cpu_access = false;
    }

    /// The work that has waited longest, and the failure that it must be answered
    /// with, if there is one.
    pub fn next(&mut self) -> (r: Option<(T, Option<E>)>)
        requires
            old(self)@.wf(),
        ensures
            final(self)@.wf(),
            match r {
                None => old(self)@.queue.len() == 0 && final(self)@ == old(self)@,
                Some((item, failure)) => {
                    &&& old(self)@.queue.len() > 0
                    &&& item == old(self)@.queue[0]
                    &&& failure == old(self)@.failure
                    &&& final(self)@ == old(self)@.taken()
                },
            },
    {
        match self.queue.pop_front() {
            None => {
                assert(self@.queue =~= old(self)@.queue);
                None
            },
            Some(item) => {
                assert(self@.queue =~= old(self)@.queue.skip(1));
                Some((item, self.failure))
            },
        }
    }

    /// Accounts for work that was taken from the queue and is over: retired, or
    /// lost with the device.
    pub fn settle(&mut self, lost: Option<E>)
        requires
            old(self)@.wf(),
            old(self)@.queue.len() < old(self)@.outstanding,
        ensures
            final(self)@.wf(),
            final(self)@ == old(self)@.settled(lost),
    {
        match lost {
            Some(error) => {
                self.failure = Some(error);
            },
            None => {
                self.outstanding = self.outstanding - 1;
            },
        }
        assert(self@.queue =~= old(self)@.queue);
    }
}

/// While the processor has the device, or once the device failed, no work is taken.
pub proof fn nothing_enters_a_reserved_or_failed_queue<T, E>(queue: QueueView<T, E>)
    requires
        queue.cpu_access || queue.failure is Some,
    ensures
        queue.refusal() is Some,
{
}

/// A failure never goes away, whatever else happens to the queue.
pub proof fn failures_stay<T, E>(queue: QueueView<T, E>, item: T, reserved: bool, lost: Option<E>)
    requires
        queue.failure is Some,
    ensures
        queue.accepted(item).failure is Some,
        queue.taken().failure is Some,
        queue.settled(lost).failure is Some,
        queue.reserved(reserved).failure is Some,
{
}

/// Work leaves in the order in which it came.
pub proof fn work_leaves_in_order<T, E>(queue: QueueView<T, E>, item: T)
    requires
        queue.queue.len() > 0,
    ensures
        queue.accepted(item).queue[0] == queue.queue[0],
        queue.accepted(item).taken() == queue.taken().accepted(item),
{
    assert(queue.accepted(item).taken().queue =~= queue.taken().accepted(item).queue);
}

/// Lost work keeps its place in the count.
pub proof fn lost_work_stays_outstanding<T, E>(queue: QueueView<T, E>, error: E)
    ensures
        queue.settled(Some(error)).outstanding == queue.outstanding,
{
}

/// A queue takes work while it is whole, not reserved, and fewer than eight are outstanding.
pub proof fn queues_hold_eight<T, E>(queue: QueueView<T, E>)
    ensures
        queue.refusal() is None <==> queue.failure is None && !queue.cpu_access && queue.outstanding
            < 8,
        queue.failure is None && (queue.cpu_access || queue.outstanding >= 8) ==> queue.refusal()
            == Some(Refusal::<E>::Busy),
{
}

} // verus!
