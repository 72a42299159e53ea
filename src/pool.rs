use vstd::prelude::*;
use std::collections::VecDeque;

verus! {

/// The queue that a fixed set of workers share: jobs go in at the back and
/// come out at the front, each exactly once. Besides the waiting jobs it
/// records every job ever submitted and every job handed out.
pub struct JobQueue<T> {
    waiting: VecDeque<T>,
    closed: bool,
    submitted: Ghost<Seq<T>>,
    taken: Ghost<Seq<T>>,
}

impl<T> JobQueue<T> {
    /// The jobs waiting, oldest first.
    pub closed spec fn waiting(&self) -> Seq<T> {
        self.waiting@
    }

    /// Every job accepted so far, in order.
    pub closed spec fn submitted(&self) -> Seq<T> {
        self.submitted@
    }

    /// Every job handed to a worker so far, in order.
    pub closed spec fn taken(&self) -> Seq<T> {
        self.taken@
    }

    pub closed spec fn is_closed(&self) -> bool {
        self.closed
    }

    /// No job is lost or handed out twice: the jobs handed out, followed by
    /// those waiting, are exactly the jobs submitted.
    pub closed spec fn wf(&self) -> bool {
        self.taken@ + self.waiting@ == self.submitted@
    }

    /// An open queue with no jobs.
    pub fn new() -> (r: JobQueue<T>)
        ensures
            r.wf(),
            !r.is_closed(),
            r.waiting() == Seq::<T>::empty(),
            r.submitted() == Seq::<T>::empty(),
            r.taken() == Seq::<T>::empty(),
    {
        let r = JobQueue {
            waiting: VecDeque::new(),
            closed: false,
            submitted: Ghost(Seq::empty()),
            taken: Ghost(Seq::empty()),
        };
        assert(r.taken@ + r.waiting@ =~= r.submitted@);
        r
    }

    /// Adds a job at the back; a closed queue refuses it and hands it back.
    pub fn submit(&mut self, job: T) -> (r: Result<(), T>)
        requires
            old(self).wf(),
        ensures
            final(self).wf(),
            final(self).is_closed() == old(self).is_closed(),
            final(self).taken() == old(self).taken(),
            old(self).is_closed() ==> {
                &&& r == Err::<(), T>(job)
                &&& final(self).waiting() == old(self).waiting()
                &&& final(self).submitted() == old(self).submitted()
            },
            !old(self).is_closed() ==> {
                &&& r is Ok
                &&& final(self).waiting() == old(self).waiting().push(job)
                &&& final(self).submitted() == old(self).submitted().push(job)
            },
    {
        if self.closed {
            return Err(job);
        }
        proof {
            self.submitted@ = self.submitted@.push(job);
        }
        self.waiting.push_back(job);
        assert(self.taken@ + self.waiting@ =~= self.submitted@);
        Ok(())
    }

    /// Hands out the oldest waiting job, if there is one.
    pub fn take(&mut self) -> (r: Option<T>)
        requires
            old(self).wf(),
        ensures
            final(self).wf(),
            final(self).is_closed() == old(self).is_closed(),
            final(self).submitted() == old(self).submitted(),
            old(self).waiting().len() == 0 ==> {
                &&& r is None
                &&& final(self).waiting() == old(self).waiting()
                &&& final(self).taken() == old(self).taken()
            },
            old(self).waiting().len() > 0 ==> {
                &&& r == Some(old(self).waiting()[0])
                &&& final(self).waiting() == old(self).waiting().drop_first()
                &&& final(self).taken() == old(self).taken().push(old(self).waiting()[0])
            },
    {
        let r = self.waiting.pop_front();
        match r {
            Some(job) => {
                proof {
                    self.taken@ = self.taken@.push(job);
                }
                assert(self.taken@ + self.waiting@ =~= self.submitted@);
                Some(job)
            },
            None => None,
        }
    }

    /// Stops the queue from accepting jobs; those waiting stay to be taken.
    pub fn close(&mut self)
        requires
            old(self).wf(),
        ensures
            final(self).wf(),
            final(self).is_closed(),
            final(self).waiting() == old(self).waiting(),
            final(self).submitted() == old(self).submitted(),
            final(self).taken() == old(self).taken(),
    {
        self.closed = true;
    }

    /// Whether the queue refuses new jobs.
    pub fn closed(&self) -> (r: bool)
        ensures
            r == self.is_closed(),
    {
        self.closed
    }

    /// Number of jobs waiting.
    pub fn len(&self) -> (r: usize)
        ensures
            r == self.waiting().len(),
    {
        self.waiting.len()
    }
}

/// Once no job waits, every job that was submitted has been handed out
/// exactly once, in the order of submission.
pub proof fn lemma_each_job_once<T>(q: JobQueue<T>)
    requires
        q.wf(),
        q.waiting().len() == 0,
    ensures
        q.taken() == q.submitted(),
{
    assert(q.taken@ + q.waiting@ =~= q.taken@);
}

} // verus!
