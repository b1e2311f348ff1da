use vstd::prelude::*;

verus! {

/// What to do next while running invokables.
pub enum InvokeStep<I, E> {
    /// Run this invokable, then report its outcome to the rest of the run
    /// with `advance`.
    Run(I, InvokeRun<I>),
    /// The run is over, with this result; the run is used up.
    Finished(Result<(), E>),
}

/// A run of the invokables that were registered when it started: they are
/// handed out one by one, in the order of registration, until one fails.
/// A run that finishes is used up, so nothing runs after a failure.
pub struct InvokeRun<I> {
    pending: Vec<I>,
    started: Ghost<Seq<I>>,
    handed: Ghost<Seq<I>>,
}

impl<I> InvokeRun<I> {
    /// The run's record is consistent: what was handed out, then what is
    /// pending, is what the run started with.
    pub closed spec fn wf(&self) -> bool {
        self.handed@ + self.pending@ == self.started@
    }

    /// The invokables of the run, in order.
    pub closed spec fn started(&self) -> Seq<I> {
        self.started@
    }

    /// The invokables handed out so far, in order.
    pub closed spec fn handed(&self) -> Seq<I> {
        self.handed@
    }

    /// The invokables not handed out yet, in order.
    pub closed spec fn pending(&self) -> Seq<I> {
        self.pending@
    }

    /// Every invokable of a run is handed out or pending, in this order:
    /// those handed out are a prefix of the run, in the order of
    /// registration.
    pub proof fn lemma_partition(run: &InvokeRun<I>)
        requires
            run.wf(),
        ensures
            run.handed() + run.pending() == run.started(),
            run.handed().len() <= run.started().len(),
            forall|k: int|
                0 <= k < run.handed().len() ==> #[trigger] run.handed()[k] == run.started()[k],
    {
        assert forall|k: int| 0 <= k < run.handed().len() implies #[trigger] run.handed()[k]
            == run.started()[k] by {
            assert((run.handed() + run.pending())[k] == run.handed()[k]);
        }
    }

    /// A run over `queue`, with nothing handed out yet.
    pub fn new(queue: Vec<I>) -> (run: Self)
        ensures
            run.wf(),
            run.started() == queue@,
            run.handed() == Seq::<I>::empty(),
            run.pending() == queue@,
    {
        let ghost q = queue@;
        assert(Seq::<I>::empty() + q =~= q);
        InvokeRun { pending: queue, started: Ghost(q), handed: Ghost(Seq::empty()) }
    }

    /// Hands out the next invokable with the rest of the run, or finishes
    /// with success when none is left; a run that finishes with success has
    /// handed out all of its invokables, in order.
    pub fn next<E>(self) -> (step: InvokeStep<I, E>)
        requires
            self.wf(),
        ensures
            self.pending().len() == 0 ==> {
                &&& step == InvokeStep::<I, E>::Finished(Ok(()))
                &&& self.handed() == self.started()
            },
            self.pending().len() > 0 ==> (step matches InvokeStep::Run(item, rest) && {
                &&& item == self.pending()[0]
                &&& rest.wf()
                &&& rest.started() == self.started()
                &&& rest.handed() == self.handed().push(self.pending()[0])
                &&& rest.pending() == self.pending().drop_first()
            }),
    {
        let mut run = self;
        if run.pending.len() == 0 {
            assert(run.handed@ + run.pending@ =~= run.handed@);
            InvokeStep::Finished(Ok(()))
        } else {
            let ghost old_handed = run.handed@;
            let ghost old_pending = run.pending@;
            let item = run.pending.remove(0);
            run.handed = Ghost(old_handed.push(item));
            proof {
                assert(old_handed.push(item) + old_pending.drop_first() =~= old_handed
                    + old_pending);
            }
            InvokeStep::Run(item, run)
        }
    }

    /// Reports the outcome of the invokable handed out last: an error ends
    /// the run with that error, and the invokables still pending are dropped
    /// unrun; success goes on as `next`.
    pub fn advance<E>(self, outcome: Result<(), E>) -> (step: InvokeStep<I, E>)
        requires
            self.wf(),
        ensures
            outcome is Err ==> step == InvokeStep::<I, E>::Finished(outcome),
            outcome is Ok && self.pending().len() == 0 ==> {
                &&& step == InvokeStep::<I, E>::Finished(Ok(()))
                &&& self.handed() == self.started()
            },
            outcome is Ok && self.pending().len() > 0 ==> (step matches InvokeStep::Run(
                item,
                rest,
            ) && {
                &&& item == self.pending()[0]
                &&& rest.wf()
                &&& rest.started() == self.started()
                &&& rest.handed() == self.handed().push(self.pending()[0])
                &&& rest.pending() == self.pending().drop_first()
            }),
    {
        match outcome {
            Ok(()) => self.next(),
            Err(e) => InvokeStep::Finished(Err(e)),
        }
    }
}

} // verus!
