//! State machines that ask for one call at a time and go on with what came of
//! it.
use vstd::prelude::*;

verus! {

/// Where a state machine stands after a step.
#[derive(Debug, PartialEq, Eq)]
pub enum Step<M, T, E> {
    /// It goes on from a state.
    Next(M),
    /// It has come to its result.
    Finished(Result<T, E>),
}

/// A step as a value.
pub enum StepView<M, T, E> {
    Next(M),
    Finished(Result<T, E>),
}

impl<M: View, T: View, E: View> View for Step<M, T, E> {
    type V = StepView<M::V, T::V, E::V>;

    open spec fn view(&self) -> StepView<M::V, T::V, E::V> {
        match self {
            Step::Next(state) => StepView::Next(state@),
            Step::Finished(Ok(value)) => StepView::Finished(Ok(value@)),
            Step::Finished(Err(error)) => StepView::Finished(Err(error@)),
        }
    }
}

/// A state machine: each of its states asks for a call, and what came of the
/// call decides where it goes.
pub trait Machine: Sized {
    /// The calls it asks for.
    type Call;

    /// What can come of a call.
    type Event;

    /// What it returns.
    type Value;

    /// How it fails.
    type Failure;

    /// The call that is due.
    spec fn call(self) -> Self::Call;

    /// What an event leads to.
    spec fn next(self, event: Self::Event) -> StepView<Self, Self::Value, Self::Failure>;
}

/// The calls that a machine asks for as the events come in, and where it
/// stands behind them. Events behind its end are passed over.
pub open spec fn run<M: Machine>(state: M, events: Seq<M::Event>) -> (
    Seq<M::Call>,
    StepView<M, M::Value, M::Failure>,
)
    decreases events.len(),
{
    if events.len() == 0 {
        (Seq::empty(), StepView::Next(state))
    } else {
        match state.next(events[0]) {
            StepView::Next(next) => {
                let rest = run(next, events.skip(1));
                (seq![state.call()] + rest.0, rest.1)
            },
            StepView::Finished(result) => (seq![state.call()], StepView::Finished(result)),
        }
    }
}

/// A run whose first event is known.
pub proof fn lemma_run_first<M: Machine>(state: M, event: M::Event, events: Seq<M::Event>)
    ensures
        match state.next(event) {
            StepView::Next(next) => run(state, seq![event] + events) == (
                seq![state.call()] + run(next, events).0,
                run(next, events).1,
            ),
            StepView::Finished(result) => run(state, seq![event] + events) == (
                seq![state.call()],
                StepView::<M, M::Value, M::Failure>::Finished(result),
            ),
        },
{
    assert((seq![event] + events).skip(1) =~= events);
}

/// A run that has not come to its end goes on with the events behind it.
pub proof fn lemma_run_on<M: Machine>(state: M, events: Seq<M::Event>, more: Seq<M::Event>)
    ensures
        run(state, events).1 matches StepView::Next(next) ==> run(state, events + more) == (
            run(state, events).0 + run(next, more).0,
            run(next, more).1,
        ),
    decreases events.len(),
{
    if events.len() == 0 {
        assert(events + more =~= more);
        assert(Seq::<M::Call>::empty() + run(state, more).0 =~= run(state, more).0);
    } else {
        let rest = events.skip(1);
        assert((events + more)[0] == events[0]);
        assert((events + more).skip(1) =~= rest + more);
        if let StepView::Next(next) = state.next(events[0]) {
            lemma_run_on(next, rest, more);
            if let StepView::Next(end) = run(next, rest).1 {
                assert(seq![state.call()] + (run(next, rest).0 + run(end, more).0) =~= (seq![
                    state.call(),
                ] + run(next, rest).0) + run(end, more).0);
            }
        }
    }
}

} // verus!
