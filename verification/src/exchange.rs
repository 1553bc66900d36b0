//! A request that is tried at the servers in turn until one answers it.
use crate::attempt::{AttemptError, AttemptErrorView, Plan, PlanView};
use crate::client::{Error, ErrorView};
use crate::config::Duration;
use crate::machine::{self, Machine, Step, StepView};
use crate::proto::{Message, MessageView};
use vstd::prelude::*;

verus! {

/// A call that an exchange needs.
#[derive(Debug, PartialEq, Eq)]
pub enum ExchangeCall {
    /// Make an attempt.
    Try(Plan),
    /// Wait before the next round.
    Sleep(Duration),
}

/// A call as a value.
pub enum ExchangeCallView {
    Try(PlanView),
    Sleep(Duration),
}

impl View for ExchangeCall {
    type V = ExchangeCallView;

    open spec fn view(&self) -> ExchangeCallView {
        match self {
            ExchangeCall::Try(plan) => ExchangeCallView::Try(plan@),
            ExchangeCall::Sleep(delay) => ExchangeCallView::Sleep(*delay),
        }
    }
}

/// What came of a call.
#[derive(Debug, PartialEq, Eq)]
pub enum ExchangeEvent {
    /// The attempt ended.
    Tried(Result<Message, AttemptError>),
    /// The wait is over.
    Slept,
}

/// What came of a call, as a value.
pub enum ExchangeEventView {
    Tried(Result<MessageView, AttemptErrorView>),
    Slept,
}

impl View for ExchangeEvent {
    type V = ExchangeEventView;

    open spec fn view(&self) -> ExchangeEventView {
        match self {
            ExchangeEvent::Tried(Ok(reply)) => ExchangeEventView::Tried(Ok(reply@)),
            ExchangeEvent::Tried(Err(error)) => ExchangeEventView::Tried(Err(error@)),
            ExchangeEvent::Slept => ExchangeEventView::Slept,
        }
    }
}

/// Whether an event can come of a call.
pub open spec fn can_answer(call: ExchangeCallView, event: ExchangeEventView) -> bool {
    match call {
        ExchangeCallView::Try(_) => event is Tried,
        ExchangeCallView::Sleep(_) => event is Slept,
    }
}

/// Whether an event can come of a call.
pub fn answers(call: &ExchangeCall, event: &ExchangeEvent) -> (fits: bool)
    ensures
        fits == can_answer(call@, event@),
{
    match call {
        ExchangeCall::Try(_) => matches!(event, ExchangeEvent::Tried(_)),
        ExchangeCall::Sleep(_) => matches!(event, ExchangeEvent::Slept),
    }
}

/// A request that is tried at the servers in turn, in one or more rounds.
#[derive(Debug, PartialEq, Eq)]
pub struct Exchange {
    plans: Vec<Plan>,
    rounds: u32,
    delay: Duration,
    round: u32,
    server: usize,
    sleeping: bool,
}

/// An exchange as a value.
pub struct ExchangeView {
    /// One plan for each server.
    pub plans: Seq<PlanView>,
    /// Number of rounds.
    pub rounds: int,
    /// Time between rounds.
    pub delay: Duration,
    /// Round that is under way.
    pub round: int,
    /// Server that is tried.
    pub server: int,
    /// Whether the round has failed and the next one is waited for.
    pub sleeping: bool,
}

/// The values of plans.
pub open spec fn plan_views(plans: Seq<Plan>) -> Seq<PlanView> {
    Seq::new(plans.len(), |i: int| plans[i]@)
}

impl View for Exchange {
    type V = ExchangeView;

    closed spec fn view(&self) -> ExchangeView {
        ExchangeView {
            plans: plan_views(self.plans@),
            rounds: self.rounds as int,
            delay: self.delay,
            round: self.round as int,
            server: self.server as int,
            sleeping: self.sleeping,
        }
    }
}

impl ExchangeView {
    /// The exchange before its first attempt.
    pub open spec fn start(plans: Seq<PlanView>, rounds: int, delay: Duration) -> Self {
        ExchangeView { plans, rounds, delay, round: 0, server: 0, sleeping: false }
    }

    /// There is a server to try and a round to try it in.
    pub open spec fn wf(self) -> bool {
        &&& 0 <= self.server < self.plans.len()
        &&& 0 <= self.round < self.rounds
        &&& self.sleeping ==> self.round + 1 < self.rounds
    }
}

impl Machine for ExchangeView {
    type Call = ExchangeCallView;

    type Event = ExchangeEventView;

    type Value = MessageView;

    type Failure = ErrorView;

    open spec fn call(self) -> ExchangeCallView {
        if self.sleeping {
            ExchangeCallView::Sleep(self.delay)
        } else {
            ExchangeCallView::Try(self.plans[self.server])
        }
    }

    open spec fn next(self, event: ExchangeEventView) -> StepView<
        ExchangeView,
        MessageView,
        ErrorView,
    > {
        match event {
            ExchangeEventView::Slept => StepView::Next(
                ExchangeView { round: self.round + 1, server: 0, sleeping: false, ..self },
            ),
            ExchangeEventView::Tried(Ok(reply)) => StepView::Finished(Ok(reply)),
            ExchangeEventView::Tried(Err(AttemptErrorView::Return(error))) => StepView::Finished(
                Err(error),
            ),
            ExchangeEventView::Tried(Err(AttemptErrorView::Retry(error))) => {
                if self.server + 1 < self.plans.len() {
                    StepView::Next(ExchangeView { server: self.server + 1, ..self })
                } else if self.round + 1 < self.rounds {
                    StepView::Next(ExchangeView { sleeping: true, ..self })
                } else {
                    StepView::Finished(Err(error))
                }
            },
        }
    }
}

impl Exchange {
    #[verifier::type_invariant]
    spec fn inv(self) -> bool {
        self@.wf()
    }

    /// Begins an exchange.
    pub fn start(plans: Vec<Plan>, rounds: u32, delay: Duration) -> (exchange: Self)
        requires
            plans@.len() > 0,
            rounds > 0,
        ensures
            exchange@ == ExchangeView::start(plan_views(plans@), rounds as int, delay),
            exchange@.wf(),
    {
        Exchange { plans, rounds, delay, round: 0, server: 0, sleeping: false }
    }

    /// The call that is due.
    pub fn call(&self) -> (call: ExchangeCall)
        ensures
            call@ == self@.call(),
    {
        proof {
            use_type_invariant(self);
        }
        if self.sleeping {
            ExchangeCall::Sleep(self.delay)
        } else {
            ExchangeCall::Try(self.plans[self.server].clone())
        }
    }

    /// Goes on with what came of the call.
    pub fn step(self, event: ExchangeEvent) -> (step: Step<Exchange, Message, Error>)
        requires
            can_answer(self@.call(), event@),
        ensures
            step@ == self@.next(event@),
    {
        proof {
            use_type_invariant(&self);
        }
        let Exchange { plans, rounds, delay, round, server, sleeping } = self;
        let servers: usize = plans.len();
        match event {
            ExchangeEvent::Slept => Step::Next(
                Exchange { plans, rounds, delay, round: round + 1, server: 0, sleeping: false },
            ),
            ExchangeEvent::Tried(Ok(reply)) => Step::Finished(Ok(reply)),
            ExchangeEvent::Tried(Err(AttemptError::Return(error))) => Step::Finished(Err(error)),
            ExchangeEvent::Tried(Err(AttemptError::Retry(error))) => {
                if server + 1 < servers {
                    Step::Next(
                        Exchange { plans, rounds, delay, round, server: server + 1, sleeping },
                    )
                } else if round + 1 < rounds {
                    Step::Next(Exchange { plans, rounds, delay, round, server, sleeping: true })
                } else {
                    Step::Finished(Err(error))
                }
            },
        }
    }
}

/// The attempts of one round: one at each server, in their order.
pub open spec fn round_calls(plans: Seq<PlanView>) -> Seq<ExchangeCallView> {
    Seq::new(plans.len(), |i: int| ExchangeCallView::Try(plans[i]))
}

/// The calls of rounds that all fail: the attempts of each round, and a wait
/// between one round and the next.
pub open spec fn failing_calls(plans: Seq<PlanView>, delay: Duration, rounds: int) -> Seq<
    ExchangeCallView,
>
    decreases rounds,
{
    if rounds <= 1 {
        round_calls(plans)
    } else {
        round_calls(plans) + (seq![ExchangeCallView::Sleep(delay)] + failing_calls(
            plans,
            delay,
            rounds - 1,
        ))
    }
}

/// The events of a round that fails.
pub open spec fn round_failures(
    errors: spec_fn(int, int) -> ErrorView,
    round: int,
    servers: nat,
) -> Seq<ExchangeEventView> {
    Seq::new(
        servers,
        |i: int| ExchangeEventView::Tried(Err(AttemptErrorView::Retry(errors(round, i)))),
    )
}

/// The events of the rounds from `round` on, if every attempt fails in a way
/// that allows another one.
pub open spec fn all_failures(
    errors: spec_fn(int, int) -> ErrorView,
    round: int,
    rounds: int,
    servers: nat,
) -> Seq<ExchangeEventView>
    decreases rounds - round,
{
    if round + 1 >= rounds {
        round_failures(errors, round, servers)
    } else {
        round_failures(errors, round, servers) + (seq![ExchangeEventView::Slept] + all_failures(
            errors,
            round + 1,
            rounds,
            servers,
        ))
    }
}

/// A round that fails from one server on.
proof fn lemma_round(
    exchange: ExchangeView,
    errors: spec_fn(int, int) -> ErrorView,
    tail: Seq<ExchangeEventView>,
)
    requires
        exchange.wf(),
        !exchange.sleeping,
    ensures
        ({
            let events = round_failures(errors, exchange.round, exchange.plans.len()).skip(
                exchange.server,
            ) + tail;
            let calls = round_calls(exchange.plans).skip(exchange.server);
            if exchange.round + 1 < exchange.rounds {
                let rest = machine::run(
                    ExchangeView {
                        server: exchange.plans.len() - 1,
                        sleeping: true,
                        ..exchange
                    },
                    tail,
                );
                machine::run(exchange, events) == (calls + rest.0, rest.1)
            } else {
                machine::run(exchange, events) == (
                    calls,
                    StepView::<ExchangeView, MessageView, ErrorView>::Finished(
                        Err(errors(exchange.round, exchange.plans.len() - 1)),
                    ),
                )
            }
        }),
    decreases exchange.plans.len() - exchange.server,
{
    let servers = exchange.plans.len();
    let failures = round_failures(errors, exchange.round, servers);
    let first = failures[exchange.server];
    let calls = round_calls(exchange.plans);
    let events = failures.skip(exchange.server) + tail;
    let later = failures.skip(exchange.server + 1) + tail;
    assert(events =~= seq![first] + later);
    machine::lemma_run_first(exchange, first, later);
    assert(calls.skip(exchange.server) =~= seq![exchange.call()] + calls.skip(exchange.server + 1));
    if exchange.server + 1 < servers {
        let next = ExchangeView { server: exchange.server + 1, ..exchange };
        lemma_round(next, errors, tail);
        if exchange.round + 1 < exchange.rounds {
            let rest = machine::run(
                ExchangeView { server: servers - 1, sleeping: true, ..exchange },
                tail,
            );
            assert(seq![exchange.call()] + (calls.skip(exchange.server + 1) + rest.0)
                =~= calls.skip(exchange.server) + rest.0);
        }
    } else {
        assert(later =~= tail);
        assert(calls.skip(exchange.server + 1) =~= Seq::empty());
        assert(calls.skip(exchange.server) =~= seq![exchange.call()]);
    }
}

proof fn lemma_all_failures(exchange: ExchangeView, errors: spec_fn(int, int) -> ErrorView)
    requires
        exchange.wf(),
        !exchange.sleeping,
        exchange.server == 0,
    ensures
        machine::run(
            exchange,
            all_failures(errors, exchange.round, exchange.rounds, exchange.plans.len()),
        ) == (
            failing_calls(exchange.plans, exchange.delay, exchange.rounds - exchange.round),
            StepView::<ExchangeView, MessageView, ErrorView>::Finished(
                Err(errors(exchange.rounds - 1, exchange.plans.len() - 1)),
            ),
        ),
    decreases exchange.rounds - exchange.round,
{
    let servers = exchange.plans.len();
    let failures = round_failures(errors, exchange.round, servers);
    assert(failures.skip(0) =~= failures);
    assert(round_calls(exchange.plans).skip(0) =~= round_calls(exchange.plans));
    if exchange.round + 1 < exchange.rounds {
        let waiting = ExchangeView { server: servers - 1, sleeping: true, ..exchange };
        let next = ExchangeView {
            round: exchange.round + 1,
            server: 0,
            sleeping: false,
            ..exchange
        };
        let later = all_failures(errors, exchange.round + 1, exchange.rounds, servers);
        lemma_all_failures(next, errors);
        machine::lemma_run_first(waiting, ExchangeEventView::Slept, later);
        assert(waiting.next(ExchangeEventView::Slept) == StepView::<
            ExchangeView,
            MessageView,
            ErrorView,
        >::Next(next));
        lemma_round(exchange, errors, seq![ExchangeEventView::Slept] + later);
    } else {
        assert(failures + Seq::empty() =~= failures);
        lemma_round(exchange, errors, Seq::empty());
    }
}

/// If every attempt fails in a way that allows another one, each server is
/// tried once in each round, the first one first; the delay is waited for
/// between rounds and not behind the last one; and the last failure is
/// returned.
pub proof fn law_rounds(
    plans: Seq<PlanView>,
    rounds: int,
    delay: Duration,
    errors: spec_fn(int, int) -> ErrorView,
)
    requires
        plans.len() > 0,
        rounds > 0,
    ensures
        machine::run(
            ExchangeView::start(plans, rounds, delay),
            all_failures(errors, 0, rounds, plans.len()),
        ) == (
            failing_calls(plans, delay, rounds),
            StepView::<ExchangeView, MessageView, ErrorView>::Finished(
                Err(errors(rounds - 1, plans.len() - 1)),
            ),
        ),
{
    lemma_all_failures(ExchangeView::start(plans, rounds, delay), errors);
}

/// An answer ends the exchange, and so does a failure that allows no other
/// attempt.
pub proof fn law_answer_ends_exchange(
    exchange: ExchangeView,
    reply: MessageView,
    error: ErrorView,
)
    ensures
        exchange.next(ExchangeEventView::Tried(Ok(reply))) == StepView::<
            ExchangeView,
            MessageView,
            ErrorView,
        >::Finished(Ok(reply)),
        exchange.next(ExchangeEventView::Tried(Err(AttemptErrorView::Return(error))))
            == StepView::<ExchangeView, MessageView, ErrorView>::Finished(Err(error)),
{
}

/// How many calls are left of an exchange, at most.
pub open spec fn calls_left(exchange: ExchangeView) -> int {
    let in_later_rounds = (exchange.rounds - exchange.round - 1) * (exchange.plans.len() + 1);
    if exchange.sleeping {
        in_later_rounds
    } else {
        in_later_rounds + exchange.plans.len() - exchange.server
    }
}

/// Every exchange ends: each call brings the end nearer, and the servers, the
/// number of rounds and the delay stay as they are.
pub proof fn law_exchange_ends(exchange: ExchangeView, event: ExchangeEventView)
    requires
        exchange.wf(),
        can_answer(exchange.call(), event),
    ensures
        exchange.next(event) matches StepView::Next(next) ==> {
            &&& next.wf()
            &&& next.plans == exchange.plans
            &&& next.rounds == exchange.rounds
            &&& next.delay == exchange.delay
            &&& 0 < calls_left(next) < calls_left(exchange)
        },
{
    let later = exchange.rounds - exchange.round - 1;
    let width = exchange.plans.len() + 1;
    assert((later - 1) * width == later * width - width) by (nonlinear_arith);
    assert(later >= 0 && width >= 0 ==> later * width >= 0) by (nonlinear_arith);
    assert(later >= 1 && width >= 1 ==> (later - 1) * width >= 0) by (nonlinear_arith);
}

/// An attempt ends with a reply or a failure, and a wait ends in one way.
pub proof fn law_events_fit_calls(
    plan: PlanView,
    delay: Duration,
    outcome: Result<MessageView, AttemptErrorView>,
)
    ensures
        can_answer(ExchangeCallView::Try(plan), ExchangeEventView::Tried(outcome)),
        !can_answer(ExchangeCallView::Try(plan), ExchangeEventView::Slept),
        can_answer(ExchangeCallView::Sleep(delay), ExchangeEventView::Slept),
        !can_answer(ExchangeCallView::Sleep(delay), ExchangeEventView::Tried(outcome)),
{
}

} // verus!
