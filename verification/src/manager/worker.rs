//! The worker that fetches: one url at a time, with a rest after each fetch.
//!
//! Callers hand their urls to a bounded queue and wait for the answer. The
//! worker takes one request from the queue, fetches its url, hands the
//! result back, rests, and only then takes the next. A reserved entry of the
//! queue tells it to stop. The worker does not fetch or wait itself: it is
//! told what happened and says what to do next.

use vstd::prelude::*;

verus! {

/// How far the orchestrator is in its life.
#[derive(Clone, Copy, Debug, Eq, PartialEq, Structural)]
pub enum Phase {
    /// The worker takes requests.
    Running,
    /// The stop entry was taken: the queue is being closed and no request
    /// is taken any more.
    Draining,
    /// The worker has finished.
    Stopped,
}

/// What the worker is doing.
#[derive(Clone, Copy, Debug, Eq, PartialEq, Structural)]
pub enum Activity {
    /// Waiting for the next entry of the queue.
    Receiving,
    /// Waiting for the fetch of the request taken last.
    Fetching,
    /// Resting after a fetch.
    Resting,
    /// Waiting for the queue to close.
    Closing,
    /// Done.
    Finished,
}

/// What happened.
#[derive(Clone, Debug, Eq, PartialEq)]
pub enum Event {
    /// The queue gave a request for this url.
    Request(String),
    /// The queue gave the stop entry.
    Sentinel,
    /// The queue gave nothing more: it was closed, or every sender is gone.
    Closed,
    /// The fetch came back, with whatever result.
    Fetched,
    /// The rest is over.
    Rested,
}

/// What to do next.
#[derive(Clone, Debug, Eq, PartialEq)]
pub enum Action {
    /// Take the next entry from the queue.
    Receive,
    /// Fetch this url.
    Fetch(String),
    /// Hand the result to the caller that asked, if it still listens, and
    /// rest for so many milliseconds.
    ReplyAndRest(u64),
    /// Close the queue.
    Close,
    /// Finish.
    Stop,
    /// Nothing: the event is not one that the worker waits for.
    Ignore,
}

/// `Event` as plain values.
pub enum EventView {
    Request(Seq<char>),
    Sentinel,
    Closed,
    Fetched,
    Rested,
}

/// `Action` as plain values.
pub enum ActionView {
    Receive,
    Fetch(Seq<char>),
    ReplyAndRest(u64),
    Close,
    Stop,
    Ignore,
}

impl View for Event {
    type V = EventView;

    open spec fn view(&self) -> EventView {
        match self {
            Event::Request(url) => EventView::Request(url@),
            Event::Sentinel => EventView::Sentinel,
            Event::Closed => EventView::Closed,
            Event::Fetched => EventView::Fetched,
            Event::Rested => EventView::Rested,
        }
    }
}

impl View for Action {
    type V = ActionView;

    open spec fn view(&self) -> ActionView {
        match self {
            Action::Receive => ActionView::Receive,
            Action::Fetch(url) => ActionView::Fetch(url@),
            Action::ReplyAndRest(delay) => ActionView::ReplyAndRest(*delay),
            Action::Close => ActionView::Close,
            Action::Stop => ActionView::Stop,
            Action::Ignore => ActionView::Ignore,
        }
    }
}

/// The worker: what it is doing and how long it rests after a fetch, in
/// milliseconds.
#[derive(Clone, Copy, Debug, Eq, PartialEq, Structural)]
pub struct Worker {
    pub activity: Activity,
    pub delay: u64,
}

/// What the worker does on an event: what it is doing afterwards, and the
/// action to take. An event that it does not wait for changes nothing.
pub open spec fn react(worker: Worker, event: EventView) -> (Worker, ActionView) {
    match (worker.activity, event) {
        (Activity::Receiving, EventView::Request(url)) => (
            Worker { activity: Activity::Fetching, delay: worker.delay },
            ActionView::Fetch(url),
        ),
        (Activity::Receiving, EventView::Sentinel) => (
            Worker { activity: Activity::Closing, delay: worker.delay },
            ActionView::Close,
        ),
        (Activity::Receiving, EventView::Closed) => (
            Worker { activity: Activity::Finished, delay: worker.delay },
            ActionView::Stop,
        ),
        (Activity::Fetching, EventView::Fetched) => (
            Worker { activity: Activity::Resting, delay: worker.delay },
            ActionView::ReplyAndRest(worker.delay),
        ),
        (Activity::Resting, EventView::Rested) => (
            Worker { activity: Activity::Receiving, delay: worker.delay },
            ActionView::Receive,
        ),
        (Activity::Closing, EventView::Closed) => (
            Worker { activity: Activity::Finished, delay: worker.delay },
            ActionView::Stop,
        ),
        _ => (worker, ActionView::Ignore),
    }
}

/// The phase that an activity belongs to.
pub open spec fn phase_of(activity: Activity) -> Phase {
    match activity {
        Activity::Receiving | Activity::Fetching | Activity::Resting => Phase::Running,
        Activity::Closing => Phase::Draining,
        Activity::Finished => Phase::Stopped,
    }
}

impl Worker {
    /// A worker that waits for its first request.
    pub open spec fn new_spec(delay: u64) -> Worker {
        Worker { activity: Activity::Receiving, delay }
    }

    /// A worker that waits for its first request and rests `delay`
    /// milliseconds after each fetch.
    #[verifier::when_used_as_spec(new_spec)]
    pub fn new(delay: u64) -> (worker: Worker)
        ensures
            worker == Worker::new_spec(delay),
    {
        Worker { activity: Activity::Receiving, delay }
    }

    /// The phase that the orchestrator is in.
    pub fn phase(&self) -> (phase: Phase)
        ensures
            phase == phase_of(self.activity),
    {
        match self.activity {
            Activity::Receiving | Activity::Fetching | Activity::Resting => Phase::Running,
            Activity::Closing => Phase::Draining,
            Activity::Finished => Phase::Stopped,
        }
    }

    /// Takes an event and says what to do next.
    pub fn handle_requests(&mut self, event: Event) -> (action: Action)
        ensures
            (*final(self), action@) == react(*old(self), event@),
    {
        match (self.activity, event) {
            (Activity::Receiving, Event::Request(url)) => {
                self.activity = Activity::Fetching;
                Action::Fetch(url)
            },
            (Activity::Receiving, Event::Sentinel) => {
                self.activity = Activity::Closing;
                Action::Close
            },
            (Activity::Receiving, Event::Closed) => {
                self.activity = Activity::Finished;
                Action::Stop
            },
            (Activity::Fetching, Event::Fetched) => {
                self.activity = Activity::Resting;
                Action::ReplyAndRest(self.delay)
            },
            (Activity::Resting, Event::Rested) => {
                self.activity = Activity::Receiving;
                Action::Receive
            },
            (Activity::Closing, Event::Closed) => {
                self.activity = Activity::Finished;
                Action::Stop
            },
            _ => Action::Ignore,
        }
    }
}

/// The worker after the events `events`, and the actions that it asked for,
/// one for each event.
pub open spec fn run(worker: Worker, events: Seq<EventView>) -> (Worker, Seq<ActionView>)
    decreases events.len(),
{
    if events.len() == 0 {
        (worker, Seq::empty())
    } else {
        let (before, actions) = run(worker, events.drop_last());
        let (after, action) = react(before, events.last());
        (after, actions.push(action))
    }
}

/// The worker after the first `n` of `events`.
pub open spec fn worker_after(worker: Worker, events: Seq<EventView>, n: int) -> Worker {
    run(worker, events.take(n)).0
}

/// Between the actions `i` and `j` the worker handed a result back, rested
/// for `delay` milliseconds and, the rest over, turned to the queue again.
pub open spec fn rested_between(actions: Seq<ActionView>, i: int, j: int, delay: u64) -> bool {
    exists|k: int, m: int|
        i < k < m < j && #[trigger] actions[k] == ActionView::ReplyAndRest(delay)
            && #[trigger] actions[m] == ActionView::Receive
}

proof fn lemma_run_step(worker: Worker, events: Seq<EventView>, n: int)
    requires
        0 <= n < events.len(),
    ensures
        run(worker, events.take(n + 1)).0 == react(
            run(worker, events.take(n)).0,
            events[n],
        ).0,
        run(worker, events.take(n + 1)).1 == run(worker, events.take(n)).1.push(
            react(run(worker, events.take(n)).0, events[n]).1,
        ),
        run(worker, events.take(n)).1.len() == n,
        run(worker, events.take(n)).0.delay == worker.delay,
    decreases n,
{
    assert(events.take(n + 1).drop_last() =~= events.take(n));
    assert(events.take(n + 1).last() == events[n]);
    if n > 0 {
        lemma_run_step(worker, events, n - 1);
    }
}

/// Every action answers the event of its position, in the state that the
/// events before it led to.
pub proof fn lemma_run(worker: Worker, events: Seq<EventView>)
    ensures
        run(worker, events).1.len() == events.len(),
        run(worker, events).0.delay == worker.delay,
        forall|n: int|
            0 <= n < events.len() ==> #[trigger] run(worker, events).1[n] == react(
                worker_after(worker, events, n),
                events[n],
            ).1,
    decreases events.len(),
{
    if events.len() > 0 {
        let front = events.drop_last();
        lemma_run(worker, front);
        assert forall|n: int| 0 <= n < events.len() implies #[trigger] run(worker, events).1[n]
            == react(worker_after(worker, events, n), events[n]).1 by {
            if n < front.len() {
                assert(front.take(n) =~= events.take(n));
                assert(front[n] == events[n]);
            } else {
                assert(events.take(n) =~= front);
            }
        }
    }
}

proof fn lemma_rest_follows_fetch(worker: Worker, events: Seq<EventView>, i: int, n: int)
    requires
        0 <= i < n <= events.len(),
        run(worker, events).1[i] is Fetch,
    ensures
        ({
            let actions = run(worker, events).1;
            match worker_after(worker, events, n).activity {
                Activity::Fetching => true,
                Activity::Resting => exists|k: int|
                    i < k < n && #[trigger] actions[k] == ActionView::ReplyAndRest(worker.delay),
                _ => rested_between(actions, i, n, worker.delay),
            }
        }),
    decreases n,
{
    let actions = run(worker, events).1;
    lemma_run(worker, events);
    lemma_run_step(worker, events, n - 1);
    let before = worker_after(worker, events, n - 1);
    let after = worker_after(worker, events, n);
    assert(after == react(before, events[n - 1]).0);
    assert(actions[n - 1] == react(before, events[n - 1]).1);
    if i == n - 1 {
        assert(after.activity == Activity::Fetching);
    } else {
        lemma_rest_follows_fetch(worker, events, i, n - 1);
        match before.activity {
            Activity::Fetching => {
                if after.activity == Activity::Resting {
                    assert(i < n - 1 < n && actions[n - 1] == ActionView::ReplyAndRest(
                        worker.delay,
                    ));
                }
            },
            Activity::Resting => {
                let k = choose|k: int|
                    i < k < n - 1 && #[trigger] actions[k] == ActionView::ReplyAndRest(
                        worker.delay,
                    );
                if after.activity == Activity::Receiving {
                    assert(i < k < n - 1 < n && actions[k] == ActionView::ReplyAndRest(
                        worker.delay,
                    ) && actions[n - 1] == ActionView::Receive);
                }
            },
            _ => {
                let (k, m) = choose|k: int, m: int|
                    i < k < m < n - 1 && #[trigger] actions[k] == ActionView::ReplyAndRest(
                        worker.delay,
                    ) && #[trigger] actions[m] == ActionView::Receive;
                assert(i < k < m < n);
            },
        }
    }
}

/// Fetches never overlap, and each is followed by the rest before the next
/// begins: between any two fetches that the worker asks for, it has handed
/// back the result of the first, rested for the configured time and turned
/// to the queue again. This holds of every sequence of events.
pub proof fn lemma_fetches_are_serialized(worker: Worker, events: Seq<EventView>, i: int, j: int)
    requires
        0 <= i < j < events.len(),
        run(worker, events).1[i] is Fetch,
        run(worker, events).1[j] is Fetch,
    ensures
        rested_between(run(worker, events).1, i, j, worker.delay),
{
    lemma_run(worker, events);
    lemma_rest_follows_fetch(worker, events, i, j);
    assert(worker_after(worker, events, j).activity == Activity::Receiving);
}

/// Every request that the worker takes from the queue is fetched, at once
/// and once; nothing else is fetched. So as many fetches are attempted as
/// requests are taken, in the order in which the queue gave them.
pub proof fn lemma_one_fetch_per_request(worker: Worker, events: Seq<EventView>, n: int)
    requires
        0 <= n < events.len(),
    ensures
        ({
            let action = run(worker, events).1[n];
            let taken = worker_after(worker, events, n).activity == Activity::Receiving;
            &&& action is Fetch <==> taken && events[n] is Request
            &&& action is Fetch ==> events[n] == EventView::Request(action->Fetch_0)
        }),
{
    lemma_run(worker, events);
}

/// The orchestrator only moves forward: from running to draining, when the
/// stop entry is taken, and from there to stopped; a stopped worker asks for
/// nothing more.
pub proof fn lemma_phases_advance(worker: Worker, event: EventView)
    ensures
        ({
            let before = phase_of(worker.activity);
            let after = phase_of(react(worker, event).0.activity);
            &&& before == Phase::Running ==> (after == Phase::Draining <==> worker.activity
                == Activity::Receiving && event is Sentinel)
            &&& before == Phase::Draining ==> after != Phase::Running
            &&& before == Phase::Stopped ==> after == Phase::Stopped && react(worker, event).1
                == ActionView::Ignore
            &&& react(worker, event).1 is Fetch ==> before == Phase::Running
        }),
{
}

/// A signal from outside that asks the process to end.
#[derive(Clone, Copy, Debug, Eq, PartialEq, Structural)]
pub enum Signal {
    /// The user interrupted the process.
    Interrupt,
    /// The process was asked to terminate.
    Terminate,
}

/// Guards the shutdown of the orchestrator, so that the worker is told to
/// stop and is waited for once, however often the shutdown is asked for.
#[derive(Clone, Copy, Debug, Eq, PartialEq, Structural)]
pub struct Shutdown {
    pub closed: bool,
}

/// Whether each of `calls` calls of `close` in a row, on a guard in the
/// state `closed`, is the one to act: the first on an open guard, and none
/// after it.
pub open spec fn closes(closed: bool, calls: nat) -> Seq<bool>
    decreases calls,
{
    if calls == 0 {
        Seq::empty()
    } else {
        seq![!closed] + closes(true, (calls - 1) as nat)
    }
}

impl Shutdown {
    /// A guard of an orchestrator that runs.
    pub fn new() -> (shutdown: Shutdown)
        ensures
            !shutdown.closed,
    {
        Shutdown { closed: false }
    }

    /// Asks for the shutdown. The first call says to hand the stop entry to
    /// the queue and to wait for the worker; every later call says to do
    /// nothing.
    pub fn close(&mut self) -> (act: bool)
        ensures
            act == !old(self).closed,
            final(self).closed,
    {
        let act = !self.closed;
        self.closed = true;
        act
    }

    /// Whether a signal leads to the shutdown: every signal does, so that
    /// no process ends with the worker still running.
    pub fn signal(signal: Signal) -> (close: bool)
        ensures
            close,
    {
        match signal {
            Signal::Interrupt => true,
            Signal::Terminate => true,
        }
    }
}

/// However often the shutdown is asked for, it is acted on once: by the
/// first call.
pub proof fn lemma_close_acts_once(calls: nat)
    ensures
        closes(false, calls).len() == calls,
        forall|i: int| 0 <= i < calls ==> #[trigger] closes(false, calls)[i] == (i == 0),
{
    if calls > 0 {
        lemma_closed_stays_closed((calls - 1) as nat);
    }
}

proof fn lemma_closed_stays_closed(calls: nat)
    ensures
        closes(true, calls).len() == calls,
        forall|i: int| 0 <= i < calls ==> !#[trigger] closes(true, calls)[i],
    decreases calls,
{
    if calls > 0 {
        lemma_closed_stays_closed((calls - 1) as nat);
    }
}

} // verus!
