use vstd::prelude::*;

use crate::error::StoreError;

verus! {

/// The phase a blocking read is in.  Per call, the loop moves
/// `Subscribing -> Checking -> { Done | Waiting -> Subscribing }`:
/// a fresh subscription is created strictly before every lookup, so a write
/// landing between the two still fires the subscription and the loop
/// re-checks instead of hanging.
#[derive(Debug, PartialEq)]
pub enum WaitState {
    /// A fresh subscription to the notifier must be created next.
    Subscribing,
    /// A subscription is held; the key must now be looked up.
    Checking,
    /// The key was absent; the operation must suspend on its subscription.
    Waiting,
    /// The loop is over: the value was found, or a lookup failed.
    Done(Result<Vec<u8>, StoreError>),
}

/// What the embedding program reports back to the loop: the completion of
/// the action it was asked to perform.
#[derive(Debug, PartialEq)]
pub enum WaitEvent {
    /// A fresh subscription was created.
    Subscribed,
    /// The lookup finished, with this result.
    Checked(Result<Option<Vec<u8>>, StoreError>),
    /// The suspension ended: the notifier fired after a write.
    Woken,
}

/// What the embedding program must do next on behalf of the loop.
#[derive(Debug, Clone, Copy, PartialEq, Eq, Structural)]
pub enum WaitAction {
    /// Create a fresh subscription, then report `Subscribed`.
    Subscribe,
    /// Look the key up, then report `Checked` with the result.
    Check,
    /// Suspend on the subscription held, then report `Woken`.
    Suspend,
    /// Nothing is left to do; `into_outcome` holds the result.
    Finish,
}

/// Whether event `event` may occur in state `state`: each phase accepts
/// exactly the completion of the action it asked for.
pub open spec fn enabled(state: WaitState, event: WaitEvent) -> bool {
    match (state, event) {
        (WaitState::Subscribing, WaitEvent::Subscribed) => true,
        (WaitState::Checking, WaitEvent::Checked(_)) => true,
        (WaitState::Waiting, WaitEvent::Woken) => true,
        _ => false,
    }
}

/// The phase after `event` occurs in `state`.  An event that is not enabled
/// leaves the state as it is.
pub open spec fn next_state(state: WaitState, event: WaitEvent) -> WaitState {
    match (state, event) {
        (WaitState::Subscribing, WaitEvent::Subscribed) => WaitState::Checking,
        (WaitState::Checking, WaitEvent::Checked(result)) => match result {
            Ok(Some(value)) => WaitState::Done(Ok(value)),
            Ok(None) => WaitState::Waiting,
            Err(error) => WaitState::Done(Err(error)),
        },
        (WaitState::Waiting, WaitEvent::Woken) => WaitState::Subscribing,
        (other, _) => other,
    }
}

/// The action the loop asks for in each phase.
pub open spec fn action_for(state: WaitState) -> WaitAction {
    match state {
        WaitState::Subscribing => WaitAction::Subscribe,
        WaitState::Checking => WaitAction::Check,
        WaitState::Waiting => WaitAction::Suspend,
        WaitState::Done(_) => WaitAction::Finish,
    }
}

/// The phase reached by a run of the loop: `events` are the completions
/// reported through `WaitLoop::step`, oldest first, starting from
/// `WaitLoop::begin`.
pub open spec fn run(events: Seq<WaitEvent>) -> WaitState
    decreases events.len(),
{
    if events.len() == 0 {
        WaitState::Subscribing
    } else {
        next_state(run(events.drop_last()), events.last())
    }
}

/// Whether every event of the run was enabled when it occurred — these are
/// the runs a loop driven through `WaitLoop::step` can actually take.
pub open spec fn valid_run(events: Seq<WaitEvent>) -> bool {
    forall|i: int|
        0 <= i < events.len() ==> #[trigger] enabled(run(events.take(i)), events[i])
}

/// Extending a run by one event: the phase advances by `next_state`, and the
/// extension is valid exactly when the run was and the new event is enabled
/// at its end.
pub proof fn lemma_run_push(events: Seq<WaitEvent>, event: WaitEvent)
    ensures
        run(events.push(event)) == next_state(run(events), event),
        valid_run(events) && enabled(run(events), event) ==> valid_run(events.push(event)),
{
    let extended = events.push(event);
    assert(extended.drop_last() =~= events);
    assert(extended.last() == event);
    if valid_run(events) && enabled(run(events), event) {
        assert forall|i: int| 0 <= i < extended.len() implies #[trigger] enabled(
            run(extended.take(i)),
            extended[i],
        ) by {
            if i < events.len() {
                assert(extended.take(i) =~= events.take(i));
                assert(enabled(run(events.take(i)), events[i]));
            } else {
                assert(extended.take(i) =~= events);
            }
        }
    }
}

/// No lost wakeup, the protocol side: in every run, the loop reaches the
/// lookup phase only through a fresh subscription — `Subscribed` is the last
/// event before every `Checking` phase.  A write that commits between the
/// subscription and the lookup therefore fires a subscription that is
/// already held, and the suspension that follows an absent lookup returns at
/// once instead of hanging.
pub proof fn lemma_subscribe_before_check(events: Seq<WaitEvent>)
    requires
        valid_run(events),
        run(events) == WaitState::Checking,
    ensures
        events.len() > 0,
        events.last() == WaitEvent::Subscribed,
{
    assert(events.len() > 0);
    assert(enabled(run(events.take(events.len() - 1)), events[events.len() - 1]));
    assert(events.take(events.len() - 1) =~= events.drop_last());
}

/// The loop suspends only after a lookup that found the key absent: the
/// event before every `Waiting` phase is `Checked(Ok(None))`.
pub proof fn lemma_suspend_only_after_absent(events: Seq<WaitEvent>)
    requires
        valid_run(events),
        run(events) == WaitState::Waiting,
    ensures
        events.len() > 0,
        events.last() == WaitEvent::Checked(Ok(None)),
{
    assert(events.len() > 0);
    assert(enabled(run(events.take(events.len() - 1)), events[events.len() - 1]));
    assert(events.take(events.len() - 1) =~= events.drop_last());
}

/// Independence across keys, the loop's side: the loop delivers a value only
/// because a lookup of its own key returned that value.  A wakeup — however
/// caused, in particular by a write to another key — never finishes the
/// loop by itself; the loop re-checks and either delivers what the lookup
/// found or waits again.
pub proof fn lemma_value_comes_from_lookup(events: Seq<WaitEvent>, value: Vec<u8>)
    requires
        valid_run(events),
        run(events) == WaitState::Done(Ok(value)),
    ensures
        events.len() > 0,
        events.last() == WaitEvent::Checked(Ok(Some(value))),
{
    assert(events.len() > 0);
    assert(enabled(run(events.take(events.len() - 1)), events[events.len() - 1]));
    assert(events.take(events.len() - 1) =~= events.drop_last());
}

/// A storage failure ends the loop with exactly that error, and only a
/// failed lookup ends it so.
pub proof fn lemma_error_ends_loop(events: Seq<WaitEvent>, error: StoreError)
    requires
        valid_run(events),
        run(events) == WaitState::Done(Err(error)),
    ensures
        events.len() > 0,
        events.last() == WaitEvent::Checked(Err(error)),
{
    assert(events.len() > 0);
    assert(enabled(run(events.take(events.len() - 1)), events[events.len() - 1]));
    assert(events.take(events.len() - 1) =~= events.drop_last());
}

/// A key already present is delivered at once: the run that subscribes and
/// then finds the value on its first lookup is a valid run, it ends the
/// loop with that value, and it never passes through the suspension phase.
pub proof fn lemma_present_returns_at_once(events: Seq<WaitEvent>, value: Vec<u8>)
    requires
        events =~= seq![WaitEvent::Subscribed, WaitEvent::Checked(Ok(Some(value)))],
    ensures
        valid_run(events),
        run(events) == WaitState::Done(Ok(value)),
        forall|i: int| 0 <= i <= events.len() ==> run(events.take(i)) != WaitState::Waiting,
{
    let empty = Seq::<WaitEvent>::empty();
    let first = empty.push(WaitEvent::Subscribed);
    let second = first.push(WaitEvent::Checked(Ok(Some(value))));
    assert(run(empty) == WaitState::Subscribing);
    assert(valid_run(empty));
    lemma_run_push(empty, WaitEvent::Subscribed);
    lemma_run_push(first, WaitEvent::Checked(Ok(Some(value))));
    assert(events =~= second);
    assert forall|i: int| 0 <= i <= events.len() implies run(events.take(i))
        != WaitState::Waiting by {
        if i == 0 {
            assert(events.take(0) =~= empty);
        } else if i == 1 {
            assert(events.take(1) =~= first);
        } else {
            assert(events.take(i) =~= second);
        }
    }
}

/// No lost wakeup, the progress side: a suspended loop that is woken — as
/// every write wakes it — re-subscribes and re-checks, and if the lookup
/// now finds the value, one such round delivers it.  The wait never ends in
/// silence: each write costs the waiter at most one more round.
pub proof fn lemma_wakeup_leads_to_delivery(events: Seq<WaitEvent>, value: Vec<u8>)
    requires
        valid_run(events),
        run(events) == WaitState::Waiting,
    ensures
        ({
            let resumed = events.push(WaitEvent::Woken).push(WaitEvent::Subscribed).push(
                WaitEvent::Checked(Ok(Some(value))),
            );
            valid_run(resumed) && run(resumed) == WaitState::Done(Ok(value))
        }),
{
    lemma_run_push(events, WaitEvent::Woken);
    let resubscribing = events.push(WaitEvent::Woken);
    lemma_run_push(resubscribing, WaitEvent::Subscribed);
    let rechecking = resubscribing.push(WaitEvent::Subscribed);
    lemma_run_push(rechecking, WaitEvent::Checked(Ok(Some(value))));
}

/// One blocking read in progress.  The embedding program owns the key, the
/// storage medium, the notifier and the subscription; this machine owns the
/// decisions.  The program repeatedly asks `next_action`, performs the
/// action, and reports its completion through `step`.
pub struct WaitLoop {
    state: WaitState,
}

impl View for WaitLoop {
    type V = WaitState;

    closed spec fn view(&self) -> WaitState {
        self.state
    }
}

impl WaitLoop {
    /// Starts a blocking read: the first thing to do is subscribe, before
    /// the first lookup.
    pub fn begin() -> (wait: Self)
        ensures
            wait@ == WaitState::Subscribing,
    {
        WaitLoop { state: WaitState::Subscribing }
    }

    /// The action the embedding program must perform next.
    pub fn next_action(&self) -> (action: WaitAction)
        ensures
            action == action_for(self@),
    {
        match &self.state {
            WaitState::Subscribing => WaitAction::Subscribe,
            WaitState::Checking => WaitAction::Check,
            WaitState::Waiting => WaitAction::Suspend,
            WaitState::Done(_) => WaitAction::Finish,
        }
    }

    /// Reports the completion of an action.  An event out of order (one the
    /// current phase did not ask for) is rejected and changes nothing.
    pub fn step(&mut self, event: WaitEvent) -> (accepted: bool)
        ensures
            accepted == enabled(old(self)@, event),
            accepted ==> final(self)@ == next_state(old(self)@, event),
            !accepted ==> final(self)@ == old(self)@,
    {
        match event {
            WaitEvent::Subscribed => match &self.state {
                WaitState::Subscribing => {
                    self.state = WaitState::Checking;
                    true
                },
                _ => false,
            },
            WaitEvent::Checked(result) => match &self.state {
                WaitState::Checking => {
                    self.state = match result {
                        Ok(Some(value)) => WaitState::Done(Ok(value)),
                        Ok(None) => WaitState::Waiting,
                        Err(error) => WaitState::Done(Err(error)),
                    };
                    true
                },
                _ => false,
            },
            WaitEvent::Woken => match &self.state {
                WaitState::Waiting => {
                    self.state = WaitState::Subscribing;
                    true
                },
                _ => false,
            },
        }
    }

    /// The result of the loop, once `next_action` says `Finish`; `None`
    /// while the loop is still in progress.
    pub fn into_outcome(self) -> (outcome: Option<Result<Vec<u8>, StoreError>>)
        ensures
            outcome == (match self@ {
                WaitState::Done(result) => Some(result),
                _ => None::<Result<Vec<u8>, StoreError>>,
            }),
    {
        match self.state {
            WaitState::Done(result) => Some(result),
            _ => None,
        }
    }
}

} // verus!
