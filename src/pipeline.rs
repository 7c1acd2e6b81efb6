//! The order in which a batch of statements runs.
//!
//! Every statement but the last runs for its effect only; the last one's
//! output and plans are kept. The first statement the engine rejects ends the
//! batch with its message, and nothing after it runs. The engine itself is
//! driven by the caller, which asks `action` what to do next and reports each
//! outcome back.
use vstd::prelude::*;

verus! {

/// What the caller does next.
pub enum Action {
    /// The batch is empty: answer with the empty result.
    Empty,
    /// Run the statement at this index and discard its output.
    Execute(usize),
    /// Run the statement at this index, the last one, and keep its output.
    ExecuteLast(usize),
    /// Every statement ran; answer with the kept output.
    Done,
    /// A statement failed with this message: answer with it.
    Failed(String),
}

pub struct Batch {
    pub count: usize,
    pub done: usize,
    pub failure: Option<String>,
}

/// The abstract state of a batch: how many statements, how many ran
/// successfully, and the first failure.
pub ghost struct BatchState {
    pub count: nat,
    pub done: nat,
    pub failure: Option<Seq<char>>,
}

pub ghost enum Step {
    Empty,
    Execute(nat),
    ExecuteLast(nat),
    Done,
    Failed(Seq<char>),
}

pub open spec fn start(count: nat) -> BatchState {
    BatchState { count, done: 0, failure: None }
}

pub open spec fn next_step(s: BatchState) -> Step {
    match s.failure {
        Some(m) => Step::Failed(m),
        None => if s.count == 0 {
            Step::Empty
        } else if s.done + 1 < s.count {
            Step::Execute(s.done)
        } else if s.done + 1 == s.count {
            Step::ExecuteLast(s.done)
        } else {
            Step::Done
        },
    }
}

/// The state after the outcome of the running statement: `None` for
/// success, `Some(message)` for a failure. A finished or failed batch
/// ignores further outcomes.
pub open spec fn apply(s: BatchState, outcome: Option<Seq<char>>) -> BatchState {
    if s.failure is Some || s.done >= s.count {
        s
    } else {
        match outcome {
            None => BatchState { done: s.done + 1, ..s },
            Some(m) => BatchState { failure: Some(m), ..s },
        }
    }
}

pub open spec fn replay(s: BatchState, outcomes: Seq<Option<Seq<char>>>) -> BatchState
    decreases outcomes.len(),
{
    if outcomes.len() == 0 {
        s
    } else {
        replay(apply(s, outcomes[0]), outcomes.drop_first())
    }
}

pub open spec fn action_view(a: Action) -> Step {
    match a {
        Action::Empty => Step::Empty,
        Action::Execute(i) => Step::Execute(i as nat),
        Action::ExecuteLast(i) => Step::ExecuteLast(i as nat),
        Action::Done => Step::Done,
        Action::Failed(m) => Step::Failed(m@),
    }
}

impl Batch {
    pub open spec fn state(&self) -> BatchState {
        BatchState {
            count: self.count as nat,
            done: self.done as nat,
            failure: match self.failure {
                Some(m) => Some(m@),
                None => None,
            },
        }
    }

    pub open spec fn wf(&self) -> bool {
        self.done <= self.count
    }

    /// A batch of `count` statements, none of them run yet.
    pub fn new(count: usize) -> (r: Batch)
        ensures
            r.wf(),
            r.state() == start(count as nat),
    {
        Batch { count, done: 0, failure: None }
    }

    /// What to do next.
    pub fn action(&self) -> (r: Action)
        requires
            self.wf(),
        ensures
            action_view(r) == next_step(self.state()),
    {
        match &self.failure {
            Some(m) => Action::Failed(m.clone()),
            None => {
                if self.count == 0 {
                    Action::Empty
                } else if self.done < self.count - 1 {
                    Action::Execute(self.done)
                } else if self.done == self.count - 1 {
                    Action::ExecuteLast(self.done)
                } else {
                    Action::Done
                }
            },
        }
    }

    /// Records that the running statement succeeded.
    pub fn record_success(&mut self)
        requires
            old(self).wf(),
        ensures
            final(self).wf(),
            final(self).state() == apply(old(self).state(), None),
    {
        if self.failure.is_none() && self.done < self.count {
            self.done = self.done + 1;
        }
    }

    /// Records that the running statement failed with `message`.
    pub fn record_failure(&mut self, message: String)
        requires
            old(self).wf(),
        ensures
            final(self).wf(),
            final(self).state() == apply(old(self).state(), Some(message@)),
    {
        if self.failure.is_none() && self.done < self.count {
            self.failure = Some(message);
        }
    }
}

/// An empty batch asks for the empty result at once, before any statement
/// runs, and keeps doing so whatever is reported.
pub proof fn law_empty_batch(outcomes: Seq<Option<Seq<char>>>)
    ensures
        next_step(start(0)) == Step::Empty,
        replay(start(0), outcomes) == start(0),
    decreases outcomes.len(),
{
    if outcomes.len() > 0 {
        law_empty_batch(outcomes.drop_first());
    }
}

/// Once a batch failed, no report changes it and no statement runs again.
pub proof fn law_failure_is_final(s: BatchState, outcomes: Seq<Option<Seq<char>>>)
    requires
        s.failure is Some,
    ensures
        replay(s, outcomes) == s,
        next_step(replay(s, outcomes)) == Step::Failed(s.failure->0),
    decreases outcomes.len(),
{
    if outcomes.len() > 0 {
        law_failure_is_final(s, outcomes.drop_first());
    }
}

/// Where the statement at index `k` is the first to fail, the batch runs
/// statements 0 to `k` in order, ends with the message of `k`, and runs
/// nothing after it, whatever the later outcomes are.
pub proof fn law_first_failure_decides(
    count: nat,
    outcomes: Seq<Option<Seq<char>>>,
    k: int,
)
    requires
        0 <= k < count,
        k < outcomes.len(),
        forall|j: int| 0 <= j < k ==> outcomes[j] is None,
        outcomes[k] is Some,
    ensures
        forall|j: int|
            0 <= j <= k ==> next_step(#[trigger] replay(start(count), outcomes.take(j)))
                == if j + 1 < count {
                Step::Execute(j as nat)
            } else {
                Step::ExecuteLast(j as nat)
            },
        replay(start(count), outcomes) == (BatchState {
            count,
            done: k as nat,
            failure: outcomes[k],
        }),
        next_step(replay(start(count), outcomes)) == Step::Failed(outcomes[k]->0),
{
    assert forall|j: int| 0 <= j <= k implies #[trigger] replay(start(count), outcomes.take(j)) == (
    BatchState { count, done: j as nat, failure: None }) by {
        lemma_successes(count, outcomes.take(j), 0);
    }
    lemma_successes(count, outcomes.take(k), 0);
    lemma_replay_split(start(count), outcomes, k);
    let mid = BatchState { count, done: k as nat, failure: None };
    let tail = outcomes.subrange(k, outcomes.len() as int);
    assert(tail.drop_first() =~= outcomes.subrange(k + 1, outcomes.len() as int));
    law_failure_is_final(apply(mid, outcomes[k]), tail.drop_first());
}

proof fn lemma_successes(count: nat, outcomes: Seq<Option<Seq<char>>>, d: nat)
    requires
        d + outcomes.len() < count,
        forall|j: int| 0 <= j < outcomes.len() ==> outcomes[j] is None,
    ensures
        replay(BatchState { count, done: d, failure: None }, outcomes) == (BatchState {
            count,
            done: d + outcomes.len(),
            failure: None,
        }),
    decreases outcomes.len(),
{
    if outcomes.len() > 0 {
        lemma_successes(count, outcomes.drop_first(), d + 1);
    }
}

proof fn lemma_replay_split(s: BatchState, outcomes: Seq<Option<Seq<char>>>, k: int)
    requires
        0 <= k <= outcomes.len(),
    ensures
        replay(s, outcomes) == replay(
            replay(s, outcomes.take(k)),
            outcomes.subrange(k, outcomes.len() as int),
        ),
    decreases k,
{
    if k == 0 {
        assert(outcomes.take(0) =~= seq![]);
        assert(outcomes.subrange(0, outcomes.len() as int) =~= outcomes);
    } else {
        lemma_replay_split(apply(s, outcomes[0]), outcomes.drop_first(), k - 1);
        assert(outcomes.take(k).drop_first() =~= outcomes.drop_first().take(k - 1));
        assert(outcomes.take(k)[0] == outcomes[0]);
        assert(outcomes.drop_first().subrange(k - 1, outcomes.len() - 1) =~= outcomes.subrange(
            k,
            outcomes.len() as int,
        ));
    }
}

} // verus!
