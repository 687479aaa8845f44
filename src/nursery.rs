//! The bookkeeping by which a bounded task tree's results are drained.
//!
//! The tasks themselves run on an async runtime outside this library. Each
//! time the consumer is polled it first takes in the handles of newly
//! spawned tasks, then asks its join set for a finished task; this module
//! decides, from what those two steps saw, what the poll answers.
use vstd::prelude::*;
use vstd::arithmetic::power2::{lemma_pow2_unfold, pow2};

verus! {

/// What taking in new task handles saw.
#[derive(Clone, Copy, Debug, PartialEq, Eq)]
pub enum Arrival {
    /// No handle was waiting, and some spawner is still alive.
    Nothing,
    /// This many handles were taken into the join set (at least one).
    Handles(usize),
    /// Every spawner is gone: no task can be added any more.
    Closed,
}

/// What asking the join set for a finished task saw.
#[derive(Clone, Copy, Debug, PartialEq, Eq)]
pub enum Completion {
    /// Tasks are live but none has finished yet.
    Pending,
    /// A task finished with a value.
    Value,
    /// A task panicked.
    Panicked,
    /// The join set holds no task.
    Empty,
}

/// What a poll of the result sequence answers.
#[derive(Clone, Copy, Debug, PartialEq, Eq)]
pub enum PollAction {
    /// Hand out the value of the task that finished.
    Yield,
    /// Raise the panic of the task that panicked in the polling context.
    ResumePanic,
    /// Not yet: poll again once woken.
    Wait,
    /// The sequence is over.
    End,
}

/// The state of the consumer of a task tree.
pub struct DrainState {
    closed: bool,
    live: usize,
    admitted: usize,
    finished: usize,
}

/// The values of a [`DrainState`]: whether spawning is over, how many tasks
/// the join set holds, how many were ever taken in, and how many have been
/// answered, with a value or a panic.
pub struct DrainModel {
    pub closed: bool,
    pub live: nat,
    pub admitted: nat,
    pub finished: nat,
}

impl View for DrainState {
    type V = DrainModel;

    closed spec fn view(&self) -> DrainModel {
        DrainModel {
            closed: self.closed,
            live: self.live as nat,
            admitted: self.admitted as nat,
            finished: self.finished as nat,
        }
    }
}

impl DrainModel {
    /// Every task taken in is either still live or has been answered once.
    pub open spec fn wf(self) -> bool {
        self.finished + self.live == self.admitted
    }

    /// How many handles an arrival brings.
    pub open spec fn arrived(a: Arrival) -> nat {
        match a {
            Arrival::Handles(n) => n as nat,
            _ => 0,
        }
    }
}

/// What a poll answers, given whether spawning is over and what the join
/// set saw.
pub open spec fn decide(closed: bool, completion: Completion) -> PollAction {
    match completion {
        Completion::Value => PollAction::Yield,
        Completion::Panicked => PollAction::ResumePanic,
        Completion::Pending => PollAction::Wait,
        Completion::Empty => if closed {
            PollAction::End
        } else {
            PollAction::Wait
        },
    }
}

/// The state after a poll: a task that finished, with a value or a panic,
/// leaves the join set and counts as answered.
pub open spec fn after_completion(s: DrainModel, completion: Completion) -> DrainModel {
    match completion {
        Completion::Value | Completion::Panicked => DrainModel {
            closed: s.closed,
            live: (s.live - 1) as nat,
            admitted: s.admitted,
            finished: s.finished + 1,
        },
        _ => s,
    }
}

/// The answers of successive polls that see `completions`, and the state
/// they leave.
pub open spec fn drain_run(s: DrainModel, completions: Seq<Completion>) -> (DrainModel, Seq<PollAction>)
    decreases completions.len(),
{
    if completions.len() == 0 {
        (s, Seq::empty())
    } else {
        let c = completions[0];
        let (t, answers) = drain_run(after_completion(s, c), completions.drop_first());
        (t, seq![decide(s.closed, c)] + answers)
    }
}

impl DrainState {
    /// A consumer that has taken in no task yet.
    pub fn new() -> (r: DrainState)
        ensures
            r@ == (DrainModel { closed: false, live: 0, admitted: 0, finished: 0 }),
    {
        DrainState { closed: false, live: 0, admitted: 0, finished: 0 }
    }

    /// Whether every spawner is gone.
    pub fn is_closed(&self) -> (r: bool)
        ensures
            r == self@.closed,
    {
        self.closed
    }

    /// How many tasks the join set holds.
    pub fn live(&self) -> (r: usize)
        ensures
            r == self@.live,
    {
        self.live
    }

    /// How many tasks have been answered.
    pub fn finished(&self) -> (r: usize)
        ensures
            r == self@.finished,
    {
        self.finished
    }

    /// Takes note of what taking in new handles saw.
    pub fn take_in(&mut self, arrival: Arrival)
        requires
            old(self)@.wf(),
            old(self)@.admitted + DrainModel::arrived(arrival) <= usize::MAX,
        ensures
            final(self)@.wf(),
            final(self)@.closed == (old(self)@.closed || arrival is Closed),
            final(self)@.live == old(self)@.live + DrainModel::arrived(arrival),
            final(self)@.admitted == old(self)@.admitted + DrainModel::arrived(arrival),
            final(self)@.finished == old(self)@.finished,
    {
        match arrival {
            Arrival::Nothing => {},
            Arrival::Handles(n) => {
                self.live = self.live + n;
                self.admitted = self.admitted + n;
            },
            Arrival::Closed => {
                self.closed = true;
            },
        }
    }

    /// Decides what the poll answers from what the join set saw: the value
    /// or panic of a finished task, the end once spawning is over and no
    /// task is left, and otherwise a wait.
    pub fn complete(&mut self, completion: Completion) -> (a: PollAction)
        requires
            old(self)@.wf(),
            completion is Value || completion is Panicked ==> old(self)@.live > 0,
            completion is Empty ==> old(self)@.live == 0,
        ensures
            final(self)@.wf(),
            final(self)@.closed == old(self)@.closed,
            final(self)@.admitted == old(self)@.admitted,
            a == decide(old(self)@.closed, completion),
            final(self)@ == after_completion(old(self)@, completion),
    {
        match completion {
            Completion::Value => {
                self.live = self.live - 1;
                self.finished = self.finished + 1;
                PollAction::Yield
            },
            Completion::Panicked => {
                self.live = self.live - 1;
                self.finished = self.finished + 1;
                PollAction::ResumePanic
            },
            Completion::Pending => PollAction::Wait,
            Completion::Empty => {
                if self.closed {
                    PollAction::End
                } else {
                    PollAction::Wait
                }
            },
        }
    }
}

/// The sequence ends exactly when spawning is over and the join set is
/// empty, and by then every task that was ever taken in has been answered
/// exactly once, with its value or its panic.
pub proof fn lemma_end_answers_every_task(s: DrainModel, completion: Completion)
    requires
        s.wf(),
        completion is Empty ==> s.live == 0,
    ensures
        decide(s.closed, completion) is End <==> (s.closed && completion is Empty),
        decide(s.closed, completion) is End ==> s.finished == s.admitted,
{
}

/// Once spawning is over, a join set that holds `k` tasks hands out each of
/// them once and then ends: `k` answers, each a value or a panic, then the
/// end, with every task that was taken in answered.
pub proof fn lemma_closed_drain_ends(s: DrainModel, completions: Seq<Completion>)
    requires
        s.wf(),
        s.closed,
        completions.len() == s.live + 1,
        forall|i: int| 0 <= i < s.live ==> (#[trigger] completions[i] is Value || completions[i] is Panicked),
        completions.last() is Empty,
    ensures
        drain_run(s, completions).1.len() == s.live + 1,
        forall|i: int| 0 <= i < s.live ==> (#[trigger] drain_run(s, completions).1[i] is Yield
            || drain_run(s, completions).1[i] is ResumePanic),
        drain_run(s, completions).1.last() is End,
        drain_run(s, completions).0.live == 0,
        drain_run(s, completions).0.finished == s.admitted,
    decreases s.live,
{
    let c = completions[0];
    let rest = completions.drop_first();
    if s.live == 0 {
        assert(rest.len() == 0);
    } else {
        let t = after_completion(s, c);
        assert forall|i: int| 0 <= i < t.live implies (#[trigger] rest[i] is Value || rest[i] is Panicked) by {
            assert(rest[i] == completions[i + 1]);
        }
        assert(rest.last() == completions.last());
        lemma_closed_drain_ends(t, rest);
        let answers = drain_run(s, completions).1;
        let later = drain_run(t, rest).1;
        assert(answers == seq![decide(s.closed, c)] + later);
        assert forall|i: int| 0 <= i < s.live implies (#[trigger] answers[i] is Yield
            || answers[i] is ResumePanic) by {
            if i > 0 {
                assert(answers[i] == later[i - 1]);
            }
        }
    }
}

/// How many tasks a tree holds in which every task above depth `depth`
/// spawns `fanout` children.
pub open spec fn full_tree_tasks(fanout: nat, depth: nat) -> nat
    decreases depth,
{
    if depth == 0 {
        1
    } else {
        1 + fanout * full_tree_tasks(fanout, (depth - 1) as nat)
    }
}

/// A tree in which each task spawns two children down to depth `d` holds
/// `2^(d+1) - 1` tasks; once its sequence has ended, exactly that many
/// results have been answered.
pub proof fn lemma_binary_tree_results(s: DrainModel, d: nat)
    requires
        s.wf(),
        s.closed,
        s.live == 0,
        s.admitted == full_tree_tasks(2, d),
    ensures
        s.finished == pow2(d + 1) - 1,
{
    lemma_binary_tree_size(d);
}

proof fn lemma_binary_tree_size(d: nat)
    ensures
        full_tree_tasks(2, d) == pow2(d + 1) - 1,
    decreases d,
{
    lemma_pow2_unfold(d + 1);
    if d > 0 {
        lemma_binary_tree_size((d - 1) as nat);
        lemma_pow2_unfold(d);
    } else {
        vstd::arithmetic::power2::lemma2_to64();
    }
}

} // verus!

verus! {

/// A chain in which every task down to depth `d` spawns one child holds
/// `d + 1` tasks; once its sequence has ended, exactly that many results
/// have been answered, however deep the chain.
pub proof fn lemma_chain_results(s: DrainModel, d: nat)
    requires
        s.wf(),
        s.closed,
        s.live == 0,
        s.admitted == full_tree_tasks(1, d),
    ensures
        s.finished == d + 1,
{
    lemma_chain_size(d);
}

proof fn lemma_chain_size(d: nat)
    ensures
        full_tree_tasks(1, d) == d + 1,
    decreases d,
{
    if d > 0 {
        lemma_chain_size((d - 1) as nat);
    }
}

} // verus!
