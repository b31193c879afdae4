//! The queue of ActionScript to run at the end of a frame.
//!
//! Actions are kept in one bucket per priority. Initialize actions run
//! before construct actions, which run before every other kind; within a
//! priority, actions run in the order they were queued.

use vstd::prelude::*;
use std::collections::VecDeque;

verus! {

/// The type of action being run. `O` stands for a script object, `V` for a
/// script value.
pub enum ActionType<O, V> {
    /// Normal frame or event actions.
    Normal { bytecode: Vec<u8> },
    /// AVM1 initialize clip event
    Initialize { bytecode: Vec<u8> },
    /// Construct a movie with a custom class or on(construct) events
    Construct { constructor: Option<O>, events: Vec<Vec<u8>> },
    /// An event handler method, e.g. `onEnterFrame`.
    Method { object: O, name: &'static str, args: Vec<V> },
    /// A system listener method,
    NotifyListeners { listener: &'static str, method: &'static str, args: Vec<V> },
    /// An AVM2 callable, e.g. a frame script or event handler.
    Callable2 { callable: O, reciever: Option<O>, args: Vec<V> },
}

/// The number of priority buckets.
pub const NUM_PRIORITIES: usize = 3;

/// The priority of an action: initialize actions first, then construct
/// actions, then everything else.
pub open spec fn priority_of<O, V>(action_type: ActionType<O, V>) -> int {
    match action_type {
        ActionType::Initialize { .. } => 2,
        ActionType::Construct { .. } => 1,
        _ => 0,
    }
}

impl<O, V> ActionType<O, V> {
    fn priority(&self) -> (r: usize)
        ensures
            r == priority_of(*self),
            r < NUM_PRIORITIES,
    {
        match self {
            ActionType::Initialize { .. } => 2,
            ActionType::Construct { .. } => 1,
            _ => 0,
        }
    }
}

/// A queued ActionScript call. `D` stands for the display object the call
/// runs on.
pub struct QueuedActions<D, O, V> {
    /// The movie clip this ActionScript is running on.
    pub clip: D,
    /// The type of action this is, along with the corresponding bytecode/method data.
    pub action_type: ActionType<O, V>,
    /// Whether this is an unload action, which can still run if the clip is removed.
    pub is_unload: bool,
}

/// Action and gotos need to be queued up to execute at the end of the frame.
pub struct ActionQueue<D, O, V> {
    /// Each priority is kept in a separate bucket.
    action_queue: Vec<VecDeque<QueuedActions<D, O, V>>>,
}

/// The order in which the buckets are drained: highest priority first,
/// each in queued order.
pub open spec fn drain_order<T>(buckets: Seq<Seq<T>>) -> Seq<T> {
    buckets[2] + buckets[1] + buckets[0]
}

/// The buckets after queueing `a` with priority `p`.
pub open spec fn queued<T>(buckets: Seq<Seq<T>>, p: int, a: T) -> Seq<Seq<T>> {
    buckets.update(p, buckets[p].push(a))
}

/// The highest priority whose bucket holds something, or -1 when all are empty.
pub open spec fn top_priority<T>(buckets: Seq<Seq<T>>) -> int {
    if buckets[2].len() > 0 {
        2
    } else if buckets[1].len() > 0 {
        1
    } else if buckets[0].len() > 0 {
        0
    } else {
        -1
    }
}

/// The buckets after the front of the highest non-empty one was taken.
pub open spec fn popped<T>(buckets: Seq<Seq<T>>) -> Seq<Seq<T>> {
    let p = top_priority(buckets);
    if p < 0 {
        buckets
    } else {
        buckets.update(p, buckets[p].drop_first())
    }
}

impl<D, O, V> ActionQueue<D, O, V> {
    const DEFAULT_CAPACITY: usize = 32;

    /// The queued actions of each priority, in queued order.
    pub closed spec fn buckets(&self) -> Seq<Seq<QueuedActions<D, O, V>>> {
        Seq::new(self.action_queue@.len(), |i: int| self.action_queue@[i]@)
    }

    /// There is one bucket per priority.
    pub closed spec fn wf(&self) -> bool {
        self.action_queue@.len() == NUM_PRIORITIES
    }

    /// Every action still queued, in the order they will be handed out.
    pub open spec fn pending(&self) -> Seq<QueuedActions<D, O, V>> {
        drain_order(self.buckets())
    }

    /// Crates a new `ActionQueue` with an empty queue.
    pub fn new() -> (q: Self)
        ensures
            q.wf(),
            q.buckets().len() == NUM_PRIORITIES,
            forall|i: int| 0 <= i < NUM_PRIORITIES ==> (#[trigger] q.buckets()[i]).len() == 0,
    {
        let mut action_queue: Vec<VecDeque<QueuedActions<D, O, V>>> = Vec::with_capacity(
            NUM_PRIORITIES,
        );
        let mut i: usize = 0;
        while i < NUM_PRIORITIES
            invariant
                i <= NUM_PRIORITIES,
                action_queue@.len() == i,
                forall|j: int| 0 <= j < i ==> (#[trigger] action_queue@[j])@.len() == 0,
            decreases NUM_PRIORITIES - i,
        {
            action_queue.push(VecDeque::with_capacity(Self::DEFAULT_CAPACITY));
            i = i + 1;
        }
        Self { action_queue }
    }

    /// Queues ActionScript to run for the given movie clip.
    /// `actions` is the slice of ActionScript bytecode to run.
    /// The actions will be skipped if the clip is removed before the actions run.
    pub fn queue_actions(&mut self, clip: D, action_type: ActionType<O, V>, is_unload: bool)
        requires
            old(self).wf(),
        ensures
            final(self).wf(),
            final(self).buckets() == queued(
                old(self).buckets(),
                priority_of(action_type),
                QueuedActions { clip, action_type, is_unload },
            ),
    {
        let priority = action_type.priority();
        let action = QueuedActions { clip, action_type, is_unload };
        let ghost before = self.buckets();
        self.action_queue[priority].push_back(action);
        assert(self.buckets() =~= queued(before, priority as int, action));
    }

    /// Sorts and drains the actions from the queue.
    pub fn pop_action(&mut self) -> (r: Option<QueuedActions<D, O, V>>)
        requires
            old(self).wf(),
        ensures
            final(self).wf(),
            final(self).buckets() == popped(old(self).buckets()),
            top_priority(old(self).buckets()) < 0 <==> r is None,
            r matches Some(a) ==> a == old(self).buckets()[top_priority(old(self).buckets())][0],
    {
        let ghost before = self.buckets();
        let mut i: usize = NUM_PRIORITIES;
        while i > 0
            invariant
                i <= NUM_PRIORITIES,
                self.wf(),
                self.buckets() == before,
                before == old(self).buckets(),
                forall|j: int| i <= j < NUM_PRIORITIES ==> (#[trigger] before[j]).len() == 0,
            decreases i,
        {
            i = i - 1;
            let action = self.action_queue[i].pop_front();
            if action.is_some() {
                assert(before[i as int].len() > 0);
                assert(top_priority(before) == i);
                assert(self.buckets() =~= popped(before));
                return action;
            }
            assert(self.buckets() =~= before);
        }
        None
    }
}

impl<D, O, V> Default for ActionQueue<D, O, V> {
    fn default() -> (q: Self)
        ensures
            q.wf(),
            q.buckets().len() == NUM_PRIORITIES,
            forall|i: int| 0 <= i < NUM_PRIORITIES ==> (#[trigger] q.buckets()[i]).len() == 0,
    {
        Self::new()
    }
}

/// Popping hands out actions in drain order: the action returned is the
/// first of every pending action (highest priority first, queued order
/// within a priority), and what stays pending is the rest, in the same order.
pub proof fn lemma_pop_follows_drain_order<T>(buckets: Seq<Seq<T>>)
    requires
        buckets.len() == NUM_PRIORITIES,
    ensures
        drain_order(buckets).len() == 0 <==> top_priority(buckets) < 0,
        drain_order(buckets).len() > 0 ==> buckets[top_priority(buckets)][0] == drain_order(
            buckets,
        )[0],
        drain_order(popped(buckets)) == if drain_order(buckets).len() > 0 {
            drain_order(buckets).drop_first()
        } else {
            drain_order(buckets)
        },
{
    let p = popped(buckets);
    if top_priority(buckets) == 2 {
        assert(drain_order(p) =~= drain_order(buckets).drop_first());
    } else if top_priority(buckets) == 1 {
        assert(buckets[2] =~= Seq::<T>::empty());
        assert(drain_order(p) =~= drain_order(buckets).drop_first());
    } else if top_priority(buckets) == 0 {
        assert(buckets[2] =~= Seq::<T>::empty());
        assert(buckets[1] =~= Seq::<T>::empty());
        assert(drain_order(p) =~= drain_order(buckets).drop_first());
    }
}

/// Queueing an action keeps every pending action and adds one: the new
/// action comes after every pending action of its priority or higher and
/// before every action of lower priority.
pub proof fn lemma_queue_places_by_priority<T>(buckets: Seq<Seq<T>>, p: int, a: T)
    requires
        buckets.len() == NUM_PRIORITIES,
        0 <= p < NUM_PRIORITIES,
    ensures
        drain_order(queued(buckets, p, a)) == ({
            let before = drain_order(buckets);
            let k = if p == 2 {
                buckets[2].len()
            } else if p == 1 {
                buckets[2].len() + buckets[1].len()
            } else {
                before.len()
            };
            before.subrange(0, k as int).push(a) + before.subrange(k as int, before.len() as int)
        }),
{
    let q = queued(buckets, p, a);
    let before = drain_order(buckets);
    if p == 2 {
        assert(drain_order(q) =~= before.subrange(0, buckets[2].len() as int).push(a)
            + before.subrange(buckets[2].len() as int, before.len() as int));
    } else if p == 1 {
        let k = buckets[2].len() + buckets[1].len();
        assert(drain_order(q) =~= before.subrange(0, k as int).push(a) + before.subrange(
            k as int,
            before.len() as int,
        ));
    } else {
        assert(drain_order(q) =~= before.subrange(0, before.len() as int).push(a)
            + before.subrange(before.len() as int, before.len() as int));
    }
}

/// On an empty queue, the action just queued is the one popped, and the
/// queue is empty again afterwards.
pub proof fn lemma_queue_then_pop_on_empty<T>(buckets: Seq<Seq<T>>, p: int, a: T)
    requires
        buckets.len() == NUM_PRIORITIES,
        forall|i: int| 0 <= i < NUM_PRIORITIES ==> (#[trigger] buckets[i]).len() == 0,
        0 <= p < NUM_PRIORITIES,
    ensures
        top_priority(queued(buckets, p, a)) == p,
        queued(buckets, p, a)[p][0] == a,
        popped(queued(buckets, p, a)) == buckets,
{
    let q = queued(buckets, p, a);
    assert(buckets[0].len() == 0 && buckets[1].len() == 0 && buckets[2].len() == 0);
    assert(q[p] =~= seq![a]);
    assert(popped(q)[p] =~= buckets[p]);
    assert(popped(q) =~= buckets);
}

/// The buckets after queueing `actions` in order into `buckets`, action
/// `i` with priority `prios[i]`.
pub open spec fn queued_all<T>(buckets: Seq<Seq<T>>, prios: Seq<int>, actions: Seq<T>) -> Seq<Seq<T>>
    decreases actions.len(),
{
    if actions.len() == 0 {
        buckets
    } else {
        let n = actions.len() - 1;
        queued(queued_all(buckets, prios, actions.take(n)), prios[n], actions[n])
    }
}

/// The actions of priority `p`, in the order they come.
pub open spec fn with_priority<T>(prios: Seq<int>, actions: Seq<T>, p: int) -> Seq<T>
    decreases actions.len(),
{
    if actions.len() == 0 {
        Seq::empty()
    } else {
        let n = actions.len() - 1;
        let rest = with_priority(prios, actions.take(n), p);
        if prios[n] == p {
            rest.push(actions[n])
        } else {
            rest
        }
    }
}

/// What `n` pops in a row hand out: the front of the highest non-empty
/// bucket each time, while there is one.
pub open spec fn pops<T>(buckets: Seq<Seq<T>>, n: nat) -> Seq<T>
    decreases n,
{
    if n == 0 || top_priority(buckets) < 0 {
        Seq::empty()
    } else {
        seq![buckets[top_priority(buckets)][0]] + pops(popped(buckets), (n - 1) as nat)
    }
}

/// The buckets after `n` pops in a row.
pub open spec fn popped_n<T>(buckets: Seq<Seq<T>>, n: nat) -> Seq<Seq<T>>
    decreases n,
{
    if n == 0 {
        buckets
    } else {
        popped_n(popped(buckets), (n - 1) as nat)
    }
}

proof fn lemma_queued_all_buckets<T>(buckets: Seq<Seq<T>>, prios: Seq<int>, actions: Seq<T>)
    requires
        buckets.len() == NUM_PRIORITIES,
        forall|i: int| 0 <= i < NUM_PRIORITIES ==> (#[trigger] buckets[i]).len() == 0,
        prios.len() == actions.len(),
        forall|i: int| 0 <= i < prios.len() ==> 0 <= #[trigger] prios[i] < NUM_PRIORITIES,
    ensures
        queued_all(buckets, prios, actions).len() == NUM_PRIORITIES,
        forall|p: int| 0 <= p < NUM_PRIORITIES ==> #[trigger] queued_all(buckets, prios, actions)[p] == with_priority(prios, actions, p),
    decreases actions.len(),
{
    if actions.len() > 0 {
        let n = actions.len() - 1;
        let pre = actions.take(n);
        let pp = prios.take(n);
        lemma_queued_all_buckets(buckets, pp, pre);
        assert forall|p: int| 0 <= p < NUM_PRIORITIES implies #[trigger] with_priority(pp, pre, p) == with_priority(prios, pre, p) by {
            lemma_with_priority_prefix(prios, pre, n, p);
        }
        lemma_queued_all_prefix(buckets, prios, pre, n);
    } else {
        assert forall|p: int| 0 <= p < NUM_PRIORITIES implies #[trigger] queued_all(buckets, prios, actions)[p] == with_priority(prios, actions, p) by {
            assert(buckets[p] =~= Seq::<T>::empty());
        }
    }
}

/// Only the priorities of the actions queued so far matter.
proof fn lemma_with_priority_prefix<T>(prios: Seq<int>, actions: Seq<T>, n: int, p: int)
    requires
        actions.len() == n,
        n <= prios.len(),
    ensures
        with_priority(prios.take(n), actions, p) == with_priority(prios, actions, p),
    decreases n,
{
    if n > 0 {
        lemma_with_priority_prefix(prios, actions.take(n - 1), n - 1, p);
        assert(prios.take(n).take(n - 1) =~= prios.take(n - 1));
        lemma_with_priority_prefix(prios.take(n), actions.take(n - 1), n - 1, p);
    }
}

proof fn lemma_queued_all_prefix<T>(buckets: Seq<Seq<T>>, prios: Seq<int>, actions: Seq<T>, n: int)
    requires
        actions.len() == n,
        n <= prios.len(),
    ensures
        queued_all(buckets, prios.take(n), actions) == queued_all(buckets, prios, actions),
    decreases n,
{
    if n > 0 {
        lemma_queued_all_prefix(buckets, prios, actions.take(n - 1), n - 1);
        assert(prios.take(n).take(n - 1) =~= prios.take(n - 1));
        lemma_queued_all_prefix(buckets, prios.take(n), actions.take(n - 1), n - 1);
    }
}

/// Popping as many times as actions are pending hands out all of them in
/// drain order and leaves every bucket empty.
proof fn lemma_pops_drain<T>(buckets: Seq<Seq<T>>)
    requires
        buckets.len() == NUM_PRIORITIES,
    ensures
        pops(buckets, drain_order(buckets).len()) == drain_order(buckets),
        top_priority(popped_n(buckets, drain_order(buckets).len())) < 0,
        popped_n(buckets, drain_order(buckets).len()).len() == NUM_PRIORITIES,
    decreases drain_order(buckets).len(),
{
    lemma_pop_follows_drain_order(buckets);
    let d = drain_order(buckets);
    if d.len() > 0 {
        let p = popped(buckets);
        assert(p.len() == NUM_PRIORITIES);
        lemma_pops_drain(p);
        assert(drain_order(p).len() == d.len() - 1);
        assert(pops(buckets, d.len()) =~= seq![d[0]] + drain_order(p));
        assert(d =~= seq![d[0]] + d.drop_first());
    }
}

/// Queueing actions on a new queue and then popping once per action hands
/// out each action exactly once: every initialize action first, then every
/// construct action, then all the others, each group in the order queued;
/// and the queue is then empty, so one more pop gives nothing.
pub proof fn lemma_drain_after_queueing<T>(empty: Seq<Seq<T>>, prios: Seq<int>, actions: Seq<T>)
    requires
        empty.len() == NUM_PRIORITIES,
        forall|i: int| 0 <= i < NUM_PRIORITIES ==> (#[trigger] empty[i]).len() == 0,
        prios.len() == actions.len(),
        forall|i: int| 0 <= i < prios.len() ==> 0 <= #[trigger] prios[i] < NUM_PRIORITIES,
    ensures
        pops(queued_all(empty, prios, actions), actions.len()) == with_priority(prios, actions, 2)
            + with_priority(prios, actions, 1) + with_priority(prios, actions, 0),
        top_priority(popped_n(queued_all(empty, prios, actions), actions.len())) < 0,
{
    let b = queued_all(empty, prios, actions);
    lemma_queued_all_buckets(empty, prios, actions);
    lemma_with_priority_len(prios, actions);
    assert(drain_order(b) == with_priority(prios, actions, 2) + with_priority(prios, actions, 1)
        + with_priority(prios, actions, 0));
    lemma_pops_drain(b);
}

/// Every action has one of the three priorities.
proof fn lemma_with_priority_len<T>(prios: Seq<int>, actions: Seq<T>)
    requires
        prios.len() == actions.len(),
        forall|i: int| 0 <= i < prios.len() ==> 0 <= #[trigger] prios[i] < NUM_PRIORITIES,
    ensures
        with_priority(prios, actions, 2).len() + with_priority(prios, actions, 1).len()
            + with_priority(prios, actions, 0).len() == actions.len(),
    decreases actions.len(),
{
    if actions.len() > 0 {
        let n = actions.len() - 1;
        lemma_with_priority_len(prios.take(n), actions.take(n));
        lemma_with_priority_prefix(prios, actions.take(n), n, 0);
        lemma_with_priority_prefix(prios, actions.take(n), n, 1);
        lemma_with_priority_prefix(prios, actions.take(n), n, 2);
        assert(prios[n] == 0 || prios[n] == 1 || prios[n] == 2);
    }
}

} // verus!
