//! The change bus: who listens to which topic, and who is due a wake-up.

use crate::change::{lemma_key_injective, Change};
use crate::queue::{items, queue_drain, queue_insert, queue_new};
use crate::set_map::BidirectionalSetMap;
use indexmap::IndexSet;
use vstd::prelude::*;
use vstd::std_specs::hash::*;
use vstd::std_specs::iter::IteratorSpec;

verus! {

broadcast use vstd::std_specs::hash::group_hash_axioms;

/// Subscriptions of observers to topics, and the observers queued for a
/// wake-up since the last flush.
pub struct ChangeBus {
    /// Topic keys against the handles subscribed to them
    hooks: BidirectionalSetMap<u128, u64>,
    /// Handles pending a wake-up
    queued: IndexSet<u64>,
}

/// The handles that `subscriptions` relates to `topic`.
pub open spec fn listeners(subscriptions: Set<(Change, u64)>, topic: Change) -> Set<u64> {
    Set::new(|handle: u64| subscriptions.contains((topic, handle)))
}

/// The handles that `subscriptions` relates to at least one of `topics`.
pub open spec fn listeners_of_any(subscriptions: Set<(Change, u64)>, topics: Set<Change>) -> Set<
    u64,
> {
    Set::new(
        |handle: u64|
            exists|topic: Change|
                topics.contains(topic) && #[trigger] subscriptions.contains((topic, handle)),
    )
}

/// The subscriptions once `handle` has subscribed to each of `topics`.
pub open spec fn subscribed(subscriptions: Set<(Change, u64)>, handle: u64, topics: Seq<Change>) -> Set<
    (Change, u64),
> {
    Set::new(
        |p: (Change, u64)| subscriptions.contains(p) || (p.1 == handle && topics.contains(p.0)),
    )
}

/// The subscriptions once `handle` has left each of `topics`.
pub open spec fn unsubscribed(subscriptions: Set<(Change, u64)>, handle: u64, topics: Seq<Change>) -> Set<
    (Change, u64),
> {
    Set::new(
        |p: (Change, u64)| subscriptions.contains(p) && !(p.1 == handle && topics.contains(p.0)),
    )
}

/// The subscriptions once `handle` has left every topic.
pub open spec fn without_handle(subscriptions: Set<(Change, u64)>, handle: u64) -> Set<
    (Change, u64),
> {
    Set::new(|p: (Change, u64)| subscriptions.contains(p) && p.1 != handle)
}

/// The handles due a wake-up once each of `topics` has been marked, with
/// `pending` due one before.
pub open spec fn after_marks(
    subscriptions: Set<(Change, u64)>,
    pending: Set<u64>,
    topics: Seq<Change>,
) -> Set<u64>
    decreases topics.len(),
{
    if topics.len() == 0 {
        pending
    } else {
        after_marks(subscriptions, pending, topics.drop_last()).union(
            listeners(subscriptions, topics.last()),
        )
    }
}

/// However often and in whatever order topics are marked, the handles due a
/// wake-up are those that were due one before and those that listen to at
/// least one of the marked topics: no handle is missed, and since they form
/// a set, none is due more than one.
pub proof fn lemma_marks_collapse(
    subscriptions: Set<(Change, u64)>,
    pending: Set<u64>,
    topics: Seq<Change>,
)
    ensures
        after_marks(subscriptions, pending, topics) == pending.union(
            listeners_of_any(subscriptions, topics.to_set()),
        ),
    decreases topics.len(),
{
    let all = listeners_of_any(subscriptions, topics.to_set());
    if topics.len() == 0 {
        assert forall|h: u64| !all.contains(h) by {
            if all.contains(h) {
                let topic = choose|topic: Change|
                    topics.to_set().contains(topic) && #[trigger] subscriptions.contains(
                        (topic, h),
                    );
                assert(topics.contains(topic));
            }
        }
        assert(after_marks(subscriptions, pending, topics) =~= pending.union(all));
    } else {
        let front = topics.drop_last();
        lemma_marks_collapse(subscriptions, pending, front);
        let before = listeners_of_any(subscriptions, front.to_set());
        let last = listeners(subscriptions, topics.last());
        assert forall|h: u64| all.contains(h) <==> before.contains(h) || last.contains(h) by {
            if all.contains(h) {
                let topic = choose|topic: Change|
                    topics.to_set().contains(topic) && #[trigger] subscriptions.contains(
                        (topic, h),
                    );
                assert(topics.contains(topic));
                let i = choose|i: int| 0 <= i < topics.len() && topics[i] == topic;
                if i < front.len() {
                    assert(front[i] == topic);
                    assert(front.to_set().contains(topic));
                }
            }
            if before.contains(h) {
                let topic = choose|topic: Change|
                    front.to_set().contains(topic) && #[trigger] subscriptions.contains(
                        (topic, h),
                    );
                assert(front.contains(topic));
                let i = choose|i: int| 0 <= i < front.len() && front[i] == topic;
                assert(topics[i] == topic);
                assert(topics.to_set().contains(topic));
            }
            if last.contains(h) {
                assert(topics[topics.len() - 1] == topics.last());
                assert(topics.to_set().contains(topics.last()));
                assert(subscriptions.contains((topics.last(), h)));
            }
        }
        assert(after_marks(subscriptions, pending, topics) =~= pending.union(all));
    }
}

/// Whether `h` is one of the first `n` handles of `all`.
spec fn among(all: Seq<&u64>, n: int, h: u64) -> bool {
    exists|i: int| 0 <= i < n && *(#[trigger] all[i]) == h
}

/// What a sequence holds once a value has been pushed: what it held, and the
/// value.
proof fn lemma_push_contains(s: Seq<u64>, v: u64)
    ensures
        forall|h: u64| #[trigger] s.push(v).contains(h) <==> s.contains(h) || h == v,
{
    assert forall|h: u64| #[trigger] s.push(v).contains(h) <==> s.contains(h) || h == v by {
        if s.contains(h) {
            let j = choose|j: int| 0 <= j < s.len() && s[j] == h;
            assert(s.push(v)[j] == h);
        }
        if h == v {
            assert(s.push(v)[s.len() as int] == h);
        }
        if s.push(v).contains(h) {
            let j = choose|j: int| 0 <= j < s.push(v).len() && s.push(v)[j] == h;
            if j < s.len() {
                assert(s[j] == h);
            }
        }
    }
}

impl ChangeBus {
    /// The subscriptions: which handle listens to which topic.
    pub closed spec fn subscriptions(&self) -> Set<(Change, u64)> {
        Set::new(|p: (Change, u64)| self.hooks@.contains((p.0.key(), p.1)))
    }

    /// The handles queued for a wake-up, in the order in which they were
    /// first queued.
    pub closed spec fn queue(&self) -> Seq<u64> {
        items(self.queued)
    }

    /// The handles queued for a wake-up.
    pub closed spec fn pending(&self) -> Set<u64> {
        items(self.queued).to_set()
    }

    /// The index is consistent and nobody is queued twice.
    pub closed spec fn wf(&self) -> bool {
        &&& self.hooks.wf()
        &&& items(self.queued).no_duplicates()
    }

    /// A bus without subscriptions, with nobody queued.
    pub fn new() -> (bus: Self)
        ensures
            bus.wf(),
            bus.subscriptions() == Set::<(Change, u64)>::empty(),
            bus.pending() == Set::<u64>::empty(),
            bus.queue() == Seq::<u64>::empty(),
    {
        let bus = ChangeBus { hooks: BidirectionalSetMap::new(), queued: queue_new() };
        assert(bus.subscriptions() =~= Set::<(Change, u64)>::empty());
        assert(bus.pending() =~= Set::<u64>::empty());
        bus
    }

    /// Subscribes `handle` to `topic`.
    pub fn subscribe_topic(&mut self, handle: u64, topic: Change)
        requires
            old(self).wf(),
        ensures
            final(self).wf(),
            final(self).subscriptions() == old(self).subscriptions().insert((topic, handle)),
            final(self).pending() == old(self).pending(),
            final(self).queue() == old(self).queue(),
    {
        self.hooks.insert(topic.code(), handle);
        proof {
            assert forall|p: (Change, u64)|
                self.subscriptions().contains(p) <==> old(self).subscriptions().insert(
                    (topic, handle),
                ).contains(p) by {
                if p.0.key() == topic.key() {
                    lemma_key_injective(p.0, topic);
                }
            }
            assert(self.subscriptions() =~= old(self).subscriptions().insert((topic, handle)));
        }
    }

    /// Ends the subscription of `handle` to `topic`, if there is one.
    pub fn unsubscribe_topic(&mut self, handle: u64, topic: Change)
        requires
            old(self).wf(),
        ensures
            final(self).wf(),
            final(self).subscriptions() == old(self).subscriptions().remove((topic, handle)),
            final(self).pending() == old(self).pending(),
            final(self).queue() == old(self).queue(),
    {
        let key = topic.code();
        self.hooks.remove_by_key_value(&key, &handle);
        proof {
            assert forall|p: (Change, u64)|
                self.subscriptions().contains(p) <==> old(self).subscriptions().remove(
                    (topic, handle),
                ).contains(p) by {
                if p.0.key() == topic.key() {
                    lemma_key_injective(p.0, topic);
                }
            }
            assert(self.subscriptions() =~= old(self).subscriptions().remove((topic, handle)));
        }
    }

    /// Subscribes `handle` to each of `topics`.
    pub fn subscribe(&mut self, handle: u64, topics: &Vec<Change>)
        requires
            old(self).wf(),
        ensures
            final(self).wf(),
            final(self).subscriptions() == subscribed(old(self).subscriptions(), handle, topics@),
            final(self).pending() == old(self).pending(),
            final(self).queue() == old(self).queue(),
    {
        let ghost start = self.subscriptions();
        let mut i: usize = 0;
        assert(self.subscriptions() =~= subscribed(start, handle, topics@.take(0)));
        while i < topics.len()
            invariant
                i <= topics.len(),
                self.wf(),
                self.pending() == old(self).pending(),
                self.queue() == old(self).queue(),
                self.subscriptions() == subscribed(start, handle, topics@.take(i as int)),
            decreases topics.len() - i,
        {
            self.subscribe_topic(handle, topics[i]);
            proof {
                let now = topics@.take(i as int);
                let next = topics@.take(i + 1);
                assert forall|topic: Change|
                    next.contains(topic) <==> now.contains(topic) || topic == topics@[i as int] by {
                    if now.contains(topic) {
                        let k = choose|k: int| 0 <= k < now.len() && now[k] == topic;
                        assert(next[k] == topic);
                    }
                    if topic == topics@[i as int] {
                        assert(next[i as int] == topic);
                    }
                    if next.contains(topic) {
                        let k = choose|k: int| 0 <= k < next.len() && next[k] == topic;
                        if k < i {
                            assert(now[k] == topic);
                        }
                    }
                }
                assert(self.subscriptions() =~= subscribed(start, handle, next));
            }
            i = i + 1;
        }
        assert(topics@.take(topics@.len() as int) =~= topics@);
    }

    /// Ends the subscriptions of `handle` to each of `topics`.
    pub fn unsubscribe(&mut self, handle: u64, topics: &Vec<Change>)
        requires
            old(self).wf(),
        ensures
            final(self).wf(),
            final(self).subscriptions() == unsubscribed(
                old(self).subscriptions(),
                handle,
                topics@,
            ),
            final(self).pending() == old(self).pending(),
            final(self).queue() == old(self).queue(),
    {
        let ghost start = self.subscriptions();
        let mut i: usize = 0;
        assert(self.subscriptions() =~= unsubscribed(start, handle, topics@.take(0)));
        while i < topics.len()
            invariant
                i <= topics.len(),
                self.wf(),
                self.pending() == old(self).pending(),
                self.queue() == old(self).queue(),
                self.subscriptions() == unsubscribed(start, handle, topics@.take(i as int)),
            decreases topics.len() - i,
        {
            self.unsubscribe_topic(handle, topics[i]);
            proof {
                let now = topics@.take(i as int);
                let next = topics@.take(i + 1);
                assert forall|topic: Change|
                    next.contains(topic) <==> now.contains(topic) || topic == topics@[i as int] by {
                    if now.contains(topic) {
                        let k = choose|k: int| 0 <= k < now.len() && now[k] == topic;
                        assert(next[k] == topic);
                    }
                    if topic == topics@[i as int] {
                        assert(next[i as int] == topic);
                    }
                    if next.contains(topic) {
                        let k = choose|k: int| 0 <= k < next.len() && next[k] == topic;
                        if k < i {
                            assert(now[k] == topic);
                        }
                    }
                }
                assert(self.subscriptions() =~= unsubscribed(start, handle, next));
            }
            i = i + 1;
        }
        assert(topics@.take(topics@.len() as int) =~= topics@);
    }

    /// Ends every subscription of `handle`.
    pub fn unsubscribe_all(&mut self, handle: u64)
        requires
            old(self).wf(),
        ensures
            final(self).wf(),
            final(self).subscriptions() == without_handle(old(self).subscriptions(), handle),
            final(self).pending() == old(self).pending(),
            final(self).queue() == old(self).queue(),
    {
        self.hooks.remove_by_value(&handle);
        assert(self.subscriptions() =~= without_handle(old(self).subscriptions(), handle));
    }

    /// Queues every handle subscribed to `topic` for a wake-up. One that is
    /// queued already stays queued once.
    pub fn mark(&mut self, topic: Change)
        requires
            old(self).wf(),
        ensures
            final(self).wf(),
            final(self).subscriptions() == old(self).subscriptions(),
            final(self).pending() == old(self).pending().union(
                listeners(old(self).subscriptions(), topic),
            ),
            old(self).queue().is_prefix_of(final(self).queue()),
    {
        let key = topic.code();
        let ghost before = items(self.queued);
        let ghost hooks = self.hooks;
        let ghost wanted = listeners(old(self).subscriptions(), topic);
        match self.hooks.get_by_key(&key) {
            Some(subs) => {
                let ghost all = subs.iter().remaining();
                for handle in iter: subs.iter()
                    invariant
                        iter.seq() == all,
                        self.hooks == hooks,
                        before.is_prefix_of(items(self.queued)),
                        items(self.queued).no_duplicates(),
                        forall|h: u64| #[trigger]
                            items(self.queued).contains(h) <==> before.contains(h) || among(
                                all,
                                iter.index(),
                                h,
                            ),
                {
                    let ghost prev = items(self.queued);
                    let ghost done = iter.index();
                    assert(*all[done] == *handle);
                    let fresh = queue_insert(&mut self.queued, *handle);
                    proof {
                        lemma_push_contains(prev, *handle);
                        assert forall|h: u64| #[trigger]
                            items(self.queued).contains(h) <==> before.contains(h) || among(
                                all,
                                done + 1,
                                h,
                            ) by {
                            assert(prev.contains(h) <==> before.contains(h) || among(all, done, h));
                            if among(all, done + 1, h) {
                                let i = choose|i: int|
                                    0 <= i < done + 1 && *(#[trigger] all[i]) == h;
                                if i < done {
                                    assert(among(all, done, h));
                                }
                            }
                            if among(all, done, h) {
                                let i = choose|i: int| 0 <= i < done && *(#[trigger] all[i]) == h;
                                assert(0 <= i < done + 1 && *all[i] == h);
                            }
                        }
                    }
                }
                proof {
                    assert(all.unref().to_set() == subs@);
                    assert forall|h: u64|
                        self.pending().contains(h) <==> old(self).pending().union(
                            wanted,
                        ).contains(h) by {
                        assert(items(self.queued).contains(h) <==> before.contains(h) || among(
                            all,
                            all.len() as int,
                            h,
                        ));
                        if wanted.contains(h) {
                            assert(old(self).subscriptions().contains((topic, h)));
                            assert(hooks@.contains((key, h)));
                            assert(subs@.contains(h));
                            assert(all.unref().to_set().contains(h));
                            let i = choose|i: int|
                                0 <= i < all.unref().len() && all.unref()[i] == h;
                            assert(*all[i] == h);
                        }
                        if among(all, all.len() as int, h) {
                            let i = choose|i: int| 0 <= i < all.len() && *(#[trigger] all[i]) == h;
                            assert(all.unref()[i] == h);
                            assert(all.unref().to_set().contains(h));
                            assert(subs@.contains(h));
                            assert(hooks@.contains((key, h)));
                            assert(old(self).subscriptions().contains((topic, h)));
                        }
                    }
                }
            },
            None => {
                proof {
                    assert forall|h: u64| !wanted.contains(h) by {
                        if old(self).subscriptions().contains((topic, h)) {
                            assert(hooks@.contains((key, h)));
                        }
                    }
                }
            },
        }
        assert(self.pending() =~= old(self).pending().union(wanted));
    }

    /// Empties the queue and returns the handles to wake: each handle that
    /// was queued since the last flush, once, in the order in which they
    /// were first queued.
    pub fn flush(&mut self) -> (wake: Vec<u64>)
        requires
            old(self).wf(),
        ensures
            final(self).wf(),
            final(self).subscriptions() == old(self).subscriptions(),
            final(self).pending() == Set::<u64>::empty(),
            wake@ == old(self).queue(),
            wake@.no_duplicates(),
            wake@.to_set() == old(self).pending(),
    {
        let wake = queue_drain(&mut self.queued);
        assert(self.pending() =~= Set::<u64>::empty());
        wake
    }
}

} // verus!
