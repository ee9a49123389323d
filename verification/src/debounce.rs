//! Debounce layer: batches rapid asset events into a single refresh.
//!
//! The debouncer records, per asset key, the time of its most recent event
//! (in nanoseconds on a monotonic clock) and releases the key once `window`
//! nanoseconds passed without a newer event. A removal and an addition or
//! modification supersede each other: the last event for a key wins.

use crate::event::AssetEvent;
use std::collections::HashMap;
use std::marker::PhantomData;
use vstd::prelude::*;
use vstd::std_specs::iter::IteratorSpec;

verus! {

/// The pending refreshes and pending removals, each keyed by asset with the
/// time of its latest event, after one event seen at `now`: an addition or
/// modification queues a refresh and drops a pending removal, a removal does
/// the reverse, and other events change nothing.
pub open spec fn queues_after(
    queues: (Map<u128, u128>, Map<u128, u128>),
    event: AssetEvent,
    now: u128,
) -> (Map<u128, u128>, Map<u128, u128>) {
    match event {
        AssetEvent::Added { id } | AssetEvent::Modified { id } => (
            queues.0.insert(id, now),
            queues.1.remove(id),
        ),
        AssetEvent::Removed { id } => (queues.0.remove(id), queues.1.insert(id, now)),
        _ => queues,
    }
}

/// The queues after each event of `events`, with the time it was seen, in
/// order.
pub open spec fn queues_after_all(
    queues: (Map<u128, u128>, Map<u128, u128>),
    events: Seq<(AssetEvent, u128)>,
) -> (Map<u128, u128>, Map<u128, u128>)
    decreases events.len(),
{
    if events.len() == 0 {
        queues
    } else {
        queues_after(
            queues_after_all(queues, events.drop_last()),
            events.last().0,
            events.last().1,
        )
    }
}

/// Whether an event recorded at `at` is due at `now` with a debounce window
/// of `window` nanoseconds (a clock reading earlier than `at` counts as no
/// time elapsed).
pub open spec fn is_due(at: u128, now: u128, window: u128) -> bool {
    (if now >= at {
        now - at
    } else {
        0
    }) >= window
}

/// The keys of `map` whose recorded time is due.
pub open spec fn due_keys(map: Map<u128, u128>, now: u128, window: u128) -> Set<u128> {
    Set::new(|k: u128| map.contains_key(k) && is_due(map[k], now, window))
}

/// The keys, in iteration order, of the due entries among `entries`.
pub open spec fn due_prefix(entries: Seq<(&u128, &u128)>, now: u128, window: u128) -> Seq<u128>
    decreases entries.len(),
{
    if entries.len() == 0 {
        Seq::empty()
    } else {
        let rest = due_prefix(entries.drop_last(), now, window);
        if is_due(*entries.last().1, now, window) {
            rest.push(*entries.last().0)
        } else {
            rest
        }
    }
}

proof fn lemma_due_prefix(entries: Seq<(&u128, &u128)>, now: u128, window: u128)
    ensures
        forall|k: u128| #[trigger]
            due_prefix(entries, now, window).contains(k) <==> exists|i: int|
                0 <= i < entries.len() && *entries[i].0 == k && is_due(*entries[i].1, now, window),
        (forall|i: int, j: int|
            0 <= i < entries.len() && 0 <= j < entries.len() && i != j ==> *entries[i].0
                != *entries[j].0) ==> due_prefix(entries, now, window).no_duplicates(),
    decreases entries.len(),
{
    if entries.len() > 0 {
        let init = entries.drop_last();
        lemma_due_prefix(init, now, window);
        let rest = due_prefix(init, now, window);
        assert forall|k: u128| #[trigger]
            due_prefix(entries, now, window).contains(k) <==> exists|i: int|
                0 <= i < entries.len() && *entries[i].0 == k && is_due(*entries[i].1, now, window) by {
            vstd::seq_lib::lemma_seq_contains_after_push(rest, *entries.last().0, k);
            if exists|i: int|
                0 <= i < entries.len() && *entries[i].0 == k && is_due(*entries[i].1, now, window) {
                let i = choose|i: int|
                    0 <= i < entries.len() && *entries[i].0 == k && is_due(
                        *entries[i].1,
                        now,
                        window,
                    );
                if i < entries.len() - 1 {
                    assert(init[i] == entries[i]);
                }
            }
            if rest.contains(k) {
                let i = choose|i: int|
                    0 <= i < init.len() && *init[i].0 == k && is_due(*init[i].1, now, window);
                assert(entries[i] == init[i]);
            }
        }
        if forall|i: int, j: int|
            0 <= i < entries.len() && 0 <= j < entries.len() && i != j ==> *entries[i].0
                != *entries[j].0 {
            assert forall|i: int, j: int|
                0 <= i < init.len() && 0 <= j < init.len() && i != j implies *init[i].0
                != *init[j].0 by {
                assert(init[i] == entries[i] && init[j] == entries[j]);
            }
            if is_due(*entries.last().1, now, window) {
                assert(!rest.contains(*entries.last().0)) by {
                    if rest.contains(*entries.last().0) {
                        let i = choose|i: int|
                            0 <= i < init.len() && *init[i].0 == *entries.last().0 && is_due(
                                *init[i].1,
                                now,
                                window,
                            );
                        assert(entries[i] == init[i]);
                    }
                }
                let pushed = rest.push(*entries.last().0);
                assert forall|a: int, b: int|
                    0 <= a < pushed.len() && 0 <= b < pushed.len() && a != b implies pushed[a]
                    != pushed[b] by {
                    if a < rest.len() && b < rest.len() {
                    } else if a < rest.len() {
                        assert(rest.contains(rest[a]));
                    } else {
                        assert(rest.contains(rest[b]));
                    }
                }
            }
        }
    }
}

/// The keys of `map` whose recorded time is due, each once.
pub fn due_entries(map: &HashMap<u128, u128>, now: u128, window: u128) -> (keys: Vec<u128>)
    ensures
        keys@.to_set() == due_keys(map@, now, window),
        keys@.no_duplicates(),
{
    let mut keys: Vec<u128> = Vec::new();
    for entry in it: map.iter()
        invariant
            keys@ == due_prefix(it.seq().take(it.index() as int), now, window),
    {
        let (k, t) = entry;
        assert(it.seq().take(it.index() as int + 1).drop_last() =~= it.seq().take(
            it.index() as int,
        ));
        if is_due_at(*t, now, window) {
            keys.push(*k);
        }
    }
    proof {
        let s = vstd::std_specs::hash::spec_hash_map_iter(map).remaining();
        assert(s.take(s.len() as int) =~= s);
        lemma_due_prefix(s, now, window);
        assert forall|i: int, j: int|
            0 <= i < s.len() && 0 <= j < s.len() && i != j implies *s[i].0 != *s[j].0 by {
            if *s[i].0 == *s[j].0 {
                assert(map@.contains_key(*s[i].0) && map@[*s[i].0] == *s[i].1);
                assert(map@.contains_key(*s[j].0) && map@[*s[j].0] == *s[j].1);
                assert(s[i] == s[j]);
            }
        }
        assert forall|k: u128| #[trigger] keys@.to_set().contains(k) <==> due_keys(
            map@,
            now,
            window,
        ).contains(k) by {
            if due_keys(map@, now, window).contains(k) {
                assert(s.contains((&k, &map@[k])));
                let i = choose|i: int| 0 <= i < s.len() && s[i] == (&k, &map@[k]);
                assert(*s[i].0 == k);
            }
            if keys@.contains(k) {
                let i = choose|i: int|
                    0 <= i < s.len() && *s[i].0 == k && is_due(*s[i].1, now, window);
                assert(map@.contains_key(*s[i].0) && map@[*s[i].0] == *s[i].1);
            }
        }
        assert(keys@.to_set() =~= due_keys(map@, now, window));
    }
    keys
}

/// Whether an event recorded at `at` is due at `now`.
pub fn is_due_at(at: u128, now: u128, window: u128) -> (due: bool)
    ensures
        due == is_due(at, now, window),
{
    let elapsed = if now >= at {
        now - at
    } else {
        0
    };
    elapsed >= window
}

/// Per-asset-type debouncer: pending refreshes and pending removals, each
/// asset key with the time of its most recent event.
pub struct RefreshDebouncer<A> {
    /// Keys with a pending refresh -> time of the most recent event.
    pub pending: HashMap<u128, u128>,
    /// Keys with a pending removal -> time of the removal event.
    pub pending_removed: HashMap<u128, u128>,
    /// Debounce window in nanoseconds.
    pub window_nanos: u128,
    /// Ties the debouncer to one asset type.
    pub marker: PhantomData<A>,
}

impl<A> RefreshDebouncer<A> {
    /// No key is pending both a refresh and a removal.
    pub open spec fn wf(&self) -> bool {
        forall|id: u128| #[trigger]
            self.pending@.contains_key(id) ==> !self.pending_removed@.contains_key(id)
    }

    /// An idle debouncer with the given window.
    pub fn new(window_nanos: u128) -> (debouncer: Self)
        ensures
            debouncer.wf(),
            debouncer.pending@ == Map::<u128, u128>::empty(),
            debouncer.pending_removed@ == Map::<u128, u128>::empty(),
            debouncer.window_nanos == window_nanos,
    {
        RefreshDebouncer {
            pending: HashMap::new(),
            pending_removed: HashMap::new(),
            window_nanos,
            marker: PhantomData,
        }
    }

    /// Queue a refresh of `id` for an event seen at `now`; an earlier
    /// pending removal of `id` is superseded.
    pub fn enqueue(&mut self, id: u128, now: u128)
        requires
            old(self).wf(),
        ensures
            final(self).wf(),
            final(self).pending@ == old(self).pending@.insert(id, now),
            final(self).pending_removed@ == old(self).pending_removed@.remove(id),
            final(self).window_nanos == old(self).window_nanos,
    {
        self.pending_removed.remove(&id);
        self.pending.insert(id, now);
    }

    /// Queue a removal of `id` seen at `now`; an earlier pending refresh of
    /// `id` is superseded.
    pub fn enqueue_removed(&mut self, id: u128, now: u128)
        requires
            old(self).wf(),
        ensures
            final(self).wf(),
            final(self).pending@ == old(self).pending@.remove(id),
            final(self).pending_removed@ == old(self).pending_removed@.insert(id, now),
            final(self).window_nanos == old(self).window_nanos,
    {
        self.pending.remove(&id);
        self.pending_removed.insert(id, now);
    }

    /// Route one asset event seen at `now`: additions and modifications
    /// queue a refresh, removals queue a removal, other events are ignored.
    pub fn handle_event(&mut self, event: AssetEvent, now: u128)
        requires
            old(self).wf(),
        ensures
            final(self).wf(),
            final(self).window_nanos == old(self).window_nanos,
            (final(self).pending@, final(self).pending_removed@) == queues_after(
                (old(self).pending@, old(self).pending_removed@),
                event,
                now,
            ),
    {
        match event {
            AssetEvent::Added { id } => self.enqueue(id, now),
            AssetEvent::Modified { id } => self.enqueue(id, now),
            AssetEvent::Removed { id } => self.enqueue_removed(id, now),
            _ => {},
        }
    }

    /// Release the removals that are due at `now`: they leave both queues
    /// and are returned, each once.
    pub fn take_due_removals(&mut self, now: u128) -> (due: Vec<u128>)
        requires
            old(self).wf(),
        ensures
            final(self).wf(),
            due@.to_set() == due_keys(old(self).pending_removed@, now, old(self).window_nanos),
            due@.no_duplicates(),
            final(self).pending_removed@ == old(self).pending_removed@.remove_keys(due@.to_set()),
            final(self).pending@ == old(self).pending@.remove_keys(due@.to_set()),
            final(self).window_nanos == old(self).window_nanos,
    {
        let due = due_entries(&self.pending_removed, now, self.window_nanos);
        let mut i: usize = 0;
        while i < due.len()
            invariant
                i <= due@.len(),
                self.window_nanos == old(self).window_nanos,
                self.pending_removed@ == old(self).pending_removed@.remove_keys(
                    due@.take(i as int).to_set(),
                ),
                self.pending@ == old(self).pending@.remove_keys(due@.take(i as int).to_set()),
            decreases due@.len() - i,
        {
            let id = due[i];
            self.pending_removed.remove(&id);
            self.pending.remove(&id);
            proof {
                assert(due@.take(i + 1) =~= due@.take(i as int).push(id));
                due@.take(i as int).lemma_push_to_set_commute(id);
                assert(self.pending_removed@ =~= old(self).pending_removed@.remove_keys(
                    due@.take(i + 1).to_set(),
                ));
                assert(self.pending@ =~= old(self).pending@.remove_keys(
                    due@.take(i + 1).to_set(),
                ));
            }
            i = i + 1;
        }
        assert(due@.take(due@.len() as int) =~= due@);
        proof {
            assert forall|id: u128| #[trigger] self.pending@.contains_key(id) implies !self.pending_removed@.contains_key(
                id,
            ) by {
                assert(old(self).pending@.contains_key(id));
            }
        }
        due
    }

    /// Release the refreshes that are due at `now`: they leave the queue and
    /// are returned, each once.
    pub fn take_due_refreshes(&mut self, now: u128) -> (due: Vec<u128>)
        requires
            old(self).wf(),
        ensures
            final(self).wf(),
            due@.to_set() == due_keys(old(self).pending@, now, old(self).window_nanos),
            due@.no_duplicates(),
            final(self).pending@ == old(self).pending@.remove_keys(due@.to_set()),
            final(self).pending_removed@ == old(self).pending_removed@,
            final(self).window_nanos == old(self).window_nanos,
    {
        let due = due_entries(&self.pending, now, self.window_nanos);
        let mut i: usize = 0;
        while i < due.len()
            invariant
                i <= due@.len(),
                self.window_nanos == old(self).window_nanos,
                self.pending_removed@ == old(self).pending_removed@,
                self.pending@ == old(self).pending@.remove_keys(due@.take(i as int).to_set()),
            decreases due@.len() - i,
        {
            let id = due[i];
            self.pending.remove(&id);
            proof {
                assert(due@.take(i + 1) =~= due@.take(i as int).push(id));
                due@.take(i as int).lemma_push_to_set_commute(id);
                assert(self.pending@ =~= old(self).pending@.remove_keys(
                    due@.take(i + 1).to_set(),
                ));
            }
            i = i + 1;
        }
        assert(due@.take(due@.len() as int) =~= due@);
        proof {
            assert forall|id: u128| #[trigger] self.pending@.contains_key(id) implies !self.pending_removed@.contains_key(
                id,
            ) by {
                assert(old(self).pending@.contains_key(id));
            }
        }
        due
    }
}

impl<A> Default for RefreshDebouncer<A> {
    /// An idle debouncer with the default 150 ms window.
    fn default() -> (debouncer: Self)
        ensures
            debouncer.wf(),
            debouncer.pending@ == Map::<u128, u128>::empty(),
            debouncer.pending_removed@ == Map::<u128, u128>::empty(),
            debouncer.window_nanos == 150_000_000,
    {
        Self::new(150_000_000)
    }
}

} // verus!
