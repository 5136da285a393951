//! Which keys this provider has written, so that a flush deletes those and no others.
//!
//! A key is tracked from the start of a write. It stays tracked while a write of it is under way
//! or has succeeded. Every write carries a generation, and a flush drops only keys that were not
//! written after the flush looked.

use vstd::hash_map::StringHashMap;
use vstd::prelude::*;

verus! {

/// What is known of a key.
#[derive(Debug, Clone, Copy, PartialEq, Eq, Structural)]
pub struct TrackedKey {
    /// Whether a write has succeeded.
    pub confirmed: bool,
    /// How many writes have started and not ended.
    pub pending_writes: usize,
    /// The generation of the last write that was started.
    pub generation: u64,
}

/// A key that a flush deletes, as it was when the flush looked.
#[derive(Debug)]
pub struct FlushCandidate {
    pub key: String,
    pub generation: u64,
}

/// The content of a `FlushCandidate`.
pub struct CandidateView {
    pub key: Seq<char>,
    pub generation: u64,
}

impl View for FlushCandidate {
    type V = CandidateView;

    open spec fn view(&self) -> CandidateView {
        CandidateView { key: self.key@, generation: self.generation }
    }
}

/// The tracked keys and the generation of the last write.
pub struct TrackerView {
    pub entries: Map<Seq<char>, TrackedKey>,
    pub next_generation: u64,
}

impl TrackerView {
    /// A tracked key has a write that succeeded or is under way, and its generation is that of a
    /// write.
    pub open spec fn well_formed(self) -> bool {
        forall|key: Seq<char>| #[trigger]
            self.entries.contains_key(key) ==> {
                &&& self.entries[key].confirmed || self.entries[key].pending_writes > 0
                &&& self.entries[key].generation <= self.next_generation
            }
    }

    /// What is known of a key, also where it is not tracked.
    pub open spec fn known(self, key: Seq<char>) -> TrackedKey {
        if self.entries.contains_key(key) {
            self.entries[key]
        } else {
            TrackedKey { confirmed: false, pending_writes: 0, generation: 0 }
        }
    }

    /// Whether another write of the key can be counted.
    pub open spec fn can_begin(self, key: Seq<char>) -> bool {
        self.next_generation < u64::MAX && self.known(key).pending_writes < usize::MAX
    }

    /// After the start of a write.
    pub open spec fn begun(self, key: Seq<char>) -> TrackerView {
        let generation = (self.next_generation + 1) as u64;
        TrackerView {
            entries: self.entries.insert(
                key,
                TrackedKey {
                    confirmed: self.known(key).confirmed,
                    pending_writes: (self.known(key).pending_writes + 1) as usize,
                    generation,
                },
            ),
            next_generation: generation,
        }
    }

    /// After the end of a write. A key without a write that succeeded or is under way is no
    /// longer tracked.
    pub open spec fn written(self, key: Seq<char>, succeeded: bool) -> TrackerView {
        if !self.entries.contains_key(key) {
            self
        } else {
            let entry = self.entries[key];
            let left = if entry.pending_writes > 0 {
                (entry.pending_writes - 1) as usize
            } else {
                0
            };
            if !entry.confirmed && !succeeded && left == 0 {
                TrackerView { entries: self.entries.remove(key), ..self }
            } else {
                TrackerView {
                    entries: self.entries.insert(
                        key,
                        TrackedKey {
                            confirmed: entry.confirmed || succeeded,
                            pending_writes: left,
                            generation: entry.generation,
                        },
                    ),
                    ..self
                }
            }
        }
    }

    /// After a delete. A key with a write under way stays tracked.
    pub open spec fn deleted(self, key: Seq<char>) -> TrackerView {
        if !self.entries.contains_key(key) {
            self
        } else {
            let entry = self.entries[key];
            if entry.pending_writes == 0 {
                TrackerView { entries: self.entries.remove(key), ..self }
            } else {
                TrackerView {
                    entries: self.entries.insert(
                        key,
                        TrackedKey {
                            confirmed: false,
                            pending_writes: entry.pending_writes,
                            generation: entry.generation,
                        },
                    ),
                    ..self
                }
            }
        }
    }

    /// After a flush has deleted a candidate. A key that was written since stays tracked.
    pub open spec fn flushed(self, candidate: CandidateView) -> TrackerView {
        if self.entries.contains_key(candidate.key) && self.entries[candidate.key].generation
            <= candidate.generation {
            TrackerView { entries: self.entries.remove(candidate.key), ..self }
        } else {
            self
        }
    }

    /// Whether `candidates` are the tracked keys with their generations, each once, in any order.
    pub open spec fn listed(self, candidates: Seq<CandidateView>) -> bool {
        &&& forall|i: int|
            0 <= i < candidates.len() ==> self.entries.contains_key(
                (#[trigger] candidates[i]).key,
            ) && self.entries[candidates[i].key].generation == candidates[i].generation
        &&& forall|i: int, j: int|
            0 <= i < j < candidates.len() ==> (#[trigger] candidates[i]).key != (
            #[trigger] candidates[j]).key
        &&& forall|key: Seq<char>| #[trigger]
            self.entries.contains_key(key) ==> exists|i: int|
                0 <= i < candidates.len() && (#[trigger] candidates[i]).key == key
    }
}

/// The contents of a list of candidates.
pub open spec fn candidate_views(candidates: Seq<FlushCandidate>) -> Seq<CandidateView> {
    Seq::new(candidates.len(), |i: int| candidates[i]@)
}

struct Slot {
    key: String,
    entry: TrackedKey,
}

/// The keys that a provider has written.
pub struct KeyTracker {
    slots: Vec<Slot>,
    places: StringHashMap<usize>,
    next_generation: u64,
}

impl View for KeyTracker {
    type V = TrackerView;

    closed spec fn view(&self) -> TrackerView {
        TrackerView {
            entries: Map::new(
                |key: Seq<char>| self.places@.contains_key(key),
                |key: Seq<char>| self.slots@[self.places@[key] as int].entry,
            ),
            next_generation: self.next_generation,
        }
    }
}

impl KeyTracker {
    /// Every slot is found under its key, and every key leads to its slot.
    pub closed spec fn consistent(self) -> bool {
        &&& forall|i: int|
            0 <= i < self.slots@.len() ==> self.places@.contains_key(
                (#[trigger] self.slots@[i]).key@,
            ) && self.places@[self.slots@[i].key@] == i
        &&& forall|key: Seq<char>| #[trigger]
            self.places@.contains_key(key) ==> self.places@[key] < self.slots@.len()
                && self.slots@[self.places@[key] as int].key@ == key
    }

    /// What holds of every tracker.
    pub open spec fn well_formed(self) -> bool {
        self.consistent() && self@.well_formed()
    }

    /// A tracker without keys.
    pub fn new() -> (tracker: Self)
        ensures
            tracker.well_formed(),
            tracker@.entries == Map::<Seq<char>, TrackedKey>::empty(),
            tracker@.next_generation == 0,
    {
        let tracker = KeyTracker {
            slots: Vec::new(),
            places: StringHashMap::new(),
            next_generation: 0,
        };
        assert(tracker@.entries =~= Map::<Seq<char>, TrackedKey>::empty());
        tracker
    }

    /// What is known of a key, if it is tracked.
    pub fn find(&self, key: &str) -> (found: Option<TrackedKey>)
        requires
            self.well_formed(),
        ensures
            found == if self@.entries.contains_key(key@) {
                Some(self@.entries[key@])
            } else {
                None
            },
    {
        match self.places.get(key) {
            Some(place) => Some(self.slots[*place].entry),
            None => None,
        }
    }

    /// Whether another write of the key can be counted.
    pub fn can_begin(&self, key: &str) -> (can: bool)
        requires
            self.well_formed(),
        ensures
            can == self@.can_begin(key@),
    {
        let pending: usize = match self.find(key) {
            Some(entry) => entry.pending_writes,
            None => 0,
        };
        self.next_generation < u64::MAX && pending < usize::MAX
    }

    fn put(&mut self, key: &str, entry: TrackedKey)
        requires
            old(self).consistent(),
        ensures
            final(self).consistent(),
            final(self)@ == (TrackerView {
                entries: old(self)@.entries.insert(key@, entry),
                ..old(self)@
            }),
    {
        let ghost before = *self;
        let place: Option<usize> = match self.places.get(key) {
            Some(place) => Some(*place),
            None => None,
        };
        match place {
            Some(at) => {
                let name = key.to_owned();
                self.slots[at] = Slot { key: name, entry };
                assert forall|other: Seq<char>| #[trigger] before.places@.contains_key(other)
                    && other != key@ implies before.places@[other] != at by {}
            },
            None => {
                let at: usize = self.slots.len();
                self.slots.push(Slot { key: key.to_owned(), entry });
                self.places.insert(key.to_owned(), at);
            },
        }
        assert(self@.entries =~= before@.entries.insert(key@, entry));
    }

    fn drop_key(&mut self, key: &str)
        requires
            old(self).consistent(),
        ensures
            final(self).consistent(),
            final(self)@ == (TrackerView {
                entries: old(self)@.entries.remove(key@),
                ..old(self)@
            }),
    {
        let ghost before = *self;
        let at: usize = match self.places.get(key) {
            Some(place) => *place,
            None => {
                assert(self@.entries =~= before@.entries.remove(key@));
                return;
            },
        };
        let ghost last = self.slots@.len() - 1;
        let ghost moved_key = self.slots@[last].key@;
        assert(before.places@[moved_key] == last);
        let _ = self.slots.swap_remove(at);
        self.places.remove(key);
        if at < self.slots.len() {
            let moved = self.slots[at].key.clone();
            self.places.insert(moved, at);
            assert(moved@ == moved_key);
            assert(moved_key != key@);
        }
        assert forall|i: int| 0 <= i < self.slots@.len() implies self.places@.contains_key(
            (#[trigger] self.slots@[i]).key@,
        ) && self.places@[self.slots@[i].key@] == i by {
            if i != at {
                assert(self.slots@[i] == before.slots@[i]);
                assert(before.places@[before.slots@[i].key@] == i);
            }
        }
        assert forall|other: Seq<char>| #[trigger] self.places@.contains_key(
            other,
        ) implies self.places@[other] < self.slots@.len() && self.slots@[self.places@[other]
            as int].key@ == other by {
            assert(before.places@.contains_key(other));
        }
        assert(self@.entries =~= before@.entries.remove(key@)) by {
            assert forall|other: Seq<char>| #[trigger] self.places@.contains_key(
                other,
            ) implies self@.entries[other] == before@.entries[other] by {
                assert(before.places@.contains_key(other));
            }
        }
    }

    /// Counts the start of a write.
    pub fn begin_write(&mut self, key: &str)
        requires
            old(self).well_formed(),
            old(self)@.can_begin(key@),
        ensures
            final(self).well_formed(),
            final(self)@ == old(self)@.begun(key@),
    {
        let entry = match self.find(key) {
            Some(entry) => entry,
            None => TrackedKey { confirmed: false, pending_writes: 0, generation: 0 },
        };
        let generation: u64 = self.next_generation + 1;
        self.put(
            key,
            TrackedKey {
                confirmed: entry.confirmed,
                pending_writes: entry.pending_writes + 1,
                generation,
            },
        );
        self.next_generation = generation;
        assert(self@.entries =~= old(self)@.begun(key@).entries);
    }

    /// Counts the end of a write.
    pub fn complete_write(&mut self, key: &str, succeeded: bool)
        requires
            old(self).well_formed(),
        ensures
            final(self).well_formed(),
            final(self)@ == old(self)@.written(key@, succeeded),
    {
        let entry = match self.find(key) {
            Some(entry) => entry,
            None => return,
        };
        let left: usize = entry.pending_writes.saturating_sub(1);
        let confirmed: bool = entry.confirmed || succeeded;
        if !confirmed && left == 0 {
            self.drop_key(key);
        } else {
            self.put(
                key,
                TrackedKey { confirmed, pending_writes: left, generation: entry.generation },
            );
        }
    }

    /// Notes that a key was deleted.
    pub fn complete_delete(&mut self, key: &str)
        requires
            old(self).well_formed(),
        ensures
            final(self).well_formed(),
            final(self)@ == old(self)@.deleted(key@),
    {
        let entry = match self.find(key) {
            Some(entry) => entry,
            None => return,
        };
        if entry.pending_writes == 0 {
            self.drop_key(key);
        } else {
            self.put(
                key,
                TrackedKey {
                    confirmed: false,
                    pending_writes: entry.pending_writes,
                    generation: entry.generation,
                },
            );
        }
    }

    /// The keys that a flush has to delete, in any order.
    pub fn flush_candidates(&self) -> (candidates: Vec<FlushCandidate>)
        requires
            self.well_formed(),
        ensures
            self@.listed(candidate_views(candidates@)),
    {
        let mut candidates: Vec<FlushCandidate> = Vec::new();
        let mut index: usize = 0;
        while index < self.slots.len()
            invariant
                index <= self.slots@.len(),
                candidates@.len() == index,
                forall|i: int|
                    0 <= i < index ==> (#[trigger] candidates@[i])@ == (CandidateView {
                        key: self.slots@[i].key@,
                        generation: self.slots@[i].entry.generation,
                    }),
            decreases self.slots@.len() - index,
        {
            candidates.push(
                FlushCandidate {
                    key: self.slots[index].key.clone(),
                    generation: self.slots[index].entry.generation,
                },
            );
            index = index + 1;
        }
        proof {
            let views = candidate_views(candidates@);
            assert forall|i: int| 0 <= i < views.len() implies self@.entries.contains_key(
                (#[trigger] views[i]).key,
            ) && self@.entries[views[i].key].generation == views[i].generation by {
                assert(views[i] == candidates@[i]@);
                assert(self.places@[self.slots@[i].key@] == i);
            }
            assert forall|i: int, j: int| 0 <= i < j < views.len() implies (
            #[trigger] views[i]).key != (#[trigger] views[j]).key by {
                assert(views[i] == candidates@[i]@);
                assert(views[j] == candidates@[j]@);
                assert(self.places@[self.slots@[i].key@] == i);
                assert(self.places@[self.slots@[j].key@] == j);
            }
            assert forall|key: Seq<char>| #[trigger] self@.entries.contains_key(
                key,
            ) implies exists|i: int| 0 <= i < views.len() && (#[trigger] views[i]).key == key by {
                let i = self.places@[key] as int;
                assert(views[i] == candidates@[i]@);
                assert(views[i].key == key);
            }
        }
        candidates
    }

    /// Notes that a flush has deleted a candidate.
    pub fn complete_flush(&mut self, candidate: &FlushCandidate)
        requires
            old(self).well_formed(),
        ensures
            final(self).well_formed(),
            final(self)@ == old(self)@.flushed(candidate@),
    {
        match self.find(candidate.key.as_str()) {
            Some(entry) => {
                if entry.generation <= candidate.generation {
                    self.drop_key(candidate.key.as_str());
                }
            },
            None => {},
        }
    }
}

// Laws.

/// A write that starts after a flush has looked is not forgotten by that flush, also when the
/// write has ended with success before the flush ends. `seen` is the tracker when the flush
/// looked, `tracker` the one before the write.
pub proof fn a_write_after_the_snapshot_survives(
    seen: TrackerView,
    candidates: Seq<CandidateView>,
    index: int,
    tracker: TrackerView,
    key: Seq<char>,
)
    requires
        seen.well_formed(),
        seen.listed(candidates),
        0 <= index < candidates.len(),
        seen.next_generation <= tracker.next_generation,
        tracker.can_begin(key),
    ensures
        tracker.begun(key).flushed(candidates[index]).known(key) == tracker.begun(key).known(key),
        tracker.begun(key).written(key, true).flushed(candidates[index]).entries.contains_key(key),
{
    assert(seen.entries.contains_key(candidates[index].key));
}

/// Generations only grow.
pub proof fn generations_only_grow(
    tracker: TrackerView,
    key: Seq<char>,
    succeeded: bool,
    candidate: CandidateView,
)
    requires
        tracker.can_begin(key),
    ensures
        tracker.begun(key).next_generation == tracker.next_generation + 1,
        tracker.written(key, succeeded).next_generation == tracker.next_generation,
        tracker.deleted(key).next_generation == tracker.next_generation,
        tracker.flushed(candidate).next_generation == tracker.next_generation,
{
}

/// The candidates that a flush looked at are no longer tracked when it has deleted them, if
/// nothing was written in between.
pub proof fn an_undisturbed_flush_forgets_its_candidate(
    tracker: TrackerView,
    candidates: Seq<CandidateView>,
    index: int,
)
    requires
        tracker.listed(candidates),
        0 <= index < candidates.len(),
    ensures
        !tracker.flushed(candidates[index]).entries.contains_key(candidates[index].key),
{
}

/// A write whose end was never seen, such as one that timed out, leaves its key tracked: neither
/// a delete nor the failure of another write of the same key forgets it.
pub proof fn an_unfinished_write_stays_tracked(tracker: TrackerView, key: Seq<char>)
    requires
        tracker.well_formed(),
        tracker.can_begin(key),
    ensures
        tracker.begun(key).entries.contains_key(key),
        tracker.begun(key).deleted(key).entries.contains_key(key),
        tracker.begun(key).can_begin(key) ==> tracker.begun(key).begun(key).written(
            key,
            false,
        ).entries.contains_key(key),
{
}

/// A write that failed leaves no trace of a key that was not tracked before.
pub proof fn a_failed_write_leaves_no_key(tracker: TrackerView, key: Seq<char>)
    requires
        tracker.can_begin(key),
        !tracker.entries.contains_key(key),
    ensures
        tracker.begun(key).written(key, false).entries == tracker.entries,
{
    assert(tracker.begun(key).written(key, false).entries =~= tracker.entries);
}

/// A write that failed does not forget an earlier one that succeeded.
pub proof fn a_failed_write_keeps_a_confirmed_key(tracker: TrackerView, key: Seq<char>)
    requires
        tracker.can_begin(key),
        tracker.entries.contains_key(key),
        tracker.entries[key].confirmed,
    ensures
        tracker.begun(key).written(key, false).entries.contains_key(key),
        tracker.begun(key).written(key, false).entries[key].confirmed,
        tracker.begun(key).written(key, false).entries[key].pending_writes
            == tracker.entries[key].pending_writes,
{
}

/// A written key is tracked until it is deleted.
pub proof fn a_written_key_is_tracked_until_deleted(tracker: TrackerView, key: Seq<char>)
    requires
        tracker.can_begin(key),
        !tracker.entries.contains_key(key),
    ensures
        tracker.begun(key).written(key, true).entries.contains_key(key),
        !tracker.begun(key).written(key, true).deleted(key).entries.contains_key(key),
{
}

/// What is done to one key does not touch another.
pub proof fn other_keys_are_untouched(
    tracker: TrackerView,
    key: Seq<char>,
    other: Seq<char>,
    succeeded: bool,
    generation: u64,
)
    requires
        key != other,
    ensures
        tracker.begun(key).known(other) == tracker.known(other),
        tracker.written(key, succeeded).known(other) == tracker.known(other),
        tracker.deleted(key).known(other) == tracker.known(other),
        tracker.flushed(CandidateView { key, generation }).known(other) == tracker.known(other),
{
}

/// What the start of a write does to its key: it is tracked, with one more write under way and the
/// next generation. It can be counted while generations and writes are left.
pub proof fn a_started_write_is_counted(tracker: TrackerView, key: Seq<char>)
    ensures
        tracker.can_begin(key) <==> tracker.next_generation < 18446744073709551615 && tracker.known(
            key,
        ).pending_writes < usize::MAX,
        tracker.can_begin(key) ==> {
            let after = tracker.begun(key);
            &&& after.entries.contains_key(key)
            &&& after.entries[key].confirmed == tracker.known(key).confirmed
            &&& after.entries[key].pending_writes == tracker.known(key).pending_writes + 1
            &&& after.entries[key].generation == tracker.next_generation + 1
            &&& after.next_generation == tracker.next_generation + 1
        },
        !tracker.entries.contains_key(key) ==> {
            &&& !tracker.known(key).confirmed
            &&& tracker.known(key).pending_writes == 0
        },
        tracker.entries.contains_key(key) ==> tracker.known(key) == tracker.entries[key],
{
}

/// What the end of a write does to its key: one write less is under way, and a success confirms
/// the key. It stays tracked exactly where it is confirmed or another write is under way.
pub proof fn an_ended_write_is_counted(tracker: TrackerView, key: Seq<char>, succeeded: bool)
    requires
        tracker.entries.contains_key(key),
    ensures
        ({
            let before = tracker.entries[key];
            let after = tracker.written(key, succeeded);
            &&& after.entries.contains_key(key) <==> before.confirmed || succeeded
                || before.pending_writes > 1
            &&& after.entries.contains_key(key) ==> {
                &&& after.entries[key].confirmed <==> before.confirmed || succeeded
                &&& after.entries[key].pending_writes == if before.pending_writes > 0 {
                    before.pending_writes - 1
                } else {
                    0
                }
                &&& after.entries[key].generation == before.generation
            }
        }),
{
}

/// What a delete does to its key: it stays tracked exactly where a write is under way, and then
/// without being confirmed.
pub proof fn a_delete_forgets_what_was_written(tracker: TrackerView, key: Seq<char>)
    requires
        tracker.entries.contains_key(key),
    ensures
        ({
            let before = tracker.entries[key];
            let after = tracker.deleted(key);
            &&& after.entries.contains_key(key) <==> before.pending_writes > 0
            &&& after.entries.contains_key(key) ==> {
                &&& !after.entries[key].confirmed
                &&& after.entries[key].pending_writes == before.pending_writes
                &&& after.entries[key].generation == before.generation
            }
        }),
{
}

/// What a flush that deleted a candidate does to its key: it stays tracked, as it is, exactly where
/// it has a later generation than the candidate.
pub proof fn a_flush_forgets_what_it_saw(tracker: TrackerView, candidate: CandidateView)
    requires
        tracker.entries.contains_key(candidate.key),
    ensures
        ({
            let before = tracker.entries[candidate.key];
            let after = tracker.flushed(candidate);
            &&& after.entries.contains_key(candidate.key) <==> before.generation
                > candidate.generation
            &&& after.entries.contains_key(candidate.key) ==> after.entries[candidate.key]
                == before
        }),
{
}

/// What ends without having started is not tracked.
pub proof fn nothing_is_tracked_without_a_write(
    tracker: TrackerView,
    key: Seq<char>,
    succeeded: bool,
    generation: u64,
)
    requires
        !tracker.entries.contains_key(key),
    ensures
        tracker.written(key, succeeded) == tracker,
        tracker.deleted(key) == tracker,
        tracker.flushed(CandidateView { key, generation }) == tracker,
{
}

/// What is done to one key neither adds nor removes another.
pub proof fn other_keys_stay_tracked(
    tracker: TrackerView,
    key: Seq<char>,
    other: Seq<char>,
    succeeded: bool,
    generation: u64,
)
    requires
        key != other,
    ensures
        tracker.begun(key).entries.contains_key(other) == tracker.entries.contains_key(other),
        tracker.written(key, succeeded).entries.contains_key(other)
            == tracker.entries.contains_key(other),
        tracker.deleted(key).entries.contains_key(other) == tracker.entries.contains_key(other),
        tracker.flushed(CandidateView { key, generation }).entries.contains_key(other)
            == tracker.entries.contains_key(other),
{
}

/// A flush looks at exactly the tracked keys, each with the generation of its last write.
pub proof fn a_flush_looks_at_every_key(
    tracker: TrackerView,
    candidates: Seq<CandidateView>,
    key: Seq<char>,
)
    requires
        tracker.listed(candidates),
    ensures
        tracker.entries.contains_key(key) <==> exists|i: int|
            0 <= i < candidates.len() && (#[trigger] candidates[i]).key == key,
        tracker.entries.contains_key(key) ==> exists|i: int|
            0 <= i < candidates.len() && (#[trigger] candidates[i]) == (CandidateView {
                key,
                generation: tracker.entries[key].generation,
            }),
{
    if tracker.entries.contains_key(key) {
        let i = choose|i: int| 0 <= i < candidates.len() && (#[trigger] candidates[i]).key == key;
        assert(candidates[i] == (CandidateView {
            key,
            generation: tracker.entries[key].generation,
        }));
    }
}

/// Candidates are seen as they are, one by one.
pub proof fn candidates_are_seen_whole(candidates: Seq<FlushCandidate>, index: int)
    requires
        0 <= index < candidates.len(),
    ensures
        candidate_views(candidates).len() == candidates.len(),
        candidate_views(candidates)[index].key == candidates[index].key@,
        candidate_views(candidates)[index].generation == candidates[index].generation,
{
}

} // verus!
