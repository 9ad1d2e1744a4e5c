//! The versioned history store: a bounded, branch-discarding undo/redo log
//! over full dataset snapshots.
use crate::clock::now_secs_u64;
use crate::types::{ArkData, ArkDataV};
use vstd::prelude::*;

verus! {

/// One stored snapshot together with its caller-assigned version number,
/// the time it was pushed, and a free-form description.
pub struct HistoryEntry {
    pub data: ArkData,
    pub version: u32,
    pub timestamp: u64,
    pub description: String,
}

#[verifier::ext_equal]
pub ghost struct HistoryEntryV {
    pub data: ArkDataV,
    pub version: u32,
    pub timestamp: u64,
    pub description: Seq<char>,
}

impl View for HistoryEntry {
    type V = HistoryEntryV;

    open spec fn view(&self) -> HistoryEntryV {
        HistoryEntryV {
            data: self.data@,
            version: self.version,
            timestamp: self.timestamp,
            description: self.description@,
        }
    }
}

impl HistoryEntry {
    /// Wraps a snapshot, stamping it with the current time: the clock
    /// reading in whole seconds since the Unix epoch, converted by
    /// `crate::clock::clamp_epoch_seconds`, whose contract fixes the
    /// conversion exactly (a reading before the epoch counts as zero).
    /// The reading itself is the one thing no clause can pin down.
    pub fn new(data: ArkData, version: u32, description: String) -> (e: Self)
        ensures
            e@.data == data@,
            e@.version == version,
            e@.description == description@,
    {
        let timestamp = now_secs_u64();
        HistoryEntry { data, version, timestamp, description }
    }
}

/// The mathematical state of a history store.
#[verifier::ext_equal]
pub ghost struct HistoryV {
    pub entries: Seq<HistoryEntryV>,
    pub current_index: int,
    pub max_entries: int,
}

impl HistoryV {
    /// The store's standing invariant.
    pub open spec fn inv(self) -> bool {
        0 <= self.current_index <= self.entries.len() <= self.max_entries
    }
}

/// The state after a push: any entries beyond the current index are
/// discarded, the new entry is appended, and the oldest entries are dropped
/// until the store is back within its capacity.
pub open spec fn spec_push(h: HistoryV, e: HistoryEntryV) -> HistoryV {
    let kept = h.entries.take(h.current_index).push(e);
    if kept.len() <= h.max_entries {
        HistoryV { entries: kept, current_index: kept.len() as int, max_entries: h.max_entries }
    } else {
        let over = kept.len() - h.max_entries;
        HistoryV {
            entries: kept.skip(over),
            current_index: h.max_entries,
            max_entries: h.max_entries,
        }
    }
}

/// The state after an undo: a step back when one is possible, otherwise
/// unchanged.
pub open spec fn spec_undo(h: HistoryV) -> HistoryV {
    if h.current_index > 0 {
        HistoryV { current_index: h.current_index - 1, ..h }
    } else {
        h
    }
}

/// The state after a redo: a step forward when one is possible, otherwise
/// unchanged.
pub open spec fn spec_redo(h: HistoryV) -> HistoryV {
    if h.current_index < h.entries.len() {
        HistoryV { current_index: h.current_index + 1, ..h }
    } else {
        h
    }
}

/// An indexed, size-bounded log of dataset snapshots supporting push, undo
/// and redo, with branch discard on write.
pub struct History {
    entries: Vec<HistoryEntry>,
    current_index: usize,
    max_entries: usize,
}

impl View for History {
    type V = HistoryV;

    closed spec fn view(&self) -> HistoryV {
        HistoryV {
            entries: self.entries@.map_values(|e: HistoryEntry| e@),
            current_index: self.current_index as int,
            max_entries: self.max_entries as int,
        }
    }
}

impl History {
    /// The store's standing invariant, carried by every operation.
    pub open spec fn wf(&self) -> bool {
        self@.inv()
    }

    /// An empty history with the given capacity.
    pub fn new(max_entries: usize) -> (h: Self)
        ensures
            h@.entries == Seq::<HistoryEntryV>::empty(),
            h@.current_index == 0,
            h@.max_entries == max_entries,
            h.wf(),
    {
        let h = History { entries: Vec::new(), current_index: 0, max_entries };
        proof {
            assert(h@.entries =~= Seq::<HistoryEntryV>::empty());
        }
        h
    }

    /// Appends an entry, discarding any undone branch first and trimming
    /// the oldest entries down to capacity.
    pub fn push(&mut self, entry: HistoryEntry)
        requires
            old(self).wf(),
        ensures
            final(self)@ == spec_push(old(self)@, entry@),
            final(self).wf(),
    {
        let ghost h0 = self@;
        if self.current_index < self.entries.len() {
            self.entries.truncate(self.current_index);
        }
        proof {
            assert(self.entries@.map_values(|e: HistoryEntry| e@) =~= h0.entries.take(
                h0.current_index,
            ));
        }
        self.entries.push(entry);
        self.current_index = self.entries.len();
        proof {
            assert(self.entries@.map_values(|e: HistoryEntry| e@) =~= h0.entries.take(
                h0.current_index,
            ).push(entry@));
        }
        let ghost kept = h0.entries.take(h0.current_index).push(entry@);
        while self.entries.len() > self.max_entries
            invariant
                self.max_entries == h0.max_entries,
                self.current_index == self.entries.len(),
                self.entries@.len() > self.max_entries ==> self.entries@.len()
                    == self.max_entries + 1,
                self.entries@.map_values(|e: HistoryEntry| e@) =~= if kept.len()
                    <= self.entries@.len() {
                    kept
                } else {
                    kept.skip(kept.len() - self.entries@.len())
                },
                kept.len() >= self.entries@.len(),
                kept.len() <= self.max_entries + 1,
                kept.len() > self.entries@.len() ==> self.entries@.len() == self.max_entries,
            decreases self.entries@.len(),
        {
            let ghost prev_e = self.entries@;
            proof {
                assert(prev_e.map_values(|e: HistoryEntry| e@) =~= kept);
            }
            self.entries.remove(0);
            self.current_index = self.current_index - 1;
            proof {
                assert(self.entries@ =~= prev_e.subrange(1, prev_e.len() as int));
                assert forall|a: int| 0 <= a < self.entries@.len() implies self.entries@.map_values(
                    |e: HistoryEntry| e@,
                )[a] == kept.skip(1)[a] by {
                    assert(self.entries@[a] == prev_e[a + 1]);
                }
                assert(self.entries@.map_values(|e: HistoryEntry| e@) =~= kept.skip(1));
                assert(kept.len() - self.entries@.len() == 1);
            }
        }
        proof {
            assert(self@ =~= spec_push(h0, entry@));
        }
    }

    /// A step back is possible.
    pub fn can_undo(&self) -> (r: bool)
        ensures
            r == (self@.current_index > 0),
    {
        self.current_index > 0
    }

    /// A step forward is possible.
    pub fn can_redo(&self) -> (r: bool)
        ensures
            r == (self@.current_index < self@.entries.len()),
    {
        self.current_index < self.entries.len()
    }

    /// Steps back one entry and returns it, or returns nothing at the
    /// beginning of the log.
    pub fn undo(&mut self) -> (r: Option<&HistoryEntry>)
        requires
            old(self).wf(),
        ensures
            final(self)@ == spec_undo(old(self)@),
            final(self).wf(),
            old(self)@.current_index > 0 ==> r is Some,
            old(self)@.current_index == 0 ==> r is None,
            match r {
                Some(e) => e@ == old(self)@.entries[old(self)@.current_index - 1],
                None => true,
            },
    {
        if self.current_index > 0 {
            self.current_index = self.current_index - 1;
            Some(&self.entries[self.current_index])
        } else {
            None
        }
    }

    /// Steps forward one entry and returns it, or returns nothing at the
    /// end of the log.
    pub fn redo(&mut self) -> (r: Option<&HistoryEntry>)
        requires
            old(self).wf(),
        ensures
            final(self)@ == spec_redo(old(self)@),
            final(self).wf(),
            old(self)@.current_index < old(self)@.entries.len() ==> r is Some,
            old(self)@.current_index == old(self)@.entries.len() ==> r is None,
            match r {
                Some(e) => e@ == old(self)@.entries[old(self)@.current_index],
                None => true,
            },
    {
        if self.current_index < self.entries.len() {
            self.current_index = self.current_index + 1;
            Some(&self.entries[self.current_index - 1])
        } else {
            None
        }
    }

    /// The entry just before the current index, if any.
    pub fn current(&self) -> (r: Option<&HistoryEntry>)
        requires
            self.wf(),
        ensures
            self@.current_index > 0 ==> r is Some,
            self@.current_index == 0 ==> r is None,
            match r {
                Some(e) => e@ == self@.entries[self@.current_index - 1],
                None => true,
            },
    {
        if self.current_index > 0 {
            Some(&self.entries[self.current_index - 1])
        } else {
            None
        }
    }
}

/// The state after a sequence of pushes, first entry first.
pub open spec fn spec_push_all(h: HistoryV, es: Seq<HistoryEntryV>) -> HistoryV
    decreases es.len(),
{
    if es.len() == 0 {
        h
    } else {
        spec_push_all(spec_push(h, es[0]), es.drop_first())
    }
}

/// After any sequence of pushes onto a history whose current index sits at
/// the end, the store holds the most recent `max_entries` of the pushed and
/// previously stored entries, in order, and the current index sits at the
/// end again.
proof fn lemma_push_all_window(h: HistoryV, es: Seq<HistoryEntryV>)
    requires
        h.inv(),
        h.current_index == h.entries.len(),
    ensures
        spec_push_all(h, es).max_entries == h.max_entries,
        spec_push_all(h, es).inv(),
        spec_push_all(h, es).current_index == spec_push_all(h, es).entries.len(),
        spec_push_all(h, es).entries == {
            let all = h.entries + es;
            if all.len() <= h.max_entries {
                all
            } else {
                all.skip(all.len() - h.max_entries)
            }
        },
    decreases es.len(),
{
    if es.len() == 0 {
        assert(h.entries + es =~= h.entries);
    } else {
        let h1 = spec_push(h, es[0]);
        assert(h.entries.take(h.current_index) =~= h.entries);
        assert(h1.inv());
        assert(h1.current_index == h1.entries.len());
        lemma_push_all_window(h1, es.drop_first());
        let all = h.entries + es;
        let all1 = h1.entries + es.drop_first();
        if h.entries.len() + 1 <= h.max_entries {
            assert(all1 =~= all);
        } else {
            assert(h.entries.len() == h.max_entries);
            assert(h1.entries =~= h.entries.push(es[0]).skip(1));
            assert(all1 =~= all.skip(1));
            if all1.len() > h.max_entries {
                assert(all1.skip(all1.len() - h.max_entries) =~= all.skip(
                    all.len() - h.max_entries,
                ));
            } else {
                assert(all1.len() == h.max_entries);
                assert(all1 =~= all.skip(all.len() - h.max_entries));
            }
        }
    }
}

/// Capacity law: pushing `max_entries + 1` entries onto an empty store of
/// capacity `max_entries` leaves exactly the most recent `max_entries`
/// pushed entries, in push order, with the current index at the end.
pub proof fn lemma_history_capacity_window(max_entries: int, es: Seq<HistoryEntryV>)
    requires
        max_entries >= 0,
        es.len() == max_entries + 1,
    ensures
        ({
            let h0 = HistoryV {
                entries: Seq::empty(),
                current_index: 0,
                max_entries: max_entries,
            };
            let h1 = spec_push_all(h0, es);
            h1.entries == es.drop_first() && h1.entries.len() == max_entries
                && h1.current_index == max_entries
        }),
{
    let h0 = HistoryV { entries: Seq::empty(), current_index: 0, max_entries: max_entries };
    lemma_push_all_window(h0, es);
    let all = h0.entries + es;
    assert(all =~= es);
    assert(es.skip(1) =~= es.drop_first());
}

/// Branch-discard law: after push, undo, push-again, the undone entry is
/// replaced by the new one and no redo is possible.
pub proof fn lemma_history_branch_discard(h: HistoryV, e1: HistoryEntryV, e2: HistoryEntryV)
    requires
        h.inv(),
        h.max_entries >= 1,
    ensures
        ({
            let h1 = spec_push(h, e1);
            let h2 = spec_push(spec_undo(h1), e2);
            h2.entries == h1.entries.drop_last().push(e2) && h2.current_index
                == h2.entries.len() && spec_redo(h2) == h2
        }),
{
    let h1 = spec_push(h, e1);
    let kept1 = h.entries.take(h.current_index).push(e1);
    assert(h1.current_index == h1.entries.len());
    assert(h1.entries.len() >= 1);
    assert(h1.entries.last() == e1) by {
        if kept1.len() > h.max_entries {
            assert(h1.entries =~= kept1.skip(kept1.len() - h.max_entries));
        }
    }
    let hu = spec_undo(h1);
    let h2 = spec_push(hu, e2);
    assert(hu.entries.take(hu.current_index).push(e2) =~= h1.entries.drop_last().push(e2));
    assert(h2.entries.len() == h1.entries.len() <= h.max_entries);
    assert(h2.entries =~= h1.entries.drop_last().push(e2));
    assert(spec_redo(h2) == h2);
}

} // verus!
