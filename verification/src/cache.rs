//! The cache of mailbox views that the sessions share: it holds the views
//! of the mailboxes that were looked at last, up to a number that is set
//! when it is made.

use vstd::prelude::*;

use crate::collections::{id_map_clone, imap_map_clone};
use crate::mailbox::{MailboxId, MailboxSnapshot, MailboxState, NextMailboxState};

verus! {

/// The views of the mailboxes that were looked at last, each with its
/// mailbox, from the one that was looked at longest ago to the latest.
pub struct MailboxCache {
    capacity: usize,
    entries: Vec<(MailboxId, MailboxState)>,
}

/// The entry at place `i` is that of the mailbox `id`.
pub open spec fn holds_at(entries: Seq<(MailboxId, MailboxSnapshot)>, id: MailboxId, i: int) -> bool {
    0 <= i < entries.len() && entries[i].0 == id
}

/// No mailbox has two entries.
pub open spec fn distinct_mailboxes(entries: Seq<(MailboxId, MailboxSnapshot)>) -> bool {
    forall|i: int, j: int|
        0 <= i < j < entries.len() ==> (#[trigger] entries[i]).0 != (#[trigger] entries[j]).0
}

/// The entries without that of the mailbox `id`.
pub open spec fn without(entries: Seq<(MailboxId, MailboxSnapshot)>, id: MailboxId) -> Seq<
    (MailboxId, MailboxSnapshot),
> {
    if exists|i: int| holds_at(entries, id, i) {
        entries.remove(choose|i: int| holds_at(entries, id, i))
    } else {
        entries
    }
}

/// The entries once a view of the mailbox `id` has been put in: the view is
/// the latest entry, in the place of any that the mailbox had, and if that
/// makes one entry too many, the one that was looked at longest ago is
/// gone.
pub open spec fn with_latest(
    entries: Seq<(MailboxId, MailboxSnapshot)>,
    capacity: usize,
    id: MailboxId,
    view: MailboxSnapshot,
) -> Seq<(MailboxId, MailboxSnapshot)> {
    let put = without(entries, id).push((id, view));
    if put.len() > capacity {
        put.drop_first()
    } else {
        put
    }
}

impl MailboxState {
    /// A copy of the state.
    pub fn duplicate(&self) -> (copy: MailboxState)
        ensures
            copy.snapshot() == self.snapshot(),
            copy.pending() == self.pending(),
            copy.next_state is None <==> self.next_state is None,
            copy.well_formed() == self.well_formed(),
        decreases self,
    {
        let next_state = match &self.next_state {
            Some(next) => {
                let mut deletions = Vec::with_capacity(next.deletions.len());
                let mut i: usize = 0;
                while i < next.deletions.len()
                    invariant
                        i <= next.deletions.len(),
                        deletions@ == next.deletions@.take(i as int),
                    decreases next.deletions.len() - i,
                {
                    deletions.push(next.deletions[i]);
                    i += 1;
                }
                assert(deletions@ =~= next.deletions@);
                Some(Box::new(NextMailboxState { next_state: next.next_state.duplicate(), deletions }))
            },
            None => None,
        };
        MailboxState {
            uid_next: self.uid_next,
            uid_validity: self.uid_validity,
            uid_max: self.uid_max,
            id_to_imap: imap_map_clone(&self.id_to_imap),
            uid_to_id: id_map_clone(&self.uid_to_id),
            total_messages: self.total_messages,
            modseq: self.modseq,
            next_state,
        }
    }
}

impl View for MailboxCache {
    type V = Seq<(MailboxId, MailboxSnapshot)>;

    /// The mailboxes of the cache with their views, the latest last.
    closed spec fn view(&self) -> Seq<(MailboxId, MailboxSnapshot)> {
        Seq::new(self.entries@.len(), |i: int| (self.entries@[i].0, self.entries@[i].1.snapshot()))
    }
}

impl MailboxCache {
    #[verifier::type_invariant]
    spec fn bounded(self) -> bool {
        &&& self.entries@.len() <= self.capacity
        &&& forall|i: int, j: int|
            0 <= i < j < self.entries@.len() ==> (#[trigger] self.entries@[i]).0 != (
            #[trigger] self.entries@[j]).0
    }

    /// The number of views that the cache holds at most.
    pub closed spec fn size(self) -> usize {
        self.capacity
    }

    /// A cache without entries that holds up to `capacity` views.
    pub fn with_capacity(capacity: usize) -> (cache: MailboxCache)
        ensures
            cache@ == Seq::<(MailboxId, MailboxSnapshot)>::empty(),
            cache.size() == capacity,
    {
        let cache = MailboxCache { capacity, entries: Vec::new() };
        cache
    }

    /// The number of views that the cache holds at most.
    pub fn capacity(&self) -> (capacity: usize)
        ensures
            capacity == self.size(),
    {
        self.capacity
    }

    /// The number of views that the cache holds. It is never above the
    /// capacity, and no mailbox has two views.
    pub fn len(&self) -> (len: usize)
        ensures
            len == self@.len(),
            len <= self.size(),
            distinct_mailboxes(self@),
    {
        proof {
            use_type_invariant(self);
        }
        self.entries.len()
    }

    /// The place of the mailbox's entry, if it has one.
    fn position(entries: &Vec<(MailboxId, MailboxState)>, id: MailboxId) -> (place: Option<usize>)
        ensures
            place matches Some(at) ==> at < entries@.len() && entries@[at as int].0 == id,
            place is None ==> forall|i: int| 0 <= i < entries@.len() ==> (#[trigger] entries@[i]).0 != id,
    {
        let mut i: usize = 0;
        while i < entries.len()
            invariant
                i <= entries.len(),
                forall|j: int| 0 <= j < i ==> (#[trigger] entries@[j]).0 != id,
            decreases entries.len() - i,
        {
            if entries[i].0 == id {
                return Some(i);
            }
            i += 1;
        }
        None
    }

    /// Puts a view of a mailbox in, as the latest entry. A view that the
    /// mailbox had is replaced. If the cache then holds more than its
    /// capacity, the view that was looked at longest ago leaves.
    pub fn insert(&mut self, id: MailboxId, state: MailboxState)
        ensures
            final(self).size() == old(self).size(),
            final(self)@ == with_latest(old(self)@, old(self).size(), id, state.snapshot()),
    {
        proof {
            use_type_invariant(&*self);
        }
        let ghost before = self@;
        let mut entries: Vec<(MailboxId, MailboxState)> = Vec::new();
        std::mem::swap(&mut self.entries, &mut entries);
        let place = Self::position(&entries, id);
        proof {
            lemma_without(before, id, place);
        }
        if let Some(at) = place {
            entries.remove(at);
        }
        entries.push((id, state));
        if entries.len() > self.capacity {
            entries.remove(0);
        }
        self.entries = entries;
    }

    /// A copy of the view that the cache holds for a mailbox, if it holds
    /// one; that view becomes the latest entry.
    pub fn get(&mut self, id: MailboxId) -> (state: Option<MailboxState>)
        ensures
            final(self).size() == old(self).size(),
            state is Some <==> exists|i: int| holds_at(old(self)@, id, i),
            state matches Some(found) ==> found.next_state is None && final(self)@ == without(
                old(self)@,
                id,
            ).push((id, found.snapshot())),
            state is None ==> final(self)@ == old(self)@,
    {
        proof {
            use_type_invariant(&*self);
        }
        let ghost before = self@;
        let mut entries: Vec<(MailboxId, MailboxState)> = Vec::new();
        std::mem::swap(&mut self.entries, &mut entries);
        let place = Self::position(&entries, id);
        proof {
            lemma_without(before, id, place);
        }
        match place {
            Some(at) => {
                let entry = entries.remove(at);
                let found = MailboxState {
                    uid_next: entry.1.uid_next,
                    uid_validity: entry.1.uid_validity,
                    uid_max: entry.1.uid_max,
                    id_to_imap: imap_map_clone(&entry.1.id_to_imap),
                    uid_to_id: id_map_clone(&entry.1.uid_to_id),
                    total_messages: entry.1.total_messages,
                    modseq: entry.1.modseq,
                    next_state: None,
                };
                entries.push(entry);
                self.entries = entries;
                Some(found)
            },
            None => {
                self.entries = entries;
                None
            },
        }
    }
}

/// What the entries are without that of a mailbox, from the place at which
/// the mailbox was found, or not found.
proof fn lemma_without(
    entries: Seq<(MailboxId, MailboxSnapshot)>,
    id: MailboxId,
    place: Option<usize>,
)
    requires
        distinct_mailboxes(entries),
        place matches Some(at) ==> at < entries.len() && entries[at as int].0 == id,
        place is None ==> forall|i: int| 0 <= i < entries.len() ==> (#[trigger] entries[i]).0 != id,
    ensures
        without(entries, id) == (match place {
            Some(at) => entries.remove(at as int),
            None => entries,
        }),
{
    if let Some(at) = place {
        // The place that was found is the only one.
        let chosen = choose|i: int| holds_at(entries, id, i);
        assert(holds_at(entries, id, at as int));
        assert(chosen == at);
    }
}

} // verus!
