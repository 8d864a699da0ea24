//! Bringing a session's view of its mailbox up to date: first the changes
//! are found and staged, then the client is told of them and the staged view
//! takes the place of the old one.

use vstd::prelude::*;

use crate::cache::{with_latest, MailboxCache};
use crate::collections::{
    id_entries, id_map_contains_key, id_map_remove, imap_entries, imap_map_insert,
    imap_map_to_vec, imap_map_with_capacity, sort_numbers,
};
use crate::mailbox::{
    ImapId, MailboxSnapshot, MailboxState, NextMailboxState, PendingTransition, SelectedMailbox,
    SessionData,
};
use crate::protocol::{exists_line, expunge_bytes, lemma_expunge_bytes_not_empty, Exists, Response};
use crate::resolve::named_by;

verus! {

/// What a synchronization asks of its caller.
#[derive(Debug, PartialEq, Eq)]
pub enum SyncStep {
    /// The session's view is up to date with the change id that is handed
    /// back, or the changes that lead to it have been staged.
    Done(Option<u64>),
    /// The store has changed since the session last looked: the mailbox's
    /// view is to be built from the store and handed in.
    Fetch,
}

impl MailboxSnapshot {
    /// The message `id` of this view has a uid that `fresh` no longer has.
    pub open spec fn has_lost(self, fresh: MailboxSnapshot, id: u32) -> bool {
        self.id_to_imap.contains_key(id) && !fresh.uid_to_id.contains_key(self.id_to_imap[id].uid)
    }

    /// A message of this view has the uid `uid`, which `fresh` no longer
    /// has.
    pub open spec fn has_lost_uid(self, fresh: MailboxSnapshot, uid: u32) -> bool {
        exists|id: u32| #[trigger] self.has_lost(fresh, id) && self.id_to_imap[id].uid == uid
    }

    /// This view once it is known what `fresh` holds: the messages that
    /// `fresh` no longer has are gone from both maps, those that stay keep
    /// the sequence numbers that the client knows them by, and the change id
    /// is that of `fresh`. What `fresh` has gained is not taken in.
    pub open spec fn synchronized(self, fresh: MailboxSnapshot) -> MailboxSnapshot {
        MailboxSnapshot {
            modseq: fresh.modseq,
            id_to_imap: Map::new(
                |id: u32| self.id_to_imap.contains_key(id) && !self.has_lost(fresh, id),
                |id: u32| self.id_to_imap[id],
            ),
            uid_to_id: Map::new(
                |uid: u32| self.uid_to_id.contains_key(uid) && !self.has_lost_uid(fresh, uid),
                |uid: u32| self.uid_to_id[uid],
            ),
            ..self
        }
    }

    /// `order` names each message that `fresh` no longer has once, and
    /// `removed` holds their IMAP ids in that order.
    pub open spec fn lost_in_order(
        self,
        fresh: MailboxSnapshot,
        order: Seq<u32>,
        removed: Seq<ImapId>,
    ) -> bool {
        &&& order.no_duplicates()
        &&& forall|id: u32| order.contains(id) <==> self.has_lost(fresh, id)
        &&& removed.len() == order.len()
        &&& forall|i: int| 0 <= i < order.len() ==> #[trigger] removed[i] == self.id_to_imap[order[i]]
    }

    /// `removed` holds the IMAP id of each message that `fresh` no longer
    /// has, once. The order is that in which the map of messages was walked,
    /// which nothing fixes.
    pub open spec fn lists_lost(self, fresh: MailboxSnapshot, removed: Seq<ImapId>) -> bool {
        exists|order: Seq<u32>| self.lost_in_order(fresh, order, removed)
    }
}

/// The order of numbers from the smaller to the larger.
pub open spec fn ascending_order() -> spec_fn(u32, u32) -> bool {
    |smaller: u32, larger: u32| smaller <= larger
}

/// The numbers under which removals are reported, in ascending order: the
/// uids for a client that has enabled QRESYNC, else the sequence numbers.
pub open spec fn reported(deletions: Seq<ImapId>, is_qresync: bool) -> Seq<u32> {
    deletions.map_values(|removed: ImapId| named_by(removed, is_qresync)).sort_by(
        ascending_order(),
    )
}

/// What the client is told when a staged view takes the place of one whose
/// largest uid was `uid_max`: the removals, if there are any, and then the
/// number of messages, if there were removals or the largest uid has grown.
pub open spec fn announcement(uid_max: u32, pending: PendingTransition, is_qresync: bool) -> Seq<
    u8,
> {
    let expunged = if pending.deletions.len() > 0 {
        expunge_bytes(is_qresync, reported(pending.deletions, is_qresync))
    } else {
        Seq::empty()
    };
    let exists = if pending.deletions.len() > 0 || pending.next_state.uid_max > uid_max {
        exists_line(pending.next_state.total_messages as nat)
    } else {
        Seq::empty()
    };
    expunged + exists
}

/// The numbers under which the removals are reported, in ascending order.
fn reported_numbers(deletions: &Vec<ImapId>, is_qresync: bool) -> (ids: Vec<u32>)
    ensures
        ids@ == reported(deletions@, is_qresync),
{
    let mut ids: Vec<u32> = Vec::new();
    let ghost numbers = deletions@.map_values(|removed: ImapId| named_by(removed, is_qresync));
    let mut i: usize = 0;
    while i < deletions.len()
        invariant
            i <= deletions.len(),
            numbers == deletions@.map_values(|removed: ImapId| named_by(removed, is_qresync)),
            ids@ == numbers.take(i as int),
        decreases deletions.len() - i,
    {
        ids.push(
            if is_qresync {
                deletions[i].uid
            } else {
                deletions[i].seqnum
            },
        );
        i += 1;
    }
    assert(ids@ =~= numbers);
    sort_numbers(&mut ids);
    proof {
        let order = ascending_order();
        numbers.lemma_sort_by_ensures(order);
        vstd::seq_lib::lemma_sorted_unique(ids@, numbers.sort_by(order), order);
    }
    ids
}

impl MailboxState {
    /// The removals that the client has not been told of.
    pub open spec fn unannounced(self) -> Seq<ImapId> {
        match self.next_state {
            Some(next) => next.deletions@,
            None => Seq::empty(),
        }
    }
}

impl SessionData {
    /// Brings the session's view of its mailbox in line with the store.
    ///
    /// `modseq` is the store's change id for the account's messages as it
    /// is now. If the session's view has that change id, nothing is done. If
    /// not, the caller is asked to build the mailbox's view from the store
    /// and to call again with it as `new_state`.
    ///
    /// With a new view in hand, each message of the session's view whose uid
    /// the new view lacks leaves the view and joins the removals that the
    /// client has yet to be told of, behind those still waiting from an
    /// earlier call. The other messages keep their sequence numbers. A
    /// copy of the new view goes into the cache of mailbox views, the new view
    /// itself is staged, and the session's view takes its change id.
    pub fn synchronize_messages(
        &self,
        cache: &mut MailboxCache,
        mailbox: &mut SelectedMailbox,
        modseq: Option<u64>,
        new_state: Option<MailboxState>,
    ) -> (step: SyncStep)
        ensures
            final(mailbox).id == old(mailbox).id,
            final(mailbox).saved_search == old(mailbox).saved_search,
            final(cache).size() == old(cache).size(),
            old(mailbox).state.modseq == modseq ==> step == SyncStep::Done(modseq)
                && *final(mailbox) == *old(mailbox) && *final(cache) == *old(cache),
            old(mailbox).state.modseq != modseq && new_state is None ==> step == SyncStep::Fetch
                && *final(mailbox) == *old(mailbox) && *final(cache) == *old(cache),
            old(mailbox).state.well_formed() && (new_state matches Some(fresh)
                ==> fresh.next_state is None) ==> final(mailbox).state.well_formed(),
            old(mailbox).state.modseq != modseq && new_state is Some ==> {
                let fresh = new_state->0;
                let before = old(mailbox).state;
                &&& step == SyncStep::Done(modseq)
                &&& final(cache)@ == with_latest(
                    old(cache)@,
                    old(cache).size(),
                    old(mailbox).id,
                    fresh.snapshot(),
                )
                &&& final(mailbox).state.snapshot() == before.snapshot().synchronized(
                    fresh.snapshot(),
                )
                &&& final(mailbox).state.next_state matches Some(next)
                &&& next.next_state == fresh
                &&& next.deletions@.len() >= before.unannounced().len()
                &&& next.deletions@.take(before.unannounced().len() as int)
                    == before.unannounced()
                &&& before.snapshot().lists_lost(
                    fresh.snapshot(),
                    next.deletions@.skip(before.unannounced().len() as int),
                )
            },
    {
        if mailbox.state.modseq == modseq {
            return SyncStep::Done(modseq);
        }
        let new_state = match new_state {
            Some(new_state) => new_state,
            None => {
                return SyncStep::Fetch;
            },
        };
        let ghost before = mailbox.state.snapshot();
        let ghost fresh = new_state.snapshot();
        let ghost waiting = mailbox.state.unannounced();

        let mut deletions = match mailbox.state.next_state.take() {
            Some(next) => {
                let next = *next;
                next.deletions
            },
            None => Vec::new(),
        };
        let entries = imap_map_to_vec(&mailbox.state.id_to_imap);
        let mut id_to_imap = imap_map_with_capacity(entries.len());
        let ghost mut order: Seq<u32> = Seq::empty();
        let mut i: usize = 0;
        while i < entries.len()
            invariant
                i <= entries.len(),
                fresh == new_state.snapshot(),
                mailbox.id == old(mailbox).id,
                mailbox.saved_search == old(mailbox).saved_search,
                mailbox.state.uid_next == before.uid_next,
                mailbox.state.uid_validity == before.uid_validity,
                mailbox.state.uid_max == before.uid_max,
                mailbox.state.total_messages == before.total_messages,
                mailbox.state.id_to_imap == old(mailbox).state.id_to_imap,
                mailbox.state.next_state is None,
                before.id_to_imap == imap_entries(old(mailbox).state.id_to_imap),
                forall|a: int, b: int|
                    0 <= a < b < entries@.len() ==> (#[trigger] entries@[a]).0 != (
                    #[trigger] entries@[b]).0,
                forall|a: int|
                    0 <= a < entries@.len() ==> before.id_to_imap.contains_pair(
                        (#[trigger] entries@[a]).0,
                        entries@[a].1,
                    ),
                forall|id: u32| #[trigger]
                    before.id_to_imap.contains_key(id) ==> exists|a: int|
                        0 <= a < entries@.len() && (#[trigger] entries@[a]).0 == id,
                // The messages that stay.
                forall|id: u32| #[trigger]
                    imap_entries(id_to_imap).contains_key(id) ==> before.synchronized(
                        fresh,
                    ).id_to_imap.contains_pair(id, imap_entries(id_to_imap)[id]),
                forall|a: int|
                    0 <= a < i && !before.has_lost(fresh, (#[trigger] entries@[a]).0)
                        ==> imap_entries(id_to_imap).contains_key(entries@[a].0),
                // The uids that stay.
                forall|uid: u32| #[trigger]
                    id_entries(mailbox.state.uid_to_id).contains_key(uid)
                        ==> before.uid_to_id.contains_pair(
                        uid,
                        id_entries(mailbox.state.uid_to_id)[uid],
                    ),
                forall|uid: u32|
                    before.uid_to_id.contains_key(uid) && !(#[trigger] id_entries(
                        mailbox.state.uid_to_id,
                    ).contains_key(uid)) ==> before.has_lost_uid(fresh, uid),
                forall|a: int|
                    0 <= a < i && before.has_lost(fresh, (#[trigger] entries@[a]).0) ==> !id_entries(
                        mailbox.state.uid_to_id,
                    ).contains_key(entries@[a].1.uid),
                // The removals.
                order.no_duplicates(),
                forall|id: u32|
                    order.contains(id) <==> before.has_lost(fresh, id) && exists|a: int|
                        0 <= a < i && (#[trigger] entries@[a]).0 == id,
                deletions@.len() == waiting.len() + order.len(),
                deletions@.take(waiting.len() as int) == waiting,
                forall|k: int|
                    0 <= k < order.len() ==> #[trigger] deletions@[waiting.len() + k]
                        == before.id_to_imap[order[k]],
            decreases entries.len() - i,
        {
            let id = entries[i].0;
            let imap_id = entries[i].1;
            let ghost order_before = order;
            if !id_map_contains_key(&new_state.uid_to_id, imap_id.uid) {
                // Add to the removals, and forget the uid.
                deletions.push(imap_id);
                id_map_remove(&mut mailbox.state.uid_to_id, imap_id.uid);
                proof {
                    order = order.push(id);
                    assert(before.has_lost(fresh, id));
                    assert(!order_before.contains(id));
                    assert forall|other: u32|
                        order.contains(other) <==> before.has_lost(fresh, other) && exists|a: int|
                            0 <= a < i + 1 && (#[trigger] entries@[a]).0 == other by {
                        if order.contains(other) {
                            let k = choose|k: int| 0 <= k < order.len() && order[k] == other;
                            if k < order_before.len() {
                                assert(order_before.contains(other));
                            }
                        }
                        if before.has_lost(fresh, other) && exists|a: int|
                            0 <= a < i + 1 && (#[trigger] entries@[a]).0 == other {
                            let at = choose|a: int|
                                0 <= a < i + 1 && (#[trigger] entries@[a]).0 == other;
                            if at < i {
                                assert(order_before.contains(other));
                                let k = choose|k: int|
                                    0 <= k < order_before.len() && order_before[k] == other;
                                assert(order[k] == other);
                            } else {
                                assert(order[order_before.len() as int] == other);
                            }
                        }
                    }
                }
            } else {
                imap_map_insert(&mut id_to_imap, id, imap_id);
            }
            i += 1;
        }
        mailbox.state.id_to_imap = id_to_imap;

        // Update the cache.
        cache.insert(mailbox.id, new_state.duplicate());

        // Update the state.
        mailbox.state.modseq = new_state.modseq;
        proof {
            let target = before.synchronized(fresh);
            assert(imap_entries(mailbox.state.id_to_imap) =~= target.id_to_imap);
            assert(id_entries(mailbox.state.uid_to_id) =~= target.uid_to_id);
            let removed = deletions@.skip(waiting.len() as int);
            assert(before.lost_in_order(fresh, order, removed)) by {
                assert forall|k: int| 0 <= k < order.len() implies #[trigger] removed[k]
                    == before.id_to_imap[order[k]] by {
                    assert(removed[k] == deletions@[waiting.len() + k]);
                }
            }
        }
        mailbox.state.next_state = Some(Box::new(NextMailboxState { next_state: new_state, deletions }));
        SyncStep::Done(modseq)
    }

    /// Tells the client of the changes that a synchronization has staged, and
    /// puts the staged view in the place of the session's view. The bytes for
    /// the client are handed back; they are empty where nothing was staged or
    /// nothing is to be told.
    ///
    /// Removals are told first, in ascending order: the uids in one
    /// `VANISHED` line for a client that has enabled QRESYNC, else one
    /// `EXPUNGE` line for each sequence number, lowered by the count of those
    /// told before it. The number of messages follows if there were removals
    /// or the largest uid has grown.
    pub fn write_mailbox_changes(&self, mailbox: &mut SelectedMailbox, is_qresync: bool) -> (buf:
        Vec<u8>)
        ensures
            final(mailbox).id == old(mailbox).id,
            final(mailbox).saved_search == old(mailbox).saved_search,
            old(mailbox).state.well_formed() ==> final(mailbox).state.next_state is None,
            old(mailbox).state.next_state is None ==> *final(mailbox) == *old(mailbox) && buf@
                == Seq::<u8>::empty(),
            old(mailbox).state.next_state matches Some(next) ==> final(mailbox).state
                == next.next_state && buf@ == announcement(
                old(mailbox).state.uid_max,
                old(mailbox).state.pending()->0,
                is_qresync,
            ),
    {
        let mut buf: Vec<u8> = Vec::new();
        match mailbox.state.next_state.take() {
            Some(next) => {
                let next = *next;
                if !next.deletions.is_empty() {
                    let ids = reported_numbers(&next.deletions, is_qresync);
                    proof {
                        lemma_reported_len(next.deletions@, is_qresync);
                        lemma_expunge_bytes_not_empty(is_qresync, ids@);
                    }
                    let response = Response { is_qresync, ids };
                    response.serialize_to(&mut buf);
                }
                if !buf.is_empty() || next.next_state.uid_max.saturating_sub(mailbox.state.uid_max)
                    > 0 {
                    let exists = Exists { total_messages: next.next_state.total_messages };
                    exists.serialize(&mut buf);
                }
                mailbox.state = next.next_state;
            },
            None => {},
        }
        buf
    }
}

/// As many numbers are reported as there are removals.
pub proof fn lemma_reported_len(deletions: Seq<ImapId>, is_qresync: bool)
    ensures
        reported(deletions, is_qresync).len() == deletions.len(),
{
    let numbers = deletions.map_values(|removed: ImapId| named_by(removed, is_qresync));
    numbers.lemma_sort_by_ensures(ascending_order());
    numbers.to_multiset_ensures();
    numbers.sort_by(ascending_order()).to_multiset_ensures();
}

} // verus!
