//! Taking in the messages that the session itself has just added to the
//! mailbox it has selected.

use vstd::prelude::*;

use crate::collections::{id_entries, id_map_insert, imap_entries, imap_map_insert};
use crate::error::Error;
use crate::mailbox::{ImapId, ImapUidToId, MailboxId, MailboxSnapshot, SelectedMailbox};

verus! {

/// A change id as a number, where none counts as 0.
pub open spec fn change_id(modseq: Option<u64>) -> u64 {
    match modseq {
        Some(id) => id,
        None => 0,
    }
}

/// The entry at place `i` is the last of the list for the message `id`.
pub open spec fn is_last_of_message(ids: Seq<ImapUidToId>, id: u32, i: int) -> bool {
    &&& 0 <= i < ids.len()
    &&& ids[i].id == id
    &&& forall|j: int| i < j < ids.len() ==> (#[trigger] ids[j]).id != id
}

/// The entry at place `i` is the last of the list with the uid `uid`.
pub open spec fn is_last_of_uid(ids: Seq<ImapUidToId>, uid: u32, i: int) -> bool {
    &&& 0 <= i < ids.len()
    &&& ids[i].uid == uid
    &&& forall|j: int| i < j < ids.len() ==> (#[trigger] ids[j]).uid != uid
}

impl MailboxSnapshot {
    /// The view with the messages of a list behind those it has: the
    /// message at place `i` of the list gets the sequence number that
    /// follows the number of messages before it. Where the list names a
    /// message or a uid twice, its later entry counts. The largest uid is
    /// left as it is.
    pub open spec fn with_messages(self, ids: Seq<ImapUidToId>) -> MailboxSnapshot {
        MailboxSnapshot {
            total_messages: (self.total_messages + ids.len()) as usize,
            id_to_imap: Map::new(
                |id: u32|
                    self.id_to_imap.contains_key(id) || exists|i: int|
                        is_last_of_message(ids, id, i),
                |id: u32|
                    if exists|i: int| is_last_of_message(ids, id, i) {
                        let i = choose|i: int| is_last_of_message(ids, id, i);
                        ImapId {
                            uid: ids[i].uid,
                            seqnum: (self.total_messages + i + 1) as u32,
                        }
                    } else {
                        self.id_to_imap[id]
                    },
            ),
            uid_to_id: Map::new(
                |uid: u32|
                    self.uid_to_id.contains_key(uid) || exists|i: int| is_last_of_uid(ids, uid, i),
                |uid: u32|
                    if exists|i: int| is_last_of_uid(ids, uid, i) {
                        ids[choose|i: int| is_last_of_uid(ids, uid, i)].id
                    } else {
                        self.uid_to_id[uid]
                    },
            ),
            ..self
        }
    }

    /// The view once the session has added the messages of a list: the
    /// messages are behind those that the view had, and the largest uid is
    /// the largest of the one before and the uids of the list. An empty list
    /// changes nothing.
    pub open spec fn appended(self, ids: Seq<ImapUidToId>) -> MailboxSnapshot {
        let uid_max = largest_uid(self.uid_max, ids);
        MailboxSnapshot {
            uid_max,
            uid_next: if ids.len() > 0 {
                (uid_max + 1) as u32
            } else {
                self.uid_next
            },
            ..self.with_messages(ids)
        }
    }

    /// Whether the messages of a list can join the view: sequence numbers
    /// are counted in 32 bits, so the messages must not become more than
    /// that, and the largest uid needs a uid after it.
    pub open spec fn accepts(self, ids: Seq<ImapUidToId>) -> bool {
        &&& self.total_messages + ids.len() <= u32::MAX
        &&& ids.len() > 0 ==> self.uid_max < u32::MAX && forall|i: int|
            0 <= i < ids.len() ==> (#[trigger] ids[i]).uid < u32::MAX
    }
}

/// The largest of `floor` and the uids of a list.
pub open spec fn largest_uid(floor: u32, ids: Seq<ImapUidToId>) -> u32
    decreases ids.len(),
{
    if ids.len() == 0 {
        floor
    } else {
        let before = largest_uid(floor, ids.drop_last());
        if ids.last().uid > before {
            ids.last().uid
        } else {
            before
        }
    }
}

/// The largest uid is no smaller than `floor` and than any uid of the list,
/// and it is one of them.
pub proof fn lemma_largest_uid(floor: u32, ids: Seq<ImapUidToId>)
    ensures
        largest_uid(floor, ids) >= floor,
        forall|i: int| 0 <= i < ids.len() ==> largest_uid(floor, ids) >= (#[trigger] ids[i]).uid,
        largest_uid(floor, ids) == floor || exists|i: int|
            0 <= i < ids.len() && (#[trigger] ids[i]).uid == largest_uid(floor, ids),
    decreases ids.len(),
{
    if ids.len() > 0 {
        let shorter = ids.drop_last();
        lemma_largest_uid(floor, shorter);
        assert forall|i: int| 0 <= i < ids.len() implies largest_uid(floor, ids) >= (
        #[trigger] ids[i]).uid by {
            if i < shorter.len() {
                assert(shorter[i] == ids[i]);
            }
        }
        if largest_uid(floor, ids) != floor {
            if largest_uid(floor, ids) == ids.last().uid {
                assert(ids[ids.len() - 1].uid == largest_uid(floor, ids));
            } else {
                let at = choose|i: int|
                    0 <= i < shorter.len() && (#[trigger] shorter[i]).uid == largest_uid(
                        floor,
                        shorter,
                    );
                assert(ids[at].uid == largest_uid(floor, ids));
            }
        }
    }
}

/// A list has one last entry for a message.
proof fn lemma_last_of_message_is_unique(ids: Seq<ImapUidToId>, id: u32, i: int, j: int)
    requires
        is_last_of_message(ids, id, i),
        is_last_of_message(ids, id, j),
    ensures
        i == j,
{
}

/// A list has one last entry with a uid.
proof fn lemma_last_of_uid_is_unique(ids: Seq<ImapUidToId>, uid: u32, i: int, j: int)
    requires
        is_last_of_uid(ids, uid, i),
        is_last_of_uid(ids, uid, j),
    ensures
        i == j,
{
}

/// Taking in one more entry of the list is an insertion into each map.
proof fn lemma_with_one_more(view: MailboxSnapshot, ids: Seq<ImapUidToId>, count: int)
    requires
        0 <= count < ids.len(),
    ensures
        view.with_messages(ids.take(count + 1)).id_to_imap == view.with_messages(
            ids.take(count),
        ).id_to_imap.insert(
            ids[count].id,
            ImapId { uid: ids[count].uid, seqnum: (view.total_messages + count + 1) as u32 },
        ),
        view.with_messages(ids.take(count + 1)).uid_to_id == view.with_messages(
            ids.take(count),
        ).uid_to_id.insert(ids[count].uid, ids[count].id),
{
    let seen = ids.take(count);
    let extended = ids.take(count + 1);
    let entry = ids[count];
    let before = view.with_messages(seen);
    let after = view.with_messages(extended);
    // The map of messages.
    let inserted = before.id_to_imap.insert(
        entry.id,
        ImapId { uid: entry.uid, seqnum: (view.total_messages + count + 1) as u32 },
    );
    assert forall|id: u32| after.id_to_imap.contains_key(id) <==> inserted.contains_key(id) by {
        if exists|i: int| is_last_of_message(extended, id, i) {
            let at = choose|i: int| is_last_of_message(extended, id, i);
            if at < count {
                assert(is_last_of_message(seen, id, at));
            }
        }
        if exists|i: int| is_last_of_message(seen, id, i) {
            let at = choose|i: int| is_last_of_message(seen, id, i);
            if entry.id != id {
                assert(is_last_of_message(extended, id, at));
            }
        }
        if entry.id == id {
            assert(is_last_of_message(extended, id, count));
        }
    }
    assert forall|id: u32| after.id_to_imap.contains_key(id) implies after.id_to_imap[id]
        == inserted[id] by {
        if entry.id == id {
            assert(is_last_of_message(extended, id, count));
            let at = choose|i: int| is_last_of_message(extended, id, i);
            lemma_last_of_message_is_unique(extended, id, at, count);
        } else if exists|i: int| is_last_of_message(extended, id, i) {
            let at = choose|i: int| is_last_of_message(extended, id, i);
            assert(is_last_of_message(seen, id, at));
            let other = choose|i: int| is_last_of_message(seen, id, i);
            lemma_last_of_message_is_unique(seen, id, at, other);
        } else if exists|i: int| is_last_of_message(seen, id, i) {
            let at = choose|i: int| is_last_of_message(seen, id, i);
            assert(is_last_of_message(extended, id, at));
        }
    }
    // The map of uids.
    let added = before.uid_to_id.insert(entry.uid, entry.id);
    assert forall|uid: u32| after.uid_to_id.contains_key(uid) <==> added.contains_key(uid) by {
        if exists|i: int| is_last_of_uid(extended, uid, i) {
            let at = choose|i: int| is_last_of_uid(extended, uid, i);
            if at < count {
                assert(is_last_of_uid(seen, uid, at));
            }
        }
        if exists|i: int| is_last_of_uid(seen, uid, i) {
            let at = choose|i: int| is_last_of_uid(seen, uid, i);
            if entry.uid != uid {
                assert(is_last_of_uid(extended, uid, at));
            }
        }
        if entry.uid == uid {
            assert(is_last_of_uid(extended, uid, count));
        }
    }
    assert forall|uid: u32| after.uid_to_id.contains_key(uid) implies after.uid_to_id[uid]
        == added[uid] by {
        if entry.uid == uid {
            assert(is_last_of_uid(extended, uid, count));
            let at = choose|i: int| is_last_of_uid(extended, uid, i);
            lemma_last_of_uid_is_unique(extended, uid, at, count);
        } else if exists|i: int| is_last_of_uid(extended, uid, i) {
            let at = choose|i: int| is_last_of_uid(extended, uid, i);
            assert(is_last_of_uid(seen, uid, at));
            let other = choose|i: int| is_last_of_uid(seen, uid, i);
            lemma_last_of_uid_is_unique(seen, uid, at, other);
        } else if exists|i: int| is_last_of_uid(seen, uid, i) {
            let at = choose|i: int| is_last_of_uid(seen, uid, i);
            assert(is_last_of_uid(extended, uid, at));
        }
    }
}

impl SelectedMailbox {
    /// The mailbox that a copy or a move out of the selected mailbox puts
    /// its messages in, from what looking up the name of the target gave. A
    /// target that does not exist is to be created first, and the selected
    /// mailbox is no target for its own messages.
    pub fn copy_destination(&self, target: Option<MailboxId>) -> (destination: Result<
        MailboxId,
        Error,
    >)
        ensures
            destination == (match target {
                None => Err::<MailboxId, Error>(Error::TryCreate),
                Some(id) => if id == self.id {
                    Err::<MailboxId, Error>(Error::CannotCopyToSelf)
                } else {
                    Ok::<MailboxId, Error>(id)
                },
            }),
    {
        match target {
            None => Err(Error::TryCreate),
            Some(id) => {
                if id.account_id == self.id.account_id && id.mailbox_id == self.id.mailbox_id {
                    Err(Error::CannotCopyToSelf)
                } else {
                    Ok(id)
                }
            },
        }
    }

    /// Whether a list of messages can be taken in: the messages stay
    /// countable in 32 bits, and the largest uid has a uid after it.
    pub open spec fn takes(self, ids: Seq<ImapUidToId>) -> bool {
        self.state.snapshot().accepts(ids)
    }

    /// Whether [`Self::append_messages`] can be called with a list of
    /// messages and a change id: the change id is not above that of the
    /// view, so that nothing is taken in, or the list can be taken in.
    pub fn can_append(&self, ids: &Vec<ImapUidToId>, modseq: Option<u64>) -> (possible: bool)
        ensures
            possible == (change_id(modseq) > change_id(self.state.modseq) ==> self.takes(ids@)),
    {
        let given = match modseq {
            Some(id) => id,
            None => 0,
        };
        let held = match self.state.modseq {
            Some(id) => id,
            None => 0,
        };
        if given <= held {
            return true;
        }
        if self.state.total_messages > u32::MAX as usize || ids.len() > u32::MAX as usize
            - self.state.total_messages {
            return false;
        }
        if ids.len() > 0 && self.state.uid_max == u32::MAX {
            return false;
        }
        let mut i: usize = 0;
        while i < ids.len()
            invariant
                i <= ids.len(),
                change_id(modseq) > change_id(self.state.modseq),
                self.state.total_messages + ids@.len() <= u32::MAX,
                ids@.len() > 0 ==> self.state.uid_max < u32::MAX,
                forall|j: int| 0 <= j < i ==> (#[trigger] ids@[j]).uid < u32::MAX,
            decreases ids.len() - i,
        {
            if ids[i].uid == u32::MAX {
                return false;
            }
            i += 1;
        }
        true
    }

    /// Takes in the messages that the session has just added to the
    /// mailbox, and hands back the mailbox's UIDVALIDITY.
    ///
    /// If `modseq` is above the change id of the session's view, the
    /// messages join the view in the order of the list, each with the next
    /// sequence number, and the largest uid becomes the largest of the one
    /// before and the uids of the list. An empty list changes nothing. If
    /// `modseq` is not above the change id of the view, the view stays as it
    /// is. What is staged for the client is not touched either way.
    ///
    /// Where messages are taken in, they have to stay countable in 32 bits,
    /// and the largest uid needs a uid after it.
    pub fn append_messages(&mut self, ids: Vec<ImapUidToId>, modseq: Option<u64>) -> (uid_validity:
        u32)
        requires
            change_id(modseq) > change_id(old(self).state.modseq) ==> old(self).takes(ids@),
        ensures
            uid_validity == old(self).state.uid_validity,
            final(self).id == old(self).id,
            final(self).saved_search == old(self).saved_search,
            final(self).state.next_state == old(self).state.next_state,
            change_id(modseq) > change_id(old(self).state.modseq) ==> final(self).state.snapshot()
                == old(self).state.snapshot().appended(ids@),
            change_id(modseq) <= change_id(old(self).state.modseq) ==> *final(self) == *old(self),
            ids@.len() == 0 ==> final(self).state.snapshot() == old(self).state.snapshot(),
            final(self).state.uid_max >= old(self).state.uid_max,
    {
        proof {
            lemma_largest_uid(self.state.uid_max, ids@);
        }
        let given = match modseq {
            Some(id) => id,
            None => 0,
        };
        let held = match self.state.modseq {
            Some(id) => id,
            None => 0,
        };
        if given > held && ids.len() > 0 {
            let ghost before = self.state.snapshot();
            let mut uid_max: u32 = self.state.uid_max;
            let mut i: usize = 0;
            proof {
                assert(ids@.take(0) =~= Seq::<ImapUidToId>::empty());
                assert(before.with_messages(ids@.take(0)).id_to_imap =~= before.id_to_imap);
                assert(before.with_messages(ids@.take(0)).uid_to_id =~= before.uid_to_id);
            }
            while i < ids.len()
                invariant
                    i <= ids.len(),
                    before.accepts(ids@),
                    self.id == old(self).id,
                    self.saved_search == old(self).saved_search,
                    self.state.next_state == old(self).state.next_state,
                    self.state.uid_validity == before.uid_validity,
                    self.state.modseq == before.modseq,
                    self.state.total_messages == before.total_messages + i,
                    imap_entries(self.state.id_to_imap) == before.with_messages(
                        ids@.take(i as int),
                    ).id_to_imap,
                    id_entries(self.state.uid_to_id) == before.with_messages(
                        ids@.take(i as int),
                    ).uid_to_id,
                    uid_max == largest_uid(before.uid_max, ids@.take(i as int)),
                    uid_max < u32::MAX,
                decreases ids.len() - i,
            {
                let id = ids[i];
                proof {
                    lemma_with_one_more(before, ids@, i as int);
                    assert(ids@.take(i + 1).drop_last() =~= ids@.take(i as int));
                }
                self.state.total_messages += 1;
                let seqnum = self.state.total_messages as u32;
                id_map_insert(&mut self.state.uid_to_id, id.uid, id.id);
                imap_map_insert(&mut self.state.id_to_imap, id.id, ImapId { uid: id.uid, seqnum });
                if id.uid > uid_max {
                    uid_max = id.uid;
                }
                i += 1;
            }
            self.state.uid_max = uid_max;
            self.state.uid_next = uid_max + 1;
            proof {
                assert(ids@.take(i as int) =~= ids@);
            }
        } else if given > held {
            proof {
                let before = self.state.snapshot();
                assert(before.with_messages(ids@).id_to_imap =~= before.id_to_imap);
                assert(before.with_messages(ids@).uid_to_id =~= before.uid_to_id);
            }
        }
        self.state.uid_validity
    }
}

} // verus!
