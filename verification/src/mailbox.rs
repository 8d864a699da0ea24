//! The state of a mailbox as a session sees it, and the mathematical model
//! that the contracts of this crate speak of.

use ahash::AHashMap;
use vstd::prelude::*;

use crate::collections::{id_entries, imap_entries};

verus! {

/// A mailbox within an account.
#[derive(Clone, Copy, Debug, PartialEq, Eq, Hash, Structural)]
pub struct MailboxId {
    pub account_id: u32,
    pub mailbox_id: u32,
}

/// The two addresses IMAP gives a message: its uid, which it keeps, and its
/// sequence number, which counts from 1 within one view of the mailbox.
#[derive(Clone, Copy, Debug, PartialEq, Eq, Hash, Structural)]
pub struct ImapId {
    pub uid: u32,
    pub seqnum: u32,
}

/// A message that the session itself has just added, with the uid it got.
#[derive(Clone, Copy, Debug, PartialEq, Eq, Hash, Structural)]
pub struct ImapUidToId {
    pub uid: u32,
    pub id: u32,
}

/// The store's record that a message lies in a mailbox under a uid. A
/// message has one such record for each mailbox it lies in.
#[derive(Clone, Copy, Debug, PartialEq, Eq, Hash, Structural)]
pub struct UidMailbox {
    pub mailbox_id: u32,
    pub uid: u32,
}

/// What the store holds under a mailbox's value record, as far as this
/// crate reads it: the `cid` property, if it is an unsigned integer.
#[derive(Clone, Copy, Debug, PartialEq, Eq, Structural)]
pub struct MailboxRecord {
    pub cid: Option<u64>,
}

/// A mailbox as one session sees it: the view that its client was last told
/// of, and, once a synchronization has found changes, the view that it will
/// be told of next.
#[derive(Debug, PartialEq, Eq)]
pub struct MailboxState {
    /// The uid that the next message will get.
    pub uid_next: u32,
    /// The UIDVALIDITY of the mailbox: while it stays, uids stay.
    pub uid_validity: u32,
    /// The largest uid, or 0 where there is no message.
    pub uid_max: u32,
    /// Each message with its uid and its sequence number.
    pub id_to_imap: AHashMap<u32, ImapId>,
    /// Each uid with its message.
    pub uid_to_id: AHashMap<u32, u32>,
    /// The number of messages.
    pub total_messages: usize,
    /// The store's change id for the account's messages when the view was
    /// built.
    pub modseq: Option<u64>,
    /// The view that is staged for the client, if there is one.
    pub next_state: Option<Box<NextMailboxState>>,
}

/// A view of the mailbox that is staged for the client, with the messages
/// whose removal the client has not been told of yet.
#[derive(Debug, PartialEq, Eq)]
pub struct NextMailboxState {
    /// The view that the client will be told of.
    pub next_state: MailboxState,
    /// The messages that have left, under the uid and the sequence number
    /// that the client knows them by.
    pub deletions: Vec<ImapId>,
}

/// The mailbox that a session has selected.
#[derive(Debug, PartialEq, Eq)]
pub struct SelectedMailbox {
    pub id: MailboxId,
    pub state: MailboxState,
    /// What the last search found, if its result was saved.
    pub saved_search: Option<Vec<ImapId>>,
}

/// The part of a session that decides what a mailbox's state becomes. The
/// reads from the store and the writes to the client are made by the caller,
/// who hands in what was read and sends what is handed back.
#[derive(Clone, Copy, Debug, PartialEq, Eq, Structural)]
pub struct SessionData {
    pub account_id: u32,
}

/// One view of a mailbox, as mathematics.
pub struct MailboxSnapshot {
    pub uid_validity: u32,
    pub modseq: Option<u64>,
    pub uid_next: u32,
    pub uid_max: u32,
    pub total_messages: usize,
    pub id_to_imap: Map<u32, ImapId>,
    pub uid_to_id: Map<u32, u32>,
}

/// A staged view with the removals that lead to it, as mathematics.
pub struct PendingTransition {
    pub next_state: MailboxSnapshot,
    pub deletions: Seq<ImapId>,
}

impl MailboxSnapshot {
    /// The two maps are inverses of each other on the uid: the message that
    /// a uid names carries that uid, and the uid that a message carries names
    /// that message.
    pub open spec fn maps_are_inverse(self) -> bool {
        &&& forall|id: u32| #[trigger]
            self.id_to_imap.contains_key(id) ==> self.uid_to_id.contains_pair(
                self.id_to_imap[id].uid,
                id,
            )
        &&& forall|uid: u32| #[trigger]
            self.uid_to_id.contains_key(uid) ==> self.id_to_imap.contains_key(self.uid_to_id[uid])
                && self.id_to_imap[self.uid_to_id[uid]].uid == uid
    }

    /// The uids that have a message are the uids that the messages carry.
    pub open spec fn uids_agree(self) -> bool {
        forall|uid: u32|
            self.uid_to_id.contains_key(uid) <==> exists|id: u32| #[trigger]
                self.id_to_imap.contains_key(id) && self.id_to_imap[id].uid == uid
    }

    /// `uids` lists every uid of the view once, in ascending order, and the
    /// message at place `i` of that list has the sequence number `i + 1`.
    pub open spec fn listed_by(self, uids: Seq<u32>) -> bool {
        &&& uids.len() == self.total_messages
        &&& forall|i: int, j: int| 0 <= i < j < uids.len() ==> uids[i] < uids[j]
        &&& forall|uid: u32| self.uid_to_id.contains_key(uid) <==> uids.contains(uid)
        &&& forall|i: int|
            0 <= i < uids.len() ==> self.id_to_imap.contains_key(
                self.uid_to_id[#[trigger] uids[i]],
            ) && self.id_to_imap[self.uid_to_id[uids[i]]].seqnum == i + 1
    }

    /// Read in ascending order of uid, the messages have the sequence numbers
    /// 1, 2, and so on up to the number of messages.
    pub open spec fn seqnums_are_dense(self) -> bool {
        exists|uids: Seq<u32>| self.listed_by(uids)
    }

    /// `uid_max` is the largest uid of the view, or 0 where the view has no
    /// message.
    pub open spec fn uid_max_is_largest(self) -> bool {
        ||| self.uid_max == 0 && self.total_messages == 0 && forall|uid: u32|
            !self.uid_to_id.contains_key(uid)
        ||| self.uid_to_id.contains_key(self.uid_max) && forall|uid: u32|
            self.uid_to_id.contains_key(uid) ==> uid <= self.uid_max
    }

    /// No uid of the view is above `uid_max`. This is what is left of
    /// [`Self::uid_max_is_largest`] while removals wait to be told: the
    /// message with the largest uid may be among them.
    pub open spec fn uid_max_covers(self) -> bool {
        forall|uid: u32| self.uid_to_id.contains_key(uid) ==> uid <= self.uid_max
    }

    /// `uid_next` is the uid after `uid_max`.
    pub open spec fn uid_next_follows(self) -> bool {
        self.uid_next == self.uid_max + 1
    }

    /// No message has the uid 0, which stands for "not assigned".
    pub open spec fn uids_are_assigned(self) -> bool {
        &&& !self.uid_to_id.contains_key(0)
        &&& forall|id: u32| #[trigger]
            self.id_to_imap.contains_key(id) ==> self.id_to_imap[id].uid != 0
    }

    /// What holds of every view that was built from the store.
    pub open spec fn is_materialized(self) -> bool {
        &&& self.uid_to_id.dom().finite()
        &&& self.id_to_imap.dom().finite()
        &&& self.maps_are_inverse()
        &&& self.uids_agree()
        &&& self.seqnums_are_dense()
        &&& self.uid_max_is_largest()
        &&& self.uid_next_follows()
        &&& self.uids_are_assigned()
    }
}

impl MailboxState {
    /// The view that the client was last told of.
    pub open spec fn snapshot(self) -> MailboxSnapshot {
        MailboxSnapshot {
            uid_validity: self.uid_validity,
            modseq: self.modseq,
            uid_next: self.uid_next,
            uid_max: self.uid_max,
            total_messages: self.total_messages,
            id_to_imap: imap_entries(self.id_to_imap),
            uid_to_id: id_entries(self.uid_to_id),
        }
    }

    /// The staged view and the removals that the client has not been told of.
    pub open spec fn pending(self) -> Option<PendingTransition> {
        match self.next_state {
            Some(next) => Some(
                PendingTransition {
                    next_state: next.next_state.snapshot(),
                    deletions: next.deletions@,
                },
            ),
            None => None,
        }
    }

    /// A staged view has nothing staged behind it.
    pub open spec fn well_formed(self) -> bool {
        match self.next_state {
            Some(next) => next.next_state.next_state is None,
            None => true,
        }
    }
}

} // verus!
