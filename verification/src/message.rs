//! Building a mailbox's view from what the store holds.

use std::collections::{BTreeMap, BTreeSet};
use vstd::prelude::*;
use vstd::std_specs::cmp::OrdSpec;
use vstd::std_specs::iter::IteratorSpec;

use crate::collections::{
    id_entries, id_map_insert, id_map_with_capacity, imap_entries, imap_map_insert, imap_map_len,
    imap_map_with_capacity,
};
use crate::error::{Error, StoreError};
use crate::mailbox::{ImapId, MailboxId, MailboxRecord, MailboxState, SessionData, UidMailbox};
use crate::sequence::add_number;

verus! {

/// How often a read from the store is tried again before it counts as
/// failed.
pub const MAX_RETRIES: usize = 10;

/// The record at place `i` is the first of the list that names the mailbox.
pub open spec fn is_first_record(records: Seq<UidMailbox>, mailbox_id: u32, i: int) -> bool {
    &&& 0 <= i < records.len()
    &&& records[i].mailbox_id == mailbox_id
    &&& forall|j: int| 0 <= j < i ==> (#[trigger] records[j]).mailbox_id != mailbox_id
}

/// The uid that a message has in a mailbox: that of the first of its records
/// that names the mailbox, if there is one.
pub open spec fn mailbox_uid(records: Seq<UidMailbox>, mailbox_id: u32) -> Option<u32> {
    if exists|i: int| is_first_record(records, mailbox_id, i) {
        Some(records[choose|i: int| is_first_record(records, mailbox_id, i)].uid)
    } else {
        None
    }
}

/// The uid that the message at place `i` has in the mailbox.
pub open spec fn message_uid(
    messages: Seq<(u32, Vec<UidMailbox>)>,
    mailbox_id: u32,
    i: int,
) -> Option<u32> {
    mailbox_uid(messages[i].1@, mailbox_id)
}

/// The message at place `i` is the first of the list that has `uid` in the
/// mailbox. Where the store holds a uid twice, the first message keeps it.
pub open spec fn holds_uid(
    messages: Seq<(u32, Vec<UidMailbox>)>,
    mailbox_id: u32,
    uid: u32,
    i: int,
) -> bool {
    &&& 0 <= i < messages.len()
    &&& message_uid(messages, mailbox_id, i) == Some(uid)
    &&& forall|j: int| 0 <= j < i ==> message_uid(messages, mailbox_id, j) != Some(uid)
}

/// The map from uid to message that a list of messages gives a mailbox.
pub open spec fn materialized_uids(
    messages: Seq<(u32, Vec<UidMailbox>)>,
    mailbox_id: u32,
) -> Map<u32, u32> {
    Map::new(
        |uid: u32| exists|i: int| holds_uid(messages, mailbox_id, uid, i),
        |uid: u32| messages[choose|i: int| holds_uid(messages, mailbox_id, uid, i)].0,
    )
}

/// No message occurs twice in the list.
pub open spec fn distinct_messages(messages: Seq<(u32, Vec<UidMailbox>)>) -> bool {
    forall|i: int, j: int|
        0 <= i < j < messages.len() ==> (#[trigger] messages[i]).0 != (#[trigger] messages[j]).0
}

/// Every uid that a message has in the mailbox is assigned, and has a uid
/// after it.
pub open spec fn uids_in_range(messages: Seq<(u32, Vec<UidMailbox>)>, mailbox_id: u32) -> bool {
    forall|i: int|
        0 <= i < messages.len() ==> match #[trigger] message_uid(messages, mailbox_id, i) {
            Some(uid) => 0 < uid < u32::MAX,
            None => true,
        }
}

/// The uid of the first record that names the mailbox.
pub fn find_mailbox_uid(records: &Vec<UidMailbox>, mailbox_id: u32) -> (uid: Option<u32>)
    ensures
        uid == mailbox_uid(records@, mailbox_id),
{
    let mut i: usize = 0;
    while i < records.len()
        invariant
            i <= records.len(),
            forall|j: int| 0 <= j < i ==> (#[trigger] records@[j]).mailbox_id != mailbox_id,
        decreases records.len() - i,
    {
        if records[i].mailbox_id == mailbox_id {
            proof {
                let at = i as int;
                assert(is_first_record(records@, mailbox_id, at));
            }
            return Some(records[i].uid);
        }
        i += 1;
    }
    None
}

/// Whether a list of messages is one that the store can have handed out
/// for a mailbox: no message is in it twice, and every uid that a message has
/// in the mailbox is assigned and has a uid after it.
pub fn valid_messages(messages: &Vec<(u32, Vec<UidMailbox>)>, mailbox_id: u32) -> (valid: bool)
    ensures
        valid == (distinct_messages(messages@) && uids_in_range(messages@, mailbox_id)),
{
    let mut seen: BTreeSet<u32> = BTreeSet::new();
    let mut i: usize = 0;
    while i < messages.len()
        invariant
            i <= messages.len(),
            forall|id: u32|
                #![trigger seen@.contains(id)]
                seen@.contains(id) <==> exists|j: int|
                    0 <= j < i && (#[trigger] messages@[j]).0 == id,
            forall|a: int, b: int|
                0 <= a < b < i ==> (#[trigger] messages@[a]).0 != (#[trigger] messages@[b]).0,
            forall|j: int|
                0 <= j < i ==> match #[trigger] message_uid(messages@, mailbox_id, j) {
                    Some(uid) => 0 < uid < u32::MAX,
                    None => true,
                },
        decreases messages.len() - i,
    {
        if !add_number(&mut seen, messages[i].0) {
            return false;
        }
        match find_mailbox_uid(&messages[i].1, mailbox_id) {
            Some(uid) => {
                if uid == 0 || uid == u32::MAX {
                    return false;
                }
            },
            None => {},
        }
        proof {
            assert(message_uid(messages@, mailbox_id, i as int) == mailbox_uid(
                messages@[i as int].1@,
                mailbox_id,
            ));
        }
        i += 1;
    }
    true
}

/// The message at place `i` has a uid in the mailbox that a message before
/// it in the list has there too. Such a message is left out of the view.
pub open spec fn repeats_uid(messages: Seq<(u32, Vec<UidMailbox>)>, mailbox_id: u32, i: int) -> bool {
    &&& 0 <= i < messages.len()
    &&& match message_uid(messages, mailbox_id, i) {
        Some(uid) => exists|j: int|
            0 <= j < i && #[trigger] message_uid(messages, mailbox_id, j) == Some(uid),
        None => false,
    }
}

/// `places` holds, in ascending order, the places of the messages that are
/// left out of the view for a uid held twice, and `dropped` holds each of
/// these messages with that uid.
pub open spec fn lists_repeats(
    messages: Seq<(u32, Vec<UidMailbox>)>,
    mailbox_id: u32,
    places: Seq<int>,
    dropped: Seq<(u32, u32)>,
) -> bool {
    &&& places.len() == dropped.len()
    &&& forall|k: int, l: int| 0 <= k < l < places.len() ==> places[k] < places[l]
    &&& forall|i: int| repeats_uid(messages, mailbox_id, i) <==> places.contains(i)
    &&& forall|k: int|
        0 <= k < places.len() ==> (#[trigger] dropped[k]).0 == messages[places[k]].0
            && message_uid(messages, mailbox_id, places[k]) == Some(dropped[k].1)
}

/// The messages that [`SessionData::fetch_messages`] leaves out of the view
/// because a message before them in the list has their uid: each with its
/// id and that uid, in the order of the list. The store should hold none;
/// where it does, the caller can tell its operator.
pub fn duplicate_uids(messages: &Vec<(u32, Vec<UidMailbox>)>, mailbox_id: u32) -> (dropped: Vec<
    (u32, u32),
>)
    ensures
        exists|places: Seq<int>| lists_repeats(messages@, mailbox_id, places, dropped@),
{
    let mut dropped: Vec<(u32, u32)> = Vec::new();
    let mut seen: BTreeSet<u32> = BTreeSet::new();
    let ghost mut places: Seq<int> = Seq::empty();
    let mut i: usize = 0;
    while i < messages.len()
        invariant
            i <= messages.len(),
            forall|uid: u32|
                #![trigger seen@.contains(uid)]
                seen@.contains(uid) <==> exists|j: int|
                    0 <= j < i && #[trigger] message_uid(messages@, mailbox_id, j) == Some(uid),
            places.len() == dropped@.len(),
            forall|k: int| 0 <= k < places.len() ==> 0 <= #[trigger] places[k] < i,
            forall|k: int, l: int| 0 <= k < l < places.len() ==> places[k] < places[l],
            forall|p: int|
                0 <= p < i ==> (repeats_uid(messages@, mailbox_id, p) <==> places.contains(p)),
            forall|k: int|
                0 <= k < places.len() ==> (#[trigger] dropped@[k]).0 == messages@[places[k]].0
                    && message_uid(messages@, mailbox_id, places[k]) == Some(dropped@[k].1),
        decreases messages.len() - i,
    {
        let ghost before = seen@;
        let ghost places_before = places;
        let found = find_mailbox_uid(&messages[i].1, mailbox_id);
        assert(message_uid(messages@, mailbox_id, i as int) == found);
        if let Some(uid) = found {
            if !add_number(&mut seen, uid) {
                dropped.push((messages[i].0, uid));
                proof {
                    places = places.push(i as int);
                    assert(repeats_uid(messages@, mailbox_id, i as int));
                    assert(places[places_before.len() as int] == i);
                }
            }
        }
        proof {
            assert forall|uid: u32|
                #![trigger seen@.contains(uid)]
                seen@.contains(uid) <==> exists|j: int|
                    0 <= j < i + 1 && #[trigger] message_uid(messages@, mailbox_id, j) == Some(
                        uid,
                    ) by {
                if before.contains(uid) {
                    let j = choose|j: int|
                        0 <= j < i && #[trigger] message_uid(messages@, mailbox_id, j) == Some(uid);
                    assert(message_uid(messages@, mailbox_id, j) == Some(uid));
                }
                if exists|j: int|
                    0 <= j < i + 1 && #[trigger] message_uid(messages@, mailbox_id, j) == Some(
                        uid,
                    ) {
                    let j = choose|j: int|
                        0 <= j < i + 1 && #[trigger] message_uid(messages@, mailbox_id, j) == Some(
                            uid,
                        );
                    if j < i {
                        assert(before.contains(uid));
                    }
                }
            }
            assert forall|p: int| 0 <= p < i + 1 implies (repeats_uid(messages@, mailbox_id, p)
                <==> places.contains(p)) by {
                if p < i {
                    if places_before.contains(p) {
                        let k = choose|k: int| 0 <= k < places_before.len() && places_before[k] == p;
                        assert(places[k] == p);
                    }
                    if places.contains(p) {
                        let k = choose|k: int| 0 <= k < places.len() && places[k] == p;
                        if k < places_before.len() {
                            assert(places_before[k] == p);
                        }
                    }
                } else {
                    if places.contains(p) {
                        let k = choose|k: int| 0 <= k < places.len() && places[k] == p;
                        if k < places_before.len() {
                            assert(places_before[k] < i);
                        }
                    }
                    if repeats_uid(messages@, mailbox_id, p) {
                        assert(before.contains(found->0));
                    }
                }
            }
        }
        i += 1;
    }
    proof {
        assert forall|p: int| repeats_uid(messages@, mailbox_id, p) <==> places.contains(p) by {
            if places.contains(p) {
                let k = choose|k: int| 0 <= k < places.len() && places[k] == p;
                assert(0 <= places[k] < i);
            }
        }
        assert(lists_repeats(messages@, mailbox_id, places, dropped@));
    }
    dropped
}

/// Two places that hold the same uid are the same place.
proof fn lemma_holder_is_unique(
    messages: Seq<(u32, Vec<UidMailbox>)>,
    mailbox_id: u32,
    uid: u32,
    i: int,
    j: int,
)
    requires
        holds_uid(messages, mailbox_id, uid, i),
        holds_uid(messages, mailbox_id, uid, j),
    ensures
        i == j,
{
}

/// Gives `uid` the message `id` unless the uid has a message already.
fn keep_first(uid_map: &mut BTreeMap<u32, u32>, uid: u32, id: u32) -> (added: bool)
    ensures
        added == !old(uid_map)@.contains_key(uid),
        final(uid_map)@ == (if added {
            old(uid_map)@.insert(uid, id)
        } else {
            old(uid_map)@
        }),
{
    broadcast use vstd::std_specs::btree::group_btree_axioms;
    broadcast use vstd::laws_cmp::group_laws_cmp;

    if uid_map.contains_key(&uid) {
        false
    } else {
        uid_map.insert(uid, id);
        true
    }
}

/// The entries of the map, in ascending order of uid.
fn ordered_entries(uid_map: &BTreeMap<u32, u32>) -> (entries: Vec<(u32, u32)>)
    ensures
        entries@.len() == uid_map@.dom().len(),
        forall|i: int, j: int|
            0 <= i < j < entries@.len() ==> (#[trigger] entries@[i]).0 < (#[trigger] entries@[j]).0,
        forall|i: int|
            0 <= i < entries@.len() ==> uid_map@.contains_pair(
                (#[trigger] entries@[i]).0,
                entries@[i].1,
            ),
        forall|uid: u32| #[trigger]
            uid_map@.contains_key(uid) ==> exists|i: int|
                0 <= i < entries@.len() && (#[trigger] entries@[i]).0 == uid,
{
    broadcast use vstd::std_specs::btree::group_btree_axioms;
    broadcast use vstd::laws_cmp::group_laws_cmp;

    let mut entries: Vec<(u32, u32)> = Vec::new();
    let iter = uid_map.iter();
    let ghost listed = iter.remaining();
    for entry in it: iter
        invariant
            it.seq() == listed,
            entries@.len() == it.index(),
            forall|i: int|
                0 <= i < entries@.len() ==> entries@[i].0 == *(#[trigger] listed[i]).0
                    && entries@[i].1 == *listed[i].1,
    {
        entries.push((*entry.0, *entry.1));
    }
    proof {
        let uids = listed.map_values(|pair: (&u32, &u32)| *pair.0);
        assert forall|i: int, j: int| 0 <= i < j < entries@.len() implies (#[trigger] entries@[i]).0
            < (#[trigger] entries@[j]).0 by {
            assert(uids[i].cmp_spec(&uids[j]) is Less);
        }
        assert forall|i: int| 0 <= i < entries@.len() implies uid_map@.contains_pair(
            (#[trigger] entries@[i]).0,
            entries@[i].1,
        ) by {
            assert(uid_map@.contains_key(*listed[i].0));
        }
    }
    entries
}

/// The map from uid to message: each message of the list under the uid of
/// its first record that names the mailbox, and where two messages have one
/// uid, the first of them.
fn collect_uids(messages: &Vec<(u32, Vec<UidMailbox>)>, mailbox_id: u32) -> (uid_map: BTreeMap<
    u32,
    u32,
>)
    ensures
        uid_map@ == materialized_uids(messages@, mailbox_id),
{
    let mut uid_map: BTreeMap<u32, u32> = BTreeMap::new();
    let mut i: usize = 0;
    while i < messages.len()
        invariant
            i <= messages.len(),
            forall|uid: u32| #[trigger]
                uid_map@.contains_key(uid) ==> exists|j: int|
                    j < i && #[trigger] holds_uid(messages@, mailbox_id, uid, j) && uid_map@[uid]
                        == messages@[j].0,
            forall|j: int|
                0 <= j < i ==> match #[trigger] message_uid(messages@, mailbox_id, j) {
                    Some(uid) => uid_map@.contains_key(uid),
                    None => true,
                },
        decreases messages.len() - i,
    {
        if let Some(uid) = find_mailbox_uid(&messages[i].1, mailbox_id) {
            let added = keep_first(&mut uid_map, uid, messages[i].0);
            proof {
                assert forall|other: u32| #[trigger] uid_map@.contains_key(other) implies exists|
                    j: int,
                |
                    j < i + 1 && #[trigger] holds_uid(messages@, mailbox_id, other, j)
                        && uid_map@[other] == messages@[j].0 by {
                    if other == uid && added {
                        assert(holds_uid(messages@, mailbox_id, other, i as int));
                    }
                }
            }
        }
        i += 1;
    }
    uid_map
}

/// What the loop that numbers the messages relies on: the entries are in
/// ascending order of uid, no message occurs twice among them, and each uid
/// is assigned and has a uid after it.
spec fn numbered_entries(entries: Seq<(u32, u32)>) -> bool {
    &&& forall|i: int, j: int|
        0 <= i < j < entries.len() ==> (#[trigger] entries[i]).0 < (#[trigger] entries[j]).0
    &&& forall|i: int, j: int|
        0 <= i < j < entries.len() ==> (#[trigger] entries[i]).1 != (#[trigger] entries[j]).1
    &&& forall|i: int| 0 <= i < entries.len() ==> 0 < (#[trigger] entries[i]).0 < u32::MAX
}

/// In a list in ascending order that starts above 0, the uid at place `i` is
/// above `i`.
proof fn lemma_uid_above_place(entries: Seq<(u32, u32)>, i: int)
    requires
        numbered_entries(entries),
        0 <= i < entries.len(),
    ensures
        entries[i].0 > i,
    decreases i,
{
    if i > 0 {
        lemma_uid_above_place(entries, i - 1);
    }
}

/// The entries of the map of uids meet what the numbering relies on.
proof fn lemma_entries_are_numbered(
    messages: Seq<(u32, Vec<UidMailbox>)>,
    mailbox_id: u32,
    entries: Seq<(u32, u32)>,
)
    requires
        distinct_messages(messages),
        uids_in_range(messages, mailbox_id),
        forall|i: int, j: int|
            0 <= i < j < entries.len() ==> (#[trigger] entries[i]).0 < (#[trigger] entries[j]).0,
        forall|i: int|
            0 <= i < entries.len() ==> materialized_uids(messages, mailbox_id).contains_pair(
                (#[trigger] entries[i]).0,
                entries[i].1,
            ),
    ensures
        numbered_entries(entries),
{
}

impl SessionData {
    /// Builds the view of a mailbox from what the store holds: the
    /// mailbox's UIDVALIDITY, the change id of the account's messages, read
    /// before the messages themselves, and, for each message that is tagged
    /// with the mailbox, its id and its records of membership.
    ///
    /// A message belongs to the view if one of its records names the
    /// mailbox, under the uid of the first such record. The messages are
    /// numbered from 1 in ascending order of uid.
    ///
    /// The store lists a message once, and gives no message of a mailbox the
    /// uid 0.
    pub fn fetch_messages(
        &self,
        mailbox: &MailboxId,
        uid_validity: u32,
        modseq: Option<u64>,
        messages: &Vec<(u32, Vec<UidMailbox>)>,
    ) -> (state: MailboxState)
        requires
            distinct_messages(messages@),
            uids_in_range(messages@, mailbox.mailbox_id),
        ensures
            state.uid_validity == uid_validity,
            state.modseq == modseq,
            state.next_state is None,
            id_entries(state.uid_to_id) == materialized_uids(messages@, mailbox.mailbox_id),
            state.snapshot().is_materialized(),
    {
        let uid_map = collect_uids(messages, mailbox.mailbox_id);
        let entries = ordered_entries(&uid_map);
        proof {
            lemma_entries_are_numbered(messages@, mailbox.mailbox_id, entries@);
        }

        let mut uid_max: u32 = 0;
        let mut id_to_imap = imap_map_with_capacity(entries.len());
        let mut uid_to_id = id_map_with_capacity(entries.len());
        let mut place: usize = 0;
        while place < entries.len()
            invariant
                place <= entries.len(),
                numbered_entries(entries@),
                imap_entries(id_to_imap).dom().finite(),
                imap_entries(id_to_imap).len() == place,
                id_entries(uid_to_id).dom().finite(),
                forall|i: int|
                    0 <= i < place ==> imap_entries(id_to_imap).contains_pair(
                        (#[trigger] entries@[i]).1,
                        ImapId { uid: entries@[i].0, seqnum: (i + 1) as u32 },
                    ),
                forall|id: u32| #[trigger]
                    imap_entries(id_to_imap).contains_key(id) ==> exists|i: int|
                        0 <= i < place && (#[trigger] entries@[i]).1 == id,
                forall|i: int|
                    0 <= i < place ==> id_entries(uid_to_id).contains_pair(
                        (#[trigger] entries@[i]).0,
                        entries@[i].1,
                    ),
                forall|uid: u32| #[trigger]
                    id_entries(uid_to_id).contains_key(uid) ==> exists|i: int|
                        0 <= i < place && (#[trigger] entries@[i]).0 == uid,
                place == 0 ==> uid_max == 0,
                place > 0 ==> uid_max == entries@[place - 1].0,
            decreases entries.len() - place,
        {
            let uid = entries[place].0;
            let message_id = entries[place].1;
            proof {
                lemma_uid_above_place(entries@, place as int);
            }
            if uid > uid_max {
                uid_max = uid;
            }
            imap_map_insert(&mut id_to_imap, message_id, ImapId { uid, seqnum: place as u32 + 1 });
            id_map_insert(&mut uid_to_id, uid, message_id);
            place += 1;
        }
        let total_messages = imap_map_len(&id_to_imap);
        let state = MailboxState {
            uid_next: uid_max + 1,
            uid_validity,
            uid_max,
            id_to_imap,
            uid_to_id,
            total_messages,
            modseq,
            next_state: None,
        };
        proof {
            let view = state.snapshot();
            let listed = entries@;
            assert(view.uids_agree()) by {
                assert forall|uid: u32| view.uid_to_id.contains_key(uid) implies exists|id: u32|
                 #[trigger]
                    view.id_to_imap.contains_key(id) && view.id_to_imap[id].uid == uid by {
                    assert(view.id_to_imap.contains_key(view.uid_to_id[uid]));
                }
            }
            assert(view.seqnums_are_dense()) by {
                let uids = Seq::new(listed.len(), |i: int| listed[i].0);
                assert forall|uid: u32| view.uid_to_id.contains_key(uid) implies uids.contains(
                    uid,
                ) by {
                    let at = choose|i: int| 0 <= i < place && (#[trigger] listed[i]).0 == uid;
                    assert(uids[at] == uid);
                }
                assert forall|i: int| 0 <= i < uids.len() implies view.id_to_imap.contains_key(
                    view.uid_to_id[#[trigger] uids[i]],
                ) && view.id_to_imap[view.uid_to_id[uids[i]]].seqnum == i + 1 by {
                    lemma_uid_above_place(listed, i);
                }
                assert(view.listed_by(uids));
            }
        }
        state
    }

    /// The change id of the account's messages from what the store
    /// answered. A read that failed is a failure of the database.
    pub fn get_modseq(&self, read: Result<Option<u64>, StoreError>) -> (modseq: Result<
        Option<u64>,
        Error,
    >)
        ensures
            modseq == (match read {
                Ok(id) => Ok::<Option<u64>, Error>(id),
                Err(_) => Err::<Option<u64>, Error>(Error::DatabaseFailure),
            }),
    {
        match read {
            Ok(id) => Ok(id),
            Err(error) => Err(Error::from(error)),
        }
    }

    /// The UIDVALIDITY of a mailbox from what the store answered for the
    /// mailbox's record: the `cid` of the record, cut to 32 bits. A read that
    /// failed is a failure of the database; a mailbox without a record, or
    /// with a record without a `cid`, is unavailable.
    pub fn get_uid_validity(&self, read: Result<Option<MailboxRecord>, StoreError>) -> (uid_validity:
        Result<u32, Error>)
        ensures
            uid_validity == (match read {
                Ok(Some(MailboxRecord { cid: Some(cid) })) => Ok::<u32, Error>(cid as u32),
                Ok(_) => Err::<u32, Error>(Error::MailboxUnavailable),
                Err(_) => Err::<u32, Error>(Error::DatabaseFailure),
            }),
    {
        match read {
            Ok(Some(MailboxRecord { cid: Some(cid) })) => Ok(
                #[verifier::truncate]
                (cid as u32),
            ),
            Ok(_) => Err(Error::MailboxUnavailable),
            Err(error) => Err(Error::from(error)),
        }
    }
}

} // verus!
