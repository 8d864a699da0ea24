//! What holds of the views of a mailbox whatever the calls that made them.

use vstd::prelude::*;

use crate::append::{is_last_of_message, is_last_of_uid, largest_uid, lemma_largest_uid};
use crate::mailbox::{ImapId, ImapUidToId, MailboxSnapshot};
use crate::protocol::renumbered;
use crate::resolve::named_by;
use crate::synchronize::{ascending_order, reported};

verus! {

/// The numbers of the list are in ascending order, none twice.
pub open spec fn is_ascending(numbers: Seq<u32>) -> bool {
    forall|i: int, j: int| 0 <= i < j < numbers.len() ==> numbers[i] < numbers[j]
}

/// Two lists in ascending order that hold the same numbers are one list.
pub proof fn lemma_ascending_is_unique(first: Seq<u32>, second: Seq<u32>)
    requires
        is_ascending(first),
        is_ascending(second),
        forall|number: u32| first.contains(number) <==> second.contains(number),
    ensures
        first == second,
    decreases first.len(),
{
    if first.len() == 0 {
        if second.len() > 0 {
            assert(second.contains(second[0]));
        }
    } else if second.len() == 0 {
        assert(first.contains(first[0]));
    } else {
        let last = first.last();
        let other = second.last();
        assert(first.contains(last));
        assert(second.contains(other));
        let shorter = first.drop_last();
        let rest = second.drop_last();
        assert forall|number: u32| shorter.contains(number) <==> rest.contains(number) by {
            if shorter.contains(number) {
                assert(first.contains(number));
                let j = choose|j: int| 0 <= j < second.len() && second[j] == number;
                assert(rest[j] == number);
            }
            if rest.contains(number) {
                assert(second.contains(number));
                let i = choose|i: int| 0 <= i < first.len() && first[i] == number;
                assert(shorter[i] == number);
            }
        }
        lemma_ascending_is_unique(shorter, rest);
        assert(second =~= rest.push(other));
    }
}

/// The uids that have a message are the uids that the messages carry,
/// wherever the two maps are inverses of each other.
pub proof fn lemma_inverse_maps_agree(view: MailboxSnapshot)
    requires
        view.maps_are_inverse(),
    ensures
        view.uids_agree(),
{
}

/// A view that was built from the store is fixed by its uids: two such
/// views with the same UIDVALIDITY, the same change id and the same message
/// under each uid are one view. So building a view twice from a store that
/// has not changed gives the same view twice.
pub proof fn lemma_materialized_is_determined(first: MailboxSnapshot, second: MailboxSnapshot)
    requires
        first.is_materialized(),
        second.is_materialized(),
        first.uid_validity == second.uid_validity,
        first.modseq == second.modseq,
        first.uid_to_id == second.uid_to_id,
    ensures
        first == second,
{
    let listed = choose|uids: Seq<u32>| first.listed_by(uids);
    let other = choose|uids: Seq<u32>| second.listed_by(uids);
    lemma_ascending_is_unique(listed, other);
    assert(first.uid_max == second.uid_max) by {
        if first.total_messages == 0 {
            if first.uid_to_id.contains_key(first.uid_max) {
                assert(listed.contains(first.uid_max));
            }
            if second.uid_to_id.contains_key(second.uid_max) {
                assert(listed.contains(second.uid_max));
            }
        }
    }
    assert forall|id: u32| first.id_to_imap.contains_key(id) implies second.id_to_imap.contains_key(
        id,
    ) && first.id_to_imap[id] == second.id_to_imap[id] by {
        lemma_same_message(first, second, listed, id);
    }
    assert(first.id_to_imap =~= second.id_to_imap);
}

/// A message of one of two views with the same uids, listed alike, is in the
/// other, with the same uid and the same sequence number.
proof fn lemma_same_message(
    first: MailboxSnapshot,
    second: MailboxSnapshot,
    listed: Seq<u32>,
    id: u32,
)
    requires
        first.maps_are_inverse(),
        second.maps_are_inverse(),
        first.uid_to_id == second.uid_to_id,
        first.listed_by(listed),
        second.listed_by(listed),
        first.id_to_imap.contains_key(id),
    ensures
        second.id_to_imap.contains_key(id),
        first.id_to_imap[id] == second.id_to_imap[id],
{
    let uid = first.id_to_imap[id].uid;
    assert(listed.contains(uid));
}

/// The uids of a view that are not above `uid`.
pub open spec fn uids_up_to(view: MailboxSnapshot, uid: u32) -> Set<u32> {
    view.uid_to_id.dom().filter(|other: u32| other <= uid)
}

/// In a view that was built from the store, the sequence number of a
/// message is the number of messages whose uid is not above its own. The
/// number of messages is the number of uids.
pub proof fn lemma_seqnum_counts_uids(view: MailboxSnapshot, id: u32)
    requires
        view.is_materialized(),
        view.id_to_imap.contains_key(id),
    ensures
        view.id_to_imap[id].seqnum == uids_up_to(view, view.id_to_imap[id].uid).len(),
        view.total_messages == view.uid_to_id.dom().len(),
{
    let listed = choose|uids: Seq<u32>| view.listed_by(uids);
    let uid = view.id_to_imap[id].uid;
    assert(listed.contains(uid));
    let at = choose|i: int| 0 <= i < listed.len() && listed[i] == uid;
    let first = listed.take(at + 1);
    first.unique_seq_to_set();
    assert(first.to_set() =~= uids_up_to(view, uid)) by {
        assert forall|other: u32| first.to_set().contains(other) implies uids_up_to(
            view,
            uid,
        ).contains(other) by {
            assert(listed.contains(other));
        }
        assert forall|other: u32| uids_up_to(view, uid).contains(other) implies first.to_set().contains(
            other,
        ) by {
            assert(listed.contains(other));
            let i = choose|i: int| 0 <= i < listed.len() && listed[i] == other;
            assert(first[i] == other);
        }
    }
    listed.unique_seq_to_set();
    assert(listed.to_set() =~= view.uid_to_id.dom());
}

/// What a synchronization leaves in the session's view, told by the uids
/// that were removed and added. Let `removed` be the uids that the view had
/// and the store no longer has, and `added` those that the store has and
/// the view had not. Then the view holds, until the client has been told,
/// the messages whose uid was not removed, each under the sequence number
/// it had; and the uids of the staged view are those that stayed and those
/// that were added.
pub proof fn lemma_synchronized_keeps_survivors(current: MailboxSnapshot, fresh: MailboxSnapshot)
    requires
        current.maps_are_inverse(),
    ensures
        ({
            let removed = current.uid_to_id.dom().difference(fresh.uid_to_id.dom());
            let added = fresh.uid_to_id.dom().difference(current.uid_to_id.dom());
            let survivors = current.uid_to_id.dom().difference(removed);
            let held = current.synchronized(fresh);
            &&& held.uid_to_id.dom() == survivors
            &&& forall|id: u32|
                held.id_to_imap.contains_key(id) <==> current.id_to_imap.contains_key(id)
                    && survivors.contains(current.id_to_imap[id].uid)
            &&& forall|id: u32| #[trigger]
                held.id_to_imap.contains_key(id) ==> held.id_to_imap[id] == current.id_to_imap[id]
            &&& forall|uid: u32| #[trigger]
                held.uid_to_id.contains_key(uid) ==> held.uid_to_id[uid] == current.uid_to_id[uid]
            &&& fresh.uid_to_id.dom() == survivors.union(added)
        }),
{
    let removed = current.uid_to_id.dom().difference(fresh.uid_to_id.dom());
    let added = fresh.uid_to_id.dom().difference(current.uid_to_id.dom());
    let survivors = current.uid_to_id.dom().difference(removed);
    let held = current.synchronized(fresh);
    assert forall|uid: u32| held.uid_to_id.dom().contains(uid) <==> survivors.contains(uid) by {
        if current.uid_to_id.contains_key(uid) {
            let id = current.uid_to_id[uid];
            if !fresh.uid_to_id.contains_key(uid) {
                assert(current.has_lost(fresh, id));
            }
        }
    }
}

/// A synchronization keeps the two maps inverses of each other, keeps the
/// uid 0 out, and leaves no uid above the largest. The sequence numbers are
/// no longer 1, 2, and so on once a message has left, and the largest uid
/// may be that of a message that has left: both hold again when the staged
/// view has taken the place of this one.
pub proof fn lemma_synchronized_keeps_maps_inverse(current: MailboxSnapshot, fresh: MailboxSnapshot)
    requires
        current.maps_are_inverse(),
    ensures
        current.synchronized(fresh).maps_are_inverse(),
        current.synchronized(fresh).uids_agree(),
        current.uid_next_follows() ==> current.synchronized(fresh).uid_next_follows(),
        current.uids_are_assigned() ==> current.synchronized(fresh).uids_are_assigned(),
        current.uid_max_covers() ==> current.synchronized(fresh).uid_max_covers(),
{
    let held = current.synchronized(fresh);
    lemma_inverse_maps_agree(held);
}

/// Telling removals in ascending order moves no report below 1: where the
/// sequence numbers are in ascending order and start at 1 or above, the one
/// at place `place` is reported as itself less `place`, which is above 0.
pub proof fn lemma_renumbered_is_exact(seqnums: Seq<u32>, place: int)
    requires
        is_ascending(seqnums),
        0 <= place < seqnums.len(),
        seqnums[0] >= 1,
    ensures
        renumbered(seqnums[place], place as nat) == seqnums[place] - place,
        renumbered(seqnums[place], place as nat) >= 1,
    decreases place,
{
    if place > 0 {
        lemma_renumbered_is_exact(seqnums, place - 1);
    }
}

/// In a list in ascending order that starts at 1 or above, the number at
/// place `place` is above `place`.
pub proof fn lemma_ascending_is_above_place(numbers: Seq<u32>, place: int)
    requires
        is_ascending(numbers),
        0 <= place < numbers.len(),
        numbers[0] >= 1,
    ensures
        numbers[place] > place,
    decreases place,
{
    if place > 0 {
        lemma_ascending_is_above_place(numbers, place - 1);
    }
}

/// The messages of the list are new to the view and come with new uids in
/// ascending order: no message of the list is in the view, none is in the
/// list twice, each uid is above the one before it, the first is above the
/// largest uid of the view, and the last has a uid after it.
pub open spec fn extends(view: MailboxSnapshot, ids: Seq<ImapUidToId>) -> bool {
    &&& ids.len() > 0
    &&& forall|i: int, j: int|
        0 <= i < j < ids.len() ==> (#[trigger] ids[i]).uid < (#[trigger] ids[j]).uid
    &&& forall|i: int, j: int|
        0 <= i < j < ids.len() ==> (#[trigger] ids[i]).id != (#[trigger] ids[j]).id
    &&& forall|i: int| 0 <= i < ids.len() ==> !view.id_to_imap.contains_key((#[trigger] ids[i]).id)
    &&& ids[0].uid > view.uid_max
    &&& ids.last().uid < u32::MAX
}

/// A uid that is in the list has a last entry in it.
proof fn lemma_uid_has_last_entry(ids: Seq<ImapUidToId>, uid: u32, at: int)
    requires
        0 <= at < ids.len(),
        ids[at].uid == uid,
    ensures
        exists|i: int| is_last_of_uid(ids, uid, i),
    decreases ids.len(),
{
    let last = ids.len() - 1;
    if ids[last].uid == uid {
        assert(is_last_of_uid(ids, uid, last));
    } else {
        let shorter = ids.drop_last();
        assert(shorter[at] == ids[at]);
        lemma_uid_has_last_entry(shorter, uid, at);
        let i = choose|i: int| is_last_of_uid(shorter, uid, i);
        assert forall|j: int| i < j < ids.len() implies (#[trigger] ids[j]).uid != uid by {
            if j < last {
                assert(shorter[j] == ids[j]);
            }
        }
        assert(shorter[i] == ids[i]);
        assert(is_last_of_uid(ids, uid, i));
    }
}

/// Taking in messages keeps the largest uid the largest. Where `uid_max`
/// is the largest uid of a view, it is so again once the session has added
/// the messages of a list, whatever the list holds and in whatever order;
/// it is never below what it was; and `uid_next`, where it followed
/// `uid_max`, follows it again and has not gone back.
pub proof fn lemma_appended_keeps_largest_uid(view: MailboxSnapshot, ids: Seq<ImapUidToId>)
    requires
        view.uid_max_is_largest(),
        view.accepts(ids),
    ensures
        view.appended(ids).uid_max_is_largest(),
        view.appended(ids).uid_max_covers(),
        view.appended(ids).uid_max >= view.uid_max,
        view.appended(ids).uid_max == largest_uid(view.uid_max, ids),
        view.uid_next_follows() ==> view.appended(ids).uid_next_follows() && view.appended(
            ids,
        ).uid_next >= view.uid_next,
{
    let after = view.appended(ids);
    lemma_largest_uid(view.uid_max, ids);
    if ids.len() == 0 {
        assert(after.uid_to_id =~= view.uid_to_id);
    } else {
        assert forall|uid: u32| after.uid_to_id.contains_key(uid) implies uid <= after.uid_max by {
            if exists|i: int| is_last_of_uid(ids, uid, i) {
                let i = choose|i: int| is_last_of_uid(ids, uid, i);
                assert(ids[i].uid == uid);
            }
        }
        assert(after.uid_to_id.contains_key(after.uid_max)) by {
            if exists|i: int| 0 <= i < ids.len() && (#[trigger] ids[i]).uid == after.uid_max {
                let i = choose|i: int| 0 <= i < ids.len() && (#[trigger] ids[i]).uid == after.uid_max;
                lemma_uid_has_last_entry(ids, after.uid_max, i);
            } else if !view.uid_to_id.contains_key(view.uid_max) {
                // The view was empty: the list holds the uid 0 alone.
                assert(ids[0].uid <= after.uid_max);
                lemma_uid_has_last_entry(ids, after.uid_max, 0);
            }
        }
    }
}

/// Taking in messages brings in no uid 0 and no sequence number 0. Where a
/// view has neither, and no message of a list has the uid 0, the view has
/// neither once the session has added the messages of the list.
pub proof fn lemma_appended_keeps_uids_assigned(view: MailboxSnapshot, ids: Seq<ImapUidToId>)
    requires
        view.uids_are_assigned(),
        view.accepts(ids),
        forall|id: u32| #[trigger]
            view.id_to_imap.contains_key(id) ==> view.id_to_imap[id].seqnum >= 1,
        forall|i: int| 0 <= i < ids.len() ==> (#[trigger] ids[i]).uid != 0,
    ensures
        view.appended(ids).uids_are_assigned(),
        forall|id: u32| #[trigger]
            view.appended(ids).id_to_imap.contains_key(id) ==> view.appended(
                ids,
            ).id_to_imap[id].seqnum >= 1,
{
    let after = view.appended(ids);
    if after.uid_to_id.contains_key(0) {
        if exists|i: int| is_last_of_uid(ids, 0, i) {
            let i = choose|i: int| is_last_of_uid(ids, 0, i);
            assert(ids[i].uid != 0);
        }
    }
    assert forall|id: u32| #[trigger] after.id_to_imap.contains_key(id) implies after.id_to_imap[id].uid
        != 0 && after.id_to_imap[id].seqnum >= 1 by {
        if exists|i: int| is_last_of_message(ids, id, i) {
            let i = choose|i: int| is_last_of_message(ids, id, i);
            assert(ids[i].uid != 0);
        }
    }
}

/// A view that was built from the store is still what such a view is once
/// the session has added messages to it, if the messages are new and come
/// with new uids in ascending order.
pub proof fn lemma_appended_is_materialized(view: MailboxSnapshot, ids: Seq<ImapUidToId>)
    requires
        view.is_materialized(),
        extends(view, ids),
    ensures
        view.appended(ids).is_materialized(),
{
    let after = view.appended(ids);
    lemma_largest_uid(view.uid_max, ids);
    assert(after.uid_max == ids.last().uid) by {
        if exists|i: int| 0 <= i < ids.len() && (#[trigger] ids[i]).uid == after.uid_max {
            let i = choose|i: int| 0 <= i < ids.len() && (#[trigger] ids[i]).uid == after.uid_max;
            if i < ids.len() - 1 {
                assert(ids[i].uid < ids[ids.len() - 1].uid);
            }
        } else {
            assert(ids[0].uid <= after.uid_max);
        }
    }
    let listed = choose|uids: Seq<u32>| view.listed_by(uids);
    let added = Seq::new(ids.len(), |i: int| ids[i].uid);
    let all = listed + added;
    // The uids of the view are at most its largest.
    assert forall|uid: u32| view.uid_to_id.contains_key(uid) implies uid <= view.uid_max by {
        if view.total_messages == 0 {
            assert(listed.contains(uid));
        }
    }
    // The list of all uids is in ascending order and starts at 1 or above.
    assert(is_ascending(all)) by {
        assert forall|i: int, j: int| 0 <= i < j < all.len() implies all[i] < all[j] by {
            if i < listed.len() <= j {
                assert(listed.contains(listed[i]));
            }
        }
    }
    assert(all[0] >= 1) by {
        if listed.len() > 0 {
            assert(listed.contains(listed[0]));
        }
    }
    // So the messages can be counted in 32 bits.
    lemma_ascending_is_above_place(all, all.len() - 1);

    assert(after.maps_are_inverse()) by {
        assert forall|id: u32| #[trigger]
            after.id_to_imap.contains_key(id) implies after.uid_to_id.contains_pair(
            after.id_to_imap[id].uid,
            id,
        ) by {
            if exists|i: int| is_last_of_message(ids, id, i) {
                let i = choose|i: int| is_last_of_message(ids, id, i);
                assert(is_last_of_uid(ids, ids[i].uid, i));
            }
        }
        assert forall|uid: u32| #[trigger]
            after.uid_to_id.contains_key(uid) implies after.id_to_imap.contains_key(
            after.uid_to_id[uid],
        ) && after.id_to_imap[after.uid_to_id[uid]].uid == uid by {
            if exists|i: int| is_last_of_uid(ids, uid, i) {
                let i = choose|i: int| is_last_of_uid(ids, uid, i);
                assert(is_last_of_message(ids, ids[i].id, i));
            }
        }
    }
    lemma_inverse_maps_agree(after);
    assert(after.listed_by(all)) by {
        assert forall|uid: u32| after.uid_to_id.contains_key(uid) implies all.contains(uid) by {
            if exists|i: int| is_last_of_uid(ids, uid, i) {
                let i = choose|i: int| is_last_of_uid(ids, uid, i);
                assert(all[listed.len() + i] == uid);
            } else {
                assert(listed.contains(uid));
                let at = choose|at: int| 0 <= at < listed.len() && listed[at] == uid;
                assert(all[at] == uid);
            }
        }
        assert forall|uid: u32| all.contains(uid) implies after.uid_to_id.contains_key(uid) by {
            let at = choose|at: int| 0 <= at < all.len() && all[at] == uid;
            if at < listed.len() {
                assert(listed.contains(listed[at]));
            } else {
                assert(is_last_of_uid(ids, ids[at - listed.len()].uid, at - listed.len()));
            }
        }
        assert forall|at: int| 0 <= at < all.len() implies after.id_to_imap.contains_key(
            after.uid_to_id[#[trigger] all[at]],
        ) && after.id_to_imap[after.uid_to_id[all[at]]].seqnum == at + 1 by {
            if at < listed.len() {
                let uid = listed[at];
                assert(listed.contains(uid));
            } else {
                let i = at - listed.len();
                assert(is_last_of_uid(ids, ids[i].uid, i));
                assert(is_last_of_message(ids, ids[i].id, i));
            }
        }
    }
    assert(after.uid_max_is_largest()) by {
        let last = ids.len() - 1;
        assert(is_last_of_uid(ids, ids[last].uid, last));
    }
    assert(after.uid_to_id.dom().finite()) by {
        let uids = added.to_set();
        vstd::seq_lib::seq_to_set_is_finite(added);
        assert(after.uid_to_id.dom() =~= view.uid_to_id.dom().union(uids)) by {
            assert forall|uid: u32|
                after.uid_to_id.dom().contains(uid) <==> view.uid_to_id.dom().union(uids).contains(
                    uid,
                ) by {
                if exists|i: int| is_last_of_uid(ids, uid, i) {
                    let i = choose|i: int| is_last_of_uid(ids, uid, i);
                    assert(added[i] == uid);
                }
                if uids.contains(uid) {
                    let i = choose|i: int| 0 <= i < added.len() && added[i] == uid;
                    assert(is_last_of_uid(ids, ids[i].uid, i));
                }
            }
        }
    }
    assert(after.id_to_imap.dom().finite()) by {
        let messages = Seq::new(ids.len(), |i: int| ids[i].id);
        let new = messages.to_set();
        vstd::seq_lib::seq_to_set_is_finite(messages);
        assert(after.id_to_imap.dom() =~= view.id_to_imap.dom().union(new)) by {
            assert forall|id: u32|
                after.id_to_imap.dom().contains(id) <==> view.id_to_imap.dom().union(new).contains(
                    id,
                ) by {
                if exists|i: int| is_last_of_message(ids, id, i) {
                    let i = choose|i: int| is_last_of_message(ids, id, i);
                    assert(messages[i] == id);
                }
                if new.contains(id) {
                    let i = choose|i: int| 0 <= i < messages.len() && messages[i] == id;
                    assert(is_last_of_message(ids, ids[i].id, i));
                }
            }
        }
    }
}

/// The sequence numbers that the client knows are in order: the messages
/// of the session's view and the removals that the client has not been told
/// of have sequence numbers of 1 or above, no two of them the same.
pub open spec fn seqnums_are_known(view: MailboxSnapshot, unannounced: Seq<ImapId>) -> bool {
    &&& forall|id: u32| #[trigger]
        view.id_to_imap.contains_key(id) ==> view.id_to_imap[id].seqnum >= 1
    &&& forall|k: int| 0 <= k < unannounced.len() ==> (#[trigger] unannounced[k]).seqnum >= 1
    &&& forall|first: u32, second: u32|
        #![trigger view.id_to_imap[first], view.id_to_imap[second]]
        view.id_to_imap.contains_key(first) && view.id_to_imap.contains_key(second) && first
            != second ==> view.id_to_imap[first].seqnum != view.id_to_imap[second].seqnum
    &&& forall|k: int, l: int|
        0 <= k < l < unannounced.len() ==> (#[trigger] unannounced[k]).seqnum != (
        #[trigger] unannounced[l]).seqnum
    &&& forall|id: u32, k: int|
        #![trigger view.id_to_imap[id], unannounced[k]]
        view.id_to_imap.contains_key(id) && 0 <= k < unannounced.len()
            ==> view.id_to_imap[id].seqnum != unannounced[k].seqnum
}

/// The sequence numbers of a view that was built from the store are in
/// order.
pub proof fn lemma_materialized_seqnums_are_known(view: MailboxSnapshot)
    requires
        view.is_materialized(),
    ensures
        seqnums_are_known(view, Seq::<ImapId>::empty()),
{
    let listed = choose|uids: Seq<u32>| view.listed_by(uids);
    assert forall|id: u32| #[trigger] view.id_to_imap.contains_key(id) implies exists|at: int|
        0 <= at < listed.len() && listed[at] == view.id_to_imap[id].uid && view.id_to_imap[id].seqnum
            == at + 1 by {
        let uid = view.id_to_imap[id].uid;
        assert(listed.contains(uid));
    }
}

/// A synchronization keeps the sequence numbers in order: what leaves the
/// session's view joins the removals under the number it had.
pub proof fn lemma_synchronized_seqnums_are_known(
    current: MailboxSnapshot,
    fresh: MailboxSnapshot,
    waiting: Seq<ImapId>,
    removed: Seq<ImapId>,
)
    requires
        seqnums_are_known(current, waiting),
        current.lists_lost(fresh, removed),
    ensures
        seqnums_are_known(current.synchronized(fresh), waiting + removed),
{
    let order = choose|order: Seq<u32>| current.lost_in_order(fresh, order, removed);
    assert forall|k: int| 0 <= k < removed.len() implies current.has_lost(fresh, order[k])
        && #[trigger] removed[k] == current.id_to_imap[order[k]] by {
        assert(order.contains(order[k]));
    }
}

/// Every `EXPUNGE` names a message of the mailbox as the client sees it at
/// that moment. Where the sequence numbers are in order, the removals are
/// told in ascending order, none twice, and the one at place `place` is told
/// under its sequence number less the count of those told before it, which
/// is 1 or above.
pub proof fn lemma_expunged_in_order(view: MailboxSnapshot, deletions: Seq<ImapId>, place: int)
    requires
        seqnums_are_known(view, deletions),
        0 <= place < deletions.len(),
    ensures
        reported(deletions, false).len() == deletions.len(),
        is_ascending(reported(deletions, false)),
        renumbered(reported(deletions, false)[place], place as nat) == reported(
            deletions,
            false,
        )[place] - place,
        renumbered(reported(deletions, false)[place], place as nat) >= 1,
{
    let numbers = deletions.map_values(|removed: ImapId| named_by(removed, false));
    let order = ascending_order();
    let told = reported(deletions, false);
    numbers.lemma_sort_by_ensures(order);
    numbers.to_multiset_ensures();
    told.to_multiset_ensures();
    numbers.lemma_multiset_has_no_duplicates();
    told.lemma_multiset_has_no_duplicates_conv();
    assert(is_ascending(told)) by {
        assert forall|i: int, j: int| 0 <= i < j < told.len() implies told[i] < told[j] by {
            assert(order(told[i], told[j]));
        }
    }
    assert(told[0] >= 1) by {
        assert(told.contains(told[0]));
    }
    lemma_renumbered_is_exact(told, place);
}

} // verus!
