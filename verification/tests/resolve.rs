use ahash::AHashMap;
use imap_mailbox::error::Error;
use imap_mailbox::mailbox::{
    ImapId, ImapUidToId, MailboxId, MailboxState, NextMailboxState, SelectedMailbox, SessionData,
    UidMailbox,
};
use imap_mailbox::sequence::Sequence;

const MAILBOX: u32 = 7;

/// The mailbox with the given messages, each as `(message id, uid)`.
fn selected(messages: &[(u32, u32)]) -> SelectedMailbox {
    let id = MailboxId { account_id: 1, mailbox_id: MAILBOX };
    let listed: Vec<(u32, Vec<UidMailbox>)> = messages
        .iter()
        .map(|(message, uid)| (*message, vec![UidMailbox { mailbox_id: MAILBOX, uid: *uid }]))
        .collect();
    let state = SessionData { account_id: 1 }.fetch_messages(&id, 1000, Some(10), &listed);
    SelectedMailbox { id, state, saved_search: None }
}

fn ids(entries: &[(u32, u32, u32)]) -> AHashMap<u32, ImapId> {
    entries.iter().map(|(id, uid, seqnum)| (*id, ImapId { uid: *uid, seqnum: *seqnum })).collect()
}

fn five() -> SelectedMailbox {
    selected(&[(100, 10), (101, 20), (102, 30), (103, 40), (104, 50)])
}

#[test]
fn sequence_to_ids_by_uid() {
    let mailbox = five();
    let sequence = Sequence::List {
        items: vec![Sequence::number(10), Sequence::range(Some(25), Some(40)), Sequence::number(77)],
    };
    assert_eq!(
        mailbox.sequence_to_ids(&sequence, true),
        Ok(ids(&[(100, 10, 1), (102, 30, 3), (103, 40, 4)]))
    );
}

#[test]
fn sequence_to_ids_by_sequence_number() {
    let mailbox = five();
    let sequence = Sequence::range(Some(2), Some(3));
    assert_eq!(
        mailbox.sequence_to_ids(&sequence, false),
        Ok(ids(&[(101, 20, 2), (102, 30, 3)]))
    );
    // A uid is no sequence number.
    assert_eq!(mailbox.sequence_to_ids(&Sequence::number(10), false), Ok(AHashMap::new()));
}

#[test]
fn sequence_to_ids_resolves_the_star_to_the_largest_uid() {
    let mailbox = five();
    assert_eq!(
        mailbox.sequence_to_ids(&Sequence::range(None, None), true),
        Ok(ids(&[(104, 50, 5)]))
    );
    assert_eq!(
        mailbox.sequence_to_ids(&Sequence::range(Some(35), None), true),
        Ok(ids(&[(103, 40, 4), (104, 50, 5)]))
    );
}

#[test]
fn sequence_to_ids_resolves_the_star_to_the_number_of_messages() {
    let mailbox = five();
    assert_eq!(
        mailbox.sequence_to_ids(&Sequence::range(None, None), false),
        Ok(ids(&[(104, 50, 5)]))
    );
    assert_eq!(
        mailbox.sequence_to_ids(&Sequence::range(Some(1), None), false),
        Ok(ids(&[(100, 10, 1), (101, 20, 2), (102, 30, 3), (103, 40, 4), (104, 50, 5)]))
    );
}

#[test]
fn sequence_to_ids_of_an_empty_mailbox_is_empty() {
    let mailbox = selected(&[]);
    assert_eq!(mailbox.sequence_to_ids(&Sequence::range(Some(1), None), true), Ok(AHashMap::new()));
    assert_eq!(
        mailbox.sequence_to_ids(&Sequence::range(Some(1), None), false),
        Ok(AHashMap::new())
    );
}

#[test]
fn sequence_to_ids_without_a_saved_search_fails() {
    let mailbox = five();
    assert_eq!(mailbox.sequence_to_ids(&Sequence::SavedSearch, true), Err(Error::NoSavedSearch));
    assert_eq!(mailbox.sequence_to_ids(&Sequence::SavedSearch, false), Err(Error::NoSavedSearch));
    let in_list = Sequence::List { items: vec![Sequence::number(10), Sequence::SavedSearch] };
    assert_eq!(mailbox.sequence_to_ids(&in_list, true), Err(Error::NoSavedSearch));
}

#[test]
fn sequence_to_ids_resolves_a_saved_search_by_uid() {
    let mut mailbox = five();
    // The search was saved when uid 20 had the sequence number 3; uid 25
    // has left the mailbox since.
    mailbox.saved_search = Some(vec![
        ImapId { uid: 20, seqnum: 3 },
        ImapId { uid: 25, seqnum: 4 },
        ImapId { uid: 50, seqnum: 6 },
    ]);
    // The messages come with the sequence numbers that they have now.
    assert_eq!(
        mailbox.sequence_to_ids(&Sequence::SavedSearch, true),
        Ok(ids(&[(101, 20, 2), (104, 50, 5)]))
    );
    assert_eq!(
        mailbox.sequence_to_ids(&Sequence::SavedSearch, false),
        Ok(ids(&[(101, 20, 2), (104, 50, 5)]))
    );
}

#[test]
fn sequence_to_ids_gives_the_sequence_number_of_now_for_a_saved_search() {
    let mut mailbox = selected(&[(10, 1)]);
    mailbox.saved_search = Some(vec![ImapId { uid: 1, seqnum: 2 }]);
    assert_eq!(mailbox.sequence_to_ids(&Sequence::SavedSearch, true), Ok(ids(&[(10, 1, 1)])));
}

#[test]
fn sequence_to_ids_names_a_message_once_that_a_saved_search_holds_twice() {
    let mut mailbox = five();
    mailbox.saved_search =
        Some(vec![ImapId { uid: 30, seqnum: 1 }, ImapId { uid: 30, seqnum: 2 }]);
    assert_eq!(mailbox.sequence_to_ids(&Sequence::SavedSearch, true), Ok(ids(&[(102, 30, 3)])));
    mailbox.saved_search = Some(Vec::new());
    assert_eq!(mailbox.sequence_to_ids(&Sequence::SavedSearch, true), Ok(AHashMap::new()));
}

#[test]
fn sequence_to_ids_leaves_out_a_saved_uid_whose_message_the_view_lacks() {
    let mut mailbox = five();
    // A uid that names a message of which the view knows nothing.
    mailbox.state.uid_to_id.insert(60, 999);
    mailbox.saved_search = Some(vec![ImapId { uid: 60, seqnum: 6 }, ImapId { uid: 10, seqnum: 1 }]);
    assert_eq!(mailbox.sequence_to_ids(&Sequence::SavedSearch, true), Ok(ids(&[(100, 10, 1)])));
}

#[test]
fn sequence_expand_missing_reports_the_uids_that_no_message_has() {
    let mailbox = five();
    let sequence = Sequence::List {
        items: vec![Sequence::range(Some(38), Some(42)), Sequence::number(20), Sequence::number(5)],
    };
    assert_eq!(mailbox.sequence_expand_missing(&sequence, true), vec![5, 38, 39, 41, 42]);
    assert_eq!(
        mailbox.sequence_expand_missing(&Sequence::range(Some(48), None), true),
        vec![48, 49]
    );
    assert_eq!(mailbox.sequence_expand_missing(&Sequence::number(30), true), Vec::<u32>::new());
}

#[test]
fn sequence_expand_missing_reports_the_sequence_numbers_above_the_count() {
    let mailbox = five();
    let sequence = Sequence::List {
        items: vec![Sequence::range(Some(4), Some(7)), Sequence::number(9), Sequence::number(7)],
    };
    assert_eq!(mailbox.sequence_expand_missing(&sequence, false), vec![6, 7, 9]);
    assert_eq!(
        mailbox.sequence_expand_missing(&Sequence::range(Some(1), None), false),
        Vec::<u32>::new()
    );
}

#[test]
fn sequence_expand_missing_reports_the_saved_entries_that_have_left() {
    let mut mailbox = five();
    mailbox.saved_search = Some(vec![
        ImapId { uid: 45, seqnum: 9 },
        ImapId { uid: 20, seqnum: 2 },
        ImapId { uid: 15, seqnum: 4 },
        ImapId { uid: 45, seqnum: 9 },
    ]);
    assert_eq!(mailbox.sequence_expand_missing(&Sequence::SavedSearch, true), vec![15, 45]);
    assert_eq!(mailbox.sequence_expand_missing(&Sequence::SavedSearch, false), vec![4, 9]);
}

#[test]
fn sequence_expand_missing_without_a_saved_search_is_empty() {
    let mailbox = five();
    assert_eq!(mailbox.sequence_expand_missing(&Sequence::SavedSearch, true), Vec::<u32>::new());
}

#[test]
fn append_messages_adds_behind_the_last_message() {
    let mut mailbox = selected(&[(100, 1), (101, 2)]);
    let appended =
        vec![ImapUidToId { uid: 3, id: 205 }, ImapUidToId { uid: 4, id: 203 }];
    assert_eq!(mailbox.append_messages(appended, Some(11)), 1000);
    let state = &mailbox.state;
    assert_eq!(state.total_messages, 4);
    assert_eq!(state.uid_max, 4);
    assert_eq!(state.uid_next, 5);
    assert_eq!(state.modseq, Some(10));
    assert_eq!(
        state.id_to_imap,
        ids(&[(100, 1, 1), (101, 2, 2), (205, 3, 3), (203, 4, 4)])
    );
    let uids: AHashMap<u32, u32> = [(1, 100), (2, 101), (3, 205), (4, 203)].into_iter().collect();
    assert_eq!(state.uid_to_id, uids);
    assert!(state.next_state.is_none());
}

#[test]
fn append_messages_needs_a_later_change_id() {
    let mut mailbox = selected(&[(100, 1), (101, 2)]);
    let before = selected(&[(100, 1), (101, 2)]);
    assert_eq!(mailbox.append_messages(vec![ImapUidToId { uid: 3, id: 205 }], Some(10)), 1000);
    assert_eq!(mailbox, before);
    assert_eq!(mailbox.append_messages(vec![ImapUidToId { uid: 3, id: 205 }], Some(9)), 1000);
    assert_eq!(mailbox, before);
    assert_eq!(mailbox.append_messages(vec![ImapUidToId { uid: 3, id: 205 }], None), 1000);
    assert_eq!(mailbox, before);
}

#[test]
fn append_messages_counts_no_change_id_as_zero() {
    let mut mailbox = selected(&[]);
    mailbox.state.modseq = None;
    assert_eq!(mailbox.append_messages(vec![ImapUidToId { uid: 1, id: 9 }], Some(1)), 1000);
    assert_eq!(mailbox.state.total_messages, 1);
    assert_eq!(mailbox.state.id_to_imap, ids(&[(9, 1, 1)]));
    assert_eq!(mailbox.state.uid_max, 1);
    assert_eq!(mailbox.state.uid_next, 2);
}

#[test]
fn append_messages_takes_the_largest_uid_whatever_the_order() {
    let mut mailbox = selected(&[(100, 1)]);
    let appended = vec![ImapUidToId { uid: 9, id: 200 }, ImapUidToId { uid: 6, id: 201 }];
    mailbox.append_messages(appended, Some(11));
    assert_eq!(mailbox.state.uid_max, 9);
    assert_eq!(mailbox.state.uid_next, 10);
    assert_eq!(mailbox.state.id_to_imap, ids(&[(100, 1, 1), (200, 9, 2), (201, 6, 3)]));
}

#[test]
fn append_messages_never_lowers_the_largest_uid() {
    let mut mailbox = selected(&[(100, 40)]);
    mailbox.append_messages(vec![ImapUidToId { uid: 7, id: 200 }], Some(11));
    assert_eq!(mailbox.state.uid_max, 40);
    assert_eq!(mailbox.state.uid_next, 41);
    assert_eq!(mailbox.state.total_messages, 2);
    assert_eq!(mailbox.state.id_to_imap, ids(&[(100, 40, 1), (200, 7, 2)]));
}

#[test]
fn append_messages_of_an_empty_list_changes_nothing() {
    let mut mailbox = selected(&[(10, 1), (11, 2), (12, 3)]);
    mailbox.state.uid_validity = 7;
    mailbox.state.modseq = Some(5);
    assert_eq!(mailbox.append_messages(Vec::new(), Some(6)), 7);
    let state = &mailbox.state;
    assert_eq!(state.uid_max, 3);
    assert_eq!(state.uid_next, 4);
    assert_eq!(state.total_messages, 3);
    assert_eq!(state.modseq, Some(5));
    assert_eq!(state.id_to_imap, ids(&[(10, 1, 1), (11, 2, 2), (12, 3, 3)]));
    let uids: AHashMap<u32, u32> = [(1, 10), (2, 11), (3, 12)].into_iter().collect();
    assert_eq!(state.uid_to_id, uids);
    assert!(state.next_state.is_none());
}

#[test]
fn append_messages_to_an_empty_mailbox_starts_at_one() {
    let mut mailbox = selected(&[]);
    mailbox.append_messages(
        vec![ImapUidToId { uid: 1, id: 50 }, ImapUidToId { uid: 2, id: 51 }],
        Some(11),
    );
    assert_eq!(mailbox.state.uid_max, 2);
    assert_eq!(mailbox.state.uid_next, 3);
    assert_eq!(mailbox.state.id_to_imap, ids(&[(50, 1, 1), (51, 2, 2)]));
}

#[test]
fn append_messages_leaves_what_is_staged() {
    let mut mailbox = selected(&[(100, 1)]);
    let staged = selected(&[(100, 1), (101, 2)]).state;
    let again = selected(&[(100, 1), (101, 2)]).state;
    mailbox.state.next_state = Some(Box::new(NextMailboxState {
        next_state: staged,
        deletions: vec![ImapId { uid: 8, seqnum: 2 }],
    }));
    mailbox.append_messages(vec![ImapUidToId { uid: 3, id: 300 }], Some(11));
    assert_eq!(mailbox.state.total_messages, 2);
    let next = mailbox.state.next_state.as_ref().unwrap();
    assert_eq!(next.next_state, again);
    assert_eq!(next.deletions, vec![ImapId { uid: 8, seqnum: 2 }]);
}

#[test]
fn a_view_can_be_copied() {
    let state: MailboxState = five().state;
    let copy = state.duplicate();
    assert_eq!(copy, state);
}

#[test]
fn can_append_needs_a_uid_after_the_largest() {
    let mailbox = five();
    assert!(mailbox.can_append(&Vec::new(), Some(11)));
    assert!(mailbox.can_append(&vec![ImapUidToId { uid: u32::MAX - 1, id: 1 }], Some(11)));
    assert!(!mailbox.can_append(&vec![ImapUidToId { uid: u32::MAX, id: 1 }], Some(11)));
    assert!(!mailbox.can_append(
        &vec![ImapUidToId { uid: u32::MAX, id: 1 }, ImapUidToId { uid: 60, id: 2 }],
        Some(11)
    ));
    let mut full = five();
    full.state.uid_max = u32::MAX;
    assert!(!full.can_append(&vec![ImapUidToId { uid: 60, id: 1 }], Some(11)));
    assert!(full.can_append(&Vec::new(), Some(11)));
}

#[test]
fn can_append_needs_room_to_count_in_32_bits() {
    let mut mailbox = five();
    mailbox.state.total_messages = u32::MAX as usize - 1;
    assert!(mailbox.can_append(&vec![ImapUidToId { uid: 60, id: 1 }], Some(11)));
    assert!(!mailbox.can_append(
        &vec![ImapUidToId { uid: 60, id: 1 }, ImapUidToId { uid: 61, id: 2 }],
        Some(11)
    ));
}

#[test]
fn can_append_asks_nothing_where_nothing_is_taken_in() {
    let mut mailbox = five();
    mailbox.state.total_messages = u32::MAX as usize;
    let list = vec![ImapUidToId { uid: u32::MAX, id: 1 }];
    assert!(mailbox.can_append(&list, Some(10)));
    assert!(mailbox.can_append(&list, None));
    assert!(!mailbox.can_append(&list, Some(11)));
    let before = mailbox.state.duplicate();
    assert_eq!(mailbox.append_messages(list, Some(10)), 1000);
    assert_eq!(mailbox.state, before);
}

#[test]
fn a_copy_into_the_selected_mailbox_is_refused() {
    let mailbox = five();
    let inbox = MailboxId { account_id: 1, mailbox_id: MAILBOX };
    assert_eq!(mailbox.copy_destination(Some(inbox)), Err(Error::CannotCopyToSelf));
    assert!(Error::CannotCopyToSelf.response().starts_with("NO [CANNOT]"));
}

#[test]
fn a_copy_into_a_mailbox_that_does_not_exist_is_refused() {
    let mailbox = five();
    assert_eq!(mailbox.copy_destination(None), Err(Error::TryCreate));
    assert!(Error::TryCreate.response().starts_with("NO [TRYCREATE]"));
}

#[test]
fn a_copy_into_another_mailbox_is_let_through() {
    let mailbox = five();
    let other = MailboxId { account_id: 1, mailbox_id: MAILBOX + 1 };
    assert_eq!(mailbox.copy_destination(Some(other)), Ok(other));
    // The same number in another account is another mailbox.
    let shared = MailboxId { account_id: 2, mailbox_id: MAILBOX };
    assert_eq!(mailbox.copy_destination(Some(shared)), Ok(shared));
}

#[test]
fn a_view_stays_in_order_when_new_messages_are_appended() {
    let mut mailbox = selected(&[(100, 3), (101, 8)]);
    let appended = vec![
        ImapUidToId { uid: 9, id: 7 },
        ImapUidToId { uid: 12, id: 5 },
        ImapUidToId { uid: 13, id: 6 },
    ];
    mailbox.append_messages(appended, Some(11));
    let state = &mailbox.state;
    // The uids that have a message are those that the messages carry.
    let mut uids: Vec<u32> = state.uid_to_id.keys().copied().collect();
    uids.sort_unstable();
    assert_eq!(uids, vec![3, 8, 9, 12, 13]);
    for (id, imap) in state.id_to_imap.iter() {
        assert_eq!(state.uid_to_id.get(&imap.uid), Some(id));
    }
    // The sequence number of a message counts the uids up to its own.
    assert_eq!(state.total_messages, uids.len());
    for (place, uid) in uids.iter().enumerate() {
        assert_eq!(state.id_to_imap[&state.uid_to_id[uid]].seqnum as usize, place + 1);
    }
    assert_eq!(state.uid_max, 13);
    assert_eq!(state.uid_next, 14);
}
