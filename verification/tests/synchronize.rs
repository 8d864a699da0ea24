use ahash::AHashMap;
use imap_mailbox::cache::MailboxCache;
use imap_mailbox::mailbox::{
    ImapId, MailboxId, MailboxState, NextMailboxState, SelectedMailbox, SessionData, UidMailbox,
};
use imap_mailbox::synchronize::SyncStep;

const MAILBOX: u32 = 7;

fn session() -> SessionData {
    SessionData { account_id: 1 }
}

fn mailbox_id() -> MailboxId {
    MailboxId { account_id: 1, mailbox_id: MAILBOX }
}

/// The view of the mailbox with the given messages, each as
/// `(message id, uid)`.
fn view(messages: &[(u32, u32)], modseq: u64) -> MailboxState {
    let listed: Vec<(u32, Vec<UidMailbox>)> = messages
        .iter()
        .map(|(message, uid)| (*message, vec![UidMailbox { mailbox_id: MAILBOX, uid: *uid }]))
        .collect();
    session().fetch_messages(&mailbox_id(), 1000, Some(modseq), &listed)
}

fn selected(messages: &[(u32, u32)], modseq: u64) -> SelectedMailbox {
    SelectedMailbox { id: mailbox_id(), state: view(messages, modseq), saved_search: None }
}

fn ids(entries: &[(u32, u32, u32)]) -> AHashMap<u32, ImapId> {
    entries.iter().map(|(id, uid, seqnum)| (*id, ImapId { uid: *uid, seqnum: *seqnum })).collect()
}

fn uids(entries: &[(u32, u32)]) -> AHashMap<u32, u32> {
    entries.iter().copied().collect()
}

fn sorted(mut deletions: Vec<ImapId>) -> Vec<ImapId> {
    deletions.sort_by_key(|removed| removed.uid);
    deletions
}

#[test]
fn synchronize_messages_does_nothing_while_the_store_is_unchanged() {
    let mut cache = MailboxCache::with_capacity(4);
    let mut mailbox = selected(&[(100, 1), (101, 2)], 5);
    let step = session().synchronize_messages(&mut cache, &mut mailbox, Some(5), None);
    assert_eq!(step, SyncStep::Done(Some(5)));
    assert_eq!(mailbox, selected(&[(100, 1), (101, 2)], 5));
    assert_eq!(cache.len(), 0);
    // A view that is handed in all the same is not looked at.
    let step = session().synchronize_messages(
        &mut cache,
        &mut mailbox,
        Some(5),
        Some(view(&[(100, 1)], 6)),
    );
    assert_eq!(step, SyncStep::Done(Some(5)));
    assert_eq!(mailbox, selected(&[(100, 1), (101, 2)], 5));
    assert!(mailbox.state.next_state.is_none());
    assert_eq!(cache.len(), 0);
}

#[test]
fn synchronize_messages_asks_for_the_view_once_the_store_has_changed() {
    let mut cache = MailboxCache::with_capacity(4);
    let mut mailbox = selected(&[(100, 1), (101, 2)], 5);
    let step = session().synchronize_messages(&mut cache, &mut mailbox, Some(6), None);
    assert_eq!(step, SyncStep::Fetch);
    assert_eq!(mailbox, selected(&[(100, 1), (101, 2)], 5));
    assert_eq!(cache.len(), 0);
}

#[test]
fn synchronize_messages_stages_the_new_view_and_keeps_the_old_sequence_numbers() {
    let mut cache = MailboxCache::with_capacity(4);
    let mut mailbox = selected(&[(100, 1), (101, 2), (102, 3), (103, 4)], 5);
    // Another session has removed the uids 1 and 3 and added the uid 5.
    let fresh = view(&[(101, 2), (103, 4), (104, 5)], 8);
    let step = session().synchronize_messages(&mut cache, &mut mailbox, Some(8), Some(fresh));
    assert_eq!(step, SyncStep::Done(Some(8)));

    // The session's view holds the messages that stay, numbered as before.
    let state = &mailbox.state;
    assert_eq!(state.id_to_imap, ids(&[(101, 2, 2), (103, 4, 4)]));
    assert_eq!(state.uid_to_id, uids(&[(2, 101), (4, 103)]));
    assert_eq!(state.modseq, Some(8));
    assert_eq!(state.total_messages, 4);
    assert_eq!(state.uid_max, 4);
    assert_eq!(state.uid_next, 5);
    assert_eq!(state.uid_validity, 1000);

    // The new view is staged, with the removals.
    let next = state.next_state.as_ref().unwrap();
    assert_eq!(next.next_state, view(&[(101, 2), (103, 4), (104, 5)], 8));
    assert_eq!(next.next_state.id_to_imap, ids(&[(101, 2, 1), (103, 4, 2), (104, 5, 3)]));
    assert_eq!(
        sorted(next.deletions.clone()),
        vec![ImapId { uid: 1, seqnum: 1 }, ImapId { uid: 3, seqnum: 3 }]
    );
}

#[test]
fn synchronize_messages_keeps_the_removals_that_were_not_told_yet() {
    let mut cache = MailboxCache::with_capacity(4);
    let mut mailbox = selected(&[(100, 1), (101, 2), (102, 3)], 5);
    let step = session().synchronize_messages(
        &mut cache,
        &mut mailbox,
        Some(6),
        Some(view(&[(100, 1), (102, 3)], 6)),
    );
    assert_eq!(step, SyncStep::Done(Some(6)));
    let step = session().synchronize_messages(
        &mut cache,
        &mut mailbox,
        Some(7),
        Some(view(&[(102, 3), (103, 4)], 7)),
    );
    assert_eq!(step, SyncStep::Done(Some(7)));
    let state = &mailbox.state;
    assert_eq!(state.id_to_imap, ids(&[(102, 3, 3)]));
    assert_eq!(state.uid_to_id, uids(&[(3, 102)]));
    assert_eq!(state.modseq, Some(7));
    let next = state.next_state.as_ref().unwrap();
    assert_eq!(next.next_state, view(&[(102, 3), (103, 4)], 7));
    assert_eq!(
        next.deletions,
        vec![ImapId { uid: 2, seqnum: 2 }, ImapId { uid: 1, seqnum: 1 }]
    );
}

#[test]
fn synchronize_messages_takes_the_change_id_of_the_new_view() {
    let mut cache = MailboxCache::with_capacity(4);
    let mut mailbox = selected(&[(100, 1)], 5);
    // The view was built after a further write.
    let step = session().synchronize_messages(
        &mut cache,
        &mut mailbox,
        Some(6),
        Some(view(&[(100, 1)], 7)),
    );
    assert_eq!(step, SyncStep::Done(Some(6)));
    assert_eq!(mailbox.state.modseq, Some(7));
}

#[test]
fn synchronize_messages_puts_the_new_view_into_the_cache() {
    let mut cache = MailboxCache::with_capacity(4);
    let mut mailbox = selected(&[(100, 1)], 5);
    session().synchronize_messages(
        &mut cache,
        &mut mailbox,
        Some(6),
        Some(view(&[(100, 1), (101, 2)], 6)),
    );
    assert_eq!(cache.len(), 1);
    assert_eq!(cache.get(mailbox_id()), Some(view(&[(100, 1), (101, 2)], 6)));
    assert_eq!(cache.get(MailboxId { account_id: 1, mailbox_id: 8 }), None);
}

#[test]
fn a_removed_message_stays_under_its_sequence_number_until_the_client_is_told() {
    let mut cache = MailboxCache::with_capacity(4);
    let mut mailbox = selected(&[(100, 1), (101, 2), (102, 3), (103, 4)], 5);
    // Another session removes the uid 3.
    session().synchronize_messages(
        &mut cache,
        &mut mailbox,
        Some(6),
        Some(view(&[(100, 1), (101, 2), (103, 4)], 6)),
    );
    // The message behind it is still the fourth.
    assert_eq!(mailbox.state.id_to_imap.get(&103), Some(&ImapId { uid: 4, seqnum: 4 }));
    assert_eq!(mailbox.state.id_to_imap.get(&102), None);
    let buf = session().write_mailbox_changes(&mut mailbox, false);
    assert_eq!(buf, b"* 3 EXPUNGE\r\n* 3 EXISTS\r\n".to_vec());
    assert_eq!(mailbox.state.id_to_imap.get(&103), Some(&ImapId { uid: 4, seqnum: 3 }));
    assert_eq!(mailbox.state, view(&[(100, 1), (101, 2), (103, 4)], 6));
}

#[test]
fn write_mailbox_changes_without_anything_staged_writes_nothing() {
    let mut mailbox = selected(&[(100, 1), (101, 2)], 5);
    let buf = session().write_mailbox_changes(&mut mailbox, false);
    assert!(buf.is_empty());
    assert_eq!(mailbox, selected(&[(100, 1), (101, 2)], 5));
}

#[test]
fn write_mailbox_changes_puts_the_staged_view_in_place() {
    let mut cache = MailboxCache::with_capacity(4);
    let mut mailbox = selected(&[(100, 1), (101, 2)], 5);
    session().synchronize_messages(
        &mut cache,
        &mut mailbox,
        Some(9),
        Some(view(&[(101, 2), (105, 7)], 9)),
    );
    session().write_mailbox_changes(&mut mailbox, false);
    assert_eq!(mailbox.state, view(&[(101, 2), (105, 7)], 9));
    assert!(mailbox.state.next_state.is_none());
    assert_eq!(mailbox.id, mailbox_id());
}

#[test]
fn moving_all_messages_away_expunges_the_first_message_four_times() {
    let mut cache = MailboxCache::with_capacity(4);
    let mut mailbox = selected(&[(100, 1), (101, 2), (102, 3), (103, 4)], 5);
    session().synchronize_messages(&mut cache, &mut mailbox, Some(6), Some(view(&[], 6)));
    let buf = session().write_mailbox_changes(&mut mailbox, false);
    assert_eq!(
        buf,
        b"* 1 EXPUNGE\r\n* 1 EXPUNGE\r\n* 1 EXPUNGE\r\n* 1 EXPUNGE\r\n* 0 EXISTS\r\n".to_vec()
    );
    assert_eq!(mailbox.state.total_messages, 0);
    assert_eq!(mailbox.state.uid_next, 1);
}

#[test]
fn write_mailbox_changes_lowers_each_sequence_number_by_the_removals_before_it() {
    let mut cache = MailboxCache::with_capacity(4);
    let all: Vec<(u32, u32)> = (1..=9).map(|uid| (100 + uid, uid)).collect();
    let mut mailbox = selected(&all, 5);
    // The third, the fifth and the ninth message leave.
    let rest: Vec<(u32, u32)> =
        all.iter().copied().filter(|(_, uid)| ![3, 5, 9].contains(uid)).collect();
    session().synchronize_messages(&mut cache, &mut mailbox, Some(6), Some(view(&rest, 6)));
    let buf = session().write_mailbox_changes(&mut mailbox, false);
    assert_eq!(buf, b"* 3 EXPUNGE\r\n* 4 EXPUNGE\r\n* 7 EXPUNGE\r\n* 6 EXISTS\r\n".to_vec());
}

#[test]
fn write_mailbox_changes_tells_a_qresync_client_the_uids() {
    let mut cache = MailboxCache::with_capacity(4);
    let mut mailbox =
        selected(&[(100, 11), (101, 12), (102, 13), (103, 14), (104, 20), (105, 30)], 5);
    session().synchronize_messages(&mut cache, &mut mailbox, Some(6), Some(view(&[(103, 14)], 6)));
    let buf = session().write_mailbox_changes(&mut mailbox, true);
    assert_eq!(buf, b"* VANISHED 11:13,20,30\r\n* 1 EXISTS\r\n".to_vec());
}

#[test]
fn write_mailbox_changes_tells_of_new_messages_alone() {
    let mut cache = MailboxCache::with_capacity(4);
    let mut mailbox = selected(&[(100, 1)], 5);
    session().synchronize_messages(
        &mut cache,
        &mut mailbox,
        Some(6),
        Some(view(&[(100, 1), (101, 2), (102, 3)], 6)),
    );
    let buf = session().write_mailbox_changes(&mut mailbox, false);
    assert_eq!(buf, b"* 3 EXISTS\r\n".to_vec());
    assert_eq!(mailbox.state.total_messages, 3);
}

#[test]
fn write_mailbox_changes_is_silent_where_nothing_left_and_nothing_came() {
    let mut cache = MailboxCache::with_capacity(4);
    let mut mailbox = selected(&[(100, 1), (101, 2)], 5);
    // Only flags have changed.
    session().synchronize_messages(
        &mut cache,
        &mut mailbox,
        Some(6),
        Some(view(&[(100, 1), (101, 2)], 6)),
    );
    let buf = session().write_mailbox_changes(&mut mailbox, false);
    assert!(buf.is_empty());
    assert_eq!(mailbox.state, view(&[(100, 1), (101, 2)], 6));
}

#[test]
fn write_mailbox_changes_tells_the_removals_in_ascending_order() {
    let mut mailbox = selected(&[(100, 1)], 5);
    mailbox.state.next_state = Some(Box::new(NextMailboxState {
        next_state: view(&[(100, 1)], 6),
        deletions: vec![
            ImapId { uid: 9, seqnum: 4 },
            ImapId { uid: 2, seqnum: 6 },
            ImapId { uid: 5, seqnum: 2 },
        ],
    }));
    let buf = session().write_mailbox_changes(&mut mailbox, false);
    assert_eq!(buf, b"* 2 EXPUNGE\r\n* 3 EXPUNGE\r\n* 4 EXPUNGE\r\n* 1 EXISTS\r\n".to_vec());

    let mut mailbox = selected(&[(100, 1)], 5);
    mailbox.state.next_state = Some(Box::new(NextMailboxState {
        next_state: view(&[(100, 1)], 6),
        deletions: vec![
            ImapId { uid: 9, seqnum: 4 },
            ImapId { uid: 2, seqnum: 6 },
            ImapId { uid: 5, seqnum: 2 },
        ],
    }));
    let buf = session().write_mailbox_changes(&mut mailbox, true);
    assert_eq!(buf, b"* VANISHED 2,5,9\r\n* 1 EXISTS\r\n".to_vec());
}

#[test]
fn the_session_sees_what_the_store_holds_once_the_client_was_told() {
    let mut cache = MailboxCache::with_capacity(4);
    let mut mailbox = selected(&[(100, 1), (101, 2), (102, 3)], 5);
    let step = session().synchronize_messages(&mut cache, &mut mailbox, Some(6), None);
    assert_eq!(step, SyncStep::Fetch);
    let step = session().synchronize_messages(
        &mut cache,
        &mut mailbox,
        Some(6),
        Some(view(&[(100, 1), (102, 3), (103, 4)], 6)),
    );
    assert_eq!(step, SyncStep::Done(Some(6)));
    let buf = session().write_mailbox_changes(&mut mailbox, false);
    assert_eq!(buf, b"* 2 EXPUNGE\r\n* 3 EXISTS\r\n".to_vec());
    assert_eq!(mailbox.state, view(&[(100, 1), (102, 3), (103, 4)], 6));
    // Nothing is told twice.
    let step = session().synchronize_messages(&mut cache, &mut mailbox, Some(6), None);
    assert_eq!(step, SyncStep::Done(Some(6)));
    assert!(session().write_mailbox_changes(&mut mailbox, false).is_empty());
}

#[test]
fn removals_of_two_synchronizations_are_told_together() {
    let mut cache = MailboxCache::with_capacity(4);
    let mut mailbox = selected(&[(100, 1), (101, 2), (102, 3), (103, 4)], 5);
    session().synchronize_messages(
        &mut cache,
        &mut mailbox,
        Some(6),
        Some(view(&[(100, 1), (101, 2), (102, 3)], 6)),
    );
    session().synchronize_messages(
        &mut cache,
        &mut mailbox,
        Some(7),
        Some(view(&[(101, 2), (102, 3), (104, 5)], 7)),
    );
    let buf = session().write_mailbox_changes(&mut mailbox, false);
    assert_eq!(buf, b"* 1 EXPUNGE\r\n* 3 EXPUNGE\r\n* 3 EXISTS\r\n".to_vec());
    assert_eq!(mailbox.state, view(&[(101, 2), (102, 3), (104, 5)], 7));
}
