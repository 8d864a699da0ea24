//! Resolving what a command names against the mailbox that the session has
//! selected: the messages that a sequence set names, and the numbers that
//! it names in vain.

use ahash::AHashMap;
use std::collections::BTreeSet;
use vstd::prelude::*;

use crate::collections::{
    id_map_contains_key, id_map_get, imap_entries, imap_map_get, imap_map_insert, imap_map_new,
    imap_map_to_vec, imap_map_with_capacity,
};
use crate::error::Error;
use crate::mailbox::{ImapId, MailboxSnapshot, SelectedMailbox};
use crate::sequence::{add_number, ascending, Sequence};

verus! {

/// The number by which a command names a message: its uid or its sequence
/// number.
pub open spec fn named_by(imap_id: ImapId, is_uid: bool) -> u32 {
    if is_uid {
        imap_id.uid
    } else {
        imap_id.seqnum
    }
}

impl MailboxSnapshot {
    /// What `*` stands for: the largest uid, or the number of messages.
    pub open spec fn largest(self, is_uid: bool) -> u32 {
        if is_uid {
            self.uid_max
        } else {
            self.total_messages as u32
        }
    }

    /// The messages of the view that a sequence set names, each with its
    /// IMAP id.
    pub open spec fn named(self, sequence: Sequence, is_uid: bool) -> Map<u32, ImapId> {
        Map::new(
            |id: u32|
                self.id_to_imap.contains_key(id) && sequence.includes(
                    named_by(self.id_to_imap[id], is_uid),
                    self.largest(is_uid),
                ),
            |id: u32| self.id_to_imap[id],
        )
    }

    /// The messages that the uids of a saved search name in the view, each
    /// with the IMAP id that it has in the view now. What the search saved
    /// is used for its uids alone, so that a sequence number that has moved
    /// since is not handed out.
    pub open spec fn saved(self, saved: Seq<ImapId>) -> Map<u32, ImapId> {
        Map::new(
            |id: u32|
                self.id_to_imap.contains_key(id) && exists|i: int|
                    0 <= i < saved.len() && self.uid_to_id.contains_pair(
                        (#[trigger] saved[i]).uid,
                        id,
                    ),
            |id: u32| self.id_to_imap[id],
        )
    }

    /// Whether `number` is named by the sequence set and absent from the
    /// view. A uid is absent if no message has it, a sequence number if it
    /// lies above the number of messages. Of a saved search, the entries
    /// whose uid no message has are absent.
    pub open spec fn misses(
        self,
        saved: Option<Seq<ImapId>>,
        sequence: Sequence,
        is_uid: bool,
        number: u32,
    ) -> bool {
        if !sequence.names_saved_search() {
            sequence.includes(number, self.largest(is_uid)) && if is_uid {
                !self.uid_to_id.contains_key(number)
            } else {
                number > self.largest(false)
            }
        } else {
            match saved {
                Some(entries) => exists|i: int|
                    0 <= i < entries.len() && !self.uid_to_id.contains_key(
                        (#[trigger] entries[i]).uid,
                    ) && named_by(entries[i], is_uid) == number,
                None => false,
            }
        }
    }
}

impl SelectedMailbox {
    /// The entries of the saved search, if a search was saved.
    pub open spec fn search(self) -> Option<Seq<ImapId>> {
        match self.saved_search {
            Some(saved) => Some(saved@),
            None => None,
        }
    }

    /// The messages that a sequence set names, by uid or by sequence number,
    /// each with its IMAP id. `*` stands for the largest uid, or for the
    /// number of messages.
    ///
    /// A set that names the saved search is resolved through the uids that
    /// the search saved: each of them that still names a message gives that
    /// message, with the sequence number that it has now. Without a saved
    /// search such a set fails.
    pub fn sequence_to_ids(&self, sequence: &Sequence, is_uid: bool) -> (result: Result<
        AHashMap<u32, ImapId>,
        Error,
    >)
        ensures
            result is Err <==> sequence.names_saved_search() && self.saved_search is None,
            result matches Err(error) ==> error == Error::NoSavedSearch,
            result matches Ok(ids) ==> imap_entries(ids) == (if sequence.names_saved_search() {
                self.state.snapshot().saved(self.saved_search->0@)
            } else {
                self.state.snapshot().named(*sequence, is_uid)
            }),
    {
        let ghost view = self.state.snapshot();
        if !sequence.is_saved_search() {
            let mut ids = imap_map_new();
            let max_value = if is_uid {
                self.state.uid_max
            } else {
                #[verifier::truncate]
                (self.state.total_messages as u32)
            };
            let entries = imap_map_to_vec(&self.state.id_to_imap);
            let mut i: usize = 0;
            while i < entries.len()
                invariant
                    i <= entries.len(),
                    view == self.state.snapshot(),
                    max_value == view.largest(is_uid),
                    forall|a: int, b: int|
                        0 <= a < b < entries@.len() ==> (#[trigger] entries@[a]).0 != (
                        #[trigger] entries@[b]).0,
                    forall|a: int|
                        0 <= a < entries@.len() ==> view.id_to_imap.contains_pair(
                            (#[trigger] entries@[a]).0,
                            entries@[a].1,
                        ),
                    forall|id: u32| #[trigger]
                        imap_entries(ids).contains_key(id) ==> view.named(
                            *sequence,
                            is_uid,
                        ).contains_pair(id, imap_entries(ids)[id]),
                    forall|a: int|
                        0 <= a < i && view.named(*sequence, is_uid).contains_key(
                            (#[trigger] entries@[a]).0,
                        ) ==> imap_entries(ids).contains_key(entries@[a].0),
                decreases entries.len() - i,
            {
                let id = entries[i].0;
                let imap_id = entries[i].1;
                let number = if is_uid {
                    imap_id.uid
                } else {
                    imap_id.seqnum
                };
                if sequence.contains(number, max_value) {
                    imap_map_insert(&mut ids, id, imap_id);
                }
                i += 1;
            }
            Ok(ids)
        } else {
            match &self.saved_search {
                None => Err(Error::NoSavedSearch),
                Some(saved) => {
                    let mut ids = imap_map_with_capacity(saved.len());
                    let mut i: usize = 0;
                    while i < saved.len()
                        invariant
                            i <= saved.len(),
                            view == self.state.snapshot(),
                            forall|id: u32| #[trigger]
                                imap_entries(ids).contains_key(id) ==> view.saved(
                                    saved@,
                                ).contains_pair(id, imap_entries(ids)[id]),
                            forall|a: int, id: u32|
                                0 <= a < i && #[trigger] view.uid_to_id.contains_pair(
                                    saved@[a].uid,
                                    id,
                                ) && view.id_to_imap.contains_key(id) ==> imap_entries(
                                    ids,
                                ).contains_key(id),
                        decreases saved.len() - i,
                    {
                        if let Some(id) = id_map_get(&self.state.uid_to_id, saved[i].uid) {
                            // The message is handed out as the view has it
                            // now, not as the search saw it.
                            if let Some(imap_id) = imap_map_get(&self.state.id_to_imap, id) {
                                imap_map_insert(&mut ids, id, imap_id);
                                assert(view.uid_to_id.contains_pair(saved@[i as int].uid, id));
                            }
                        }
                        i += 1;
                    }
                    proof {
                        let target = view.saved(saved@);
                        assert forall|id: u32| target.contains_key(id) implies imap_entries(
                            ids,
                        ).contains_key(id) by {
                            let at = choose|a: int|
                                0 <= a < saved@.len() && view.uid_to_id.contains_pair(
                                    (#[trigger] saved@[a]).uid,
                                    id,
                                );
                            assert(view.uid_to_id.contains_pair(saved@[at].uid, id));
                        }
                        assert(imap_entries(ids) =~= target);
                    }
                    Ok(ids)
                },
            }
        }
    }

    /// The numbers that a sequence set names and the mailbox does not have,
    /// each once, in ascending order. A uid is missing if no message has it,
    /// a sequence number if it lies above the number of messages. For a set
    /// that names the saved search, the entries of the search whose uid no
    /// message has are reported, by uid or by sequence number; if no search
    /// was saved, nothing is.
    pub fn sequence_expand_missing(&self, sequence: &Sequence, is_uid: bool) -> (missing: Vec<u32>)
        ensures
            forall|i: int, j: int| 0 <= i < j < missing@.len() ==> missing@[i] < missing@[j],
            forall|number: u32|
                missing@.contains(number) <==> self.state.snapshot().misses(
                    self.search(),
                    *sequence,
                    is_uid,
                    number,
                ),
    {
        let ghost view = self.state.snapshot();
        let ghost search = self.search();
        if !sequence.is_saved_search() {
            let max_value = if is_uid {
                self.state.uid_max
            } else {
                #[verifier::truncate]
                (self.state.total_messages as u32)
            };
            let expanded = sequence.expand(max_value);
            let mut missing: Vec<u32> = Vec::new();
            let ghost mut places: Seq<int> = Seq::empty();
            let mut i: usize = 0;
            while i < expanded.len()
                invariant
                    i <= expanded.len(),
                    view == self.state.snapshot(),
                    max_value == view.largest(is_uid),
                    !sequence.names_saved_search(),
                    forall|a: int, b: int|
                        0 <= a < b < expanded@.len() ==> expanded@[a] < expanded@[b],
                    forall|number: u32|
                        expanded@.contains(number) <==> sequence.includes(number, max_value),
                    places.len() == missing@.len(),
                    forall|k: int|
                        0 <= k < places.len() ==> 0 <= #[trigger] places[k] < i && missing@[k]
                            == expanded@[places[k]],
                    forall|k: int, l: int|
                        0 <= k < l < places.len() ==> #[trigger] places[k] < #[trigger] places[l],
                    forall|a: int|
                        0 <= a < i && view.misses(None, *sequence, is_uid, #[trigger] expanded@[a])
                            ==> missing@.contains(expanded@[a]),
                    forall|k: int|
                        0 <= k < missing@.len() ==> view.misses(
                            None,
                            *sequence,
                            is_uid,
                            #[trigger] missing@[k],
                        ),
                decreases expanded.len() - i,
            {
                let number = expanded[i];
                let absent = if is_uid {
                    !id_map_contains_key(&self.state.uid_to_id, number)
                } else {
                    number > max_value
                };
                if absent {
                    let ghost before = missing@;
                    missing.push(number);
                    proof {
                        places = places.push(i as int);
                        assert forall|a: int|
                            0 <= a < i + 1 && view.misses(
                                None,
                                *sequence,
                                is_uid,
                                #[trigger] expanded@[a],
                            ) implies missing@.contains(expanded@[a]) by {
                            if a < i {
                                let k = choose|k: int|
                                    0 <= k < before.len() && before[k] == expanded@[a];
                                assert(missing@[k] == expanded@[a]);
                            } else {
                                assert(missing@[before.len() as int] == expanded@[a]);
                            }
                        }
                    }
                }
                i += 1;
            }
            proof {
                assert forall|k: int, l: int| 0 <= k < l < missing@.len() implies missing@[k]
                    < missing@[l] by {
                    assert(places[k] < places[l]);
                }
            }
            missing
        } else {
            let mut found: BTreeSet<u32> = BTreeSet::new();
            match &self.saved_search {
                Some(saved) => {
                    let mut i: usize = 0;
                    while i < saved.len()
                        invariant
                            i <= saved.len(),
                            view == self.state.snapshot(),
                            forall|number: u32|
                                #![trigger found@.contains(number)]
                                found@.contains(number) <==> exists|a: int|
                                    0 <= a < i && !view.uid_to_id.contains_key(
                                        (#[trigger] saved@[a]).uid,
                                    ) && named_by(saved@[a], is_uid) == number,
                        decreases saved.len() - i,
                    {
                        let imap_id = saved[i];
                        if !id_map_contains_key(&self.state.uid_to_id, imap_id.uid) {
                            add_number(
                                &mut found,
                                if is_uid {
                                    imap_id.uid
                                } else {
                                    imap_id.seqnum
                                },
                            );
                        }
                        i += 1;
                    }
                    proof {
                        assert forall|number: u32|
                            #![trigger found@.contains(number)]
                            found@.contains(number) <==> view.misses(
                                search,
                                *sequence,
                                is_uid,
                                number,
                            ) by {
                            if found@.contains(number) {
                                let at = choose|a: int|
                                    0 <= a < i && !view.uid_to_id.contains_key(
                                        (#[trigger] saved@[a]).uid,
                                    ) && named_by(saved@[a], is_uid) == number;
                                assert(named_by(search->0[at], is_uid) == number);
                            }
                        }
                    }
                },
                None => {
                },
            }
            let missing = ascending(&found);
            missing
        }
    }
}

} // verus!
