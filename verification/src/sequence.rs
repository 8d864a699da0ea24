//! Sequence sets: the numbers that a command names, by uid or by sequence
//! number.

use std::collections::BTreeSet;
use vstd::prelude::*;
use vstd::std_specs::cmp::OrdSpec;
use vstd::std_specs::iter::IteratorSpec;

verus! {

/// A set of positive numbers as a client writes it: one number, a range, a
/// list of these, or `$`, which stands for the result of the last search.
/// An end of a range that is left out stands for `*`, the largest number in
/// use.
#[derive(Debug, PartialEq, Eq)]
pub enum Sequence {
    /// One number.
    Number { value: u32 },
    /// The numbers between two ends, the ends among them. `None` is `*`.
    Range { start: Option<u32>, end: Option<u32> },
    /// `$`: the messages that the last search found.
    SavedSearch,
    /// What any of the items names.
    List { items: Vec<Sequence> },
}

/// The end of a range as a number, where `*` is `max_value`.
pub open spec fn resolved(end: Option<u32>, max_value: u32) -> u32 {
    match end {
        Some(number) => number,
        None => max_value,
    }
}

/// Whether `value` lies between the two ends of a range, whichever of them
/// is the larger.
pub open spec fn range_includes(
    start: Option<u32>,
    end: Option<u32>,
    value: u32,
    max_value: u32,
) -> bool {
    let first = resolved(start, max_value);
    let last = resolved(end, max_value);
    (first <= value <= last) || (last <= value <= first)
}

/// Adds a number to the set, and says whether the set lacked it.
pub(crate) fn add_number(numbers: &mut BTreeSet<u32>, number: u32) -> (added: bool)
    ensures
        final(numbers)@ == old(numbers)@.insert(number),
        added == !old(numbers)@.contains(number),
{
    broadcast use vstd::std_specs::btree::group_btree_axioms;
    broadcast use vstd::laws_cmp::group_laws_cmp;

    numbers.insert(number)
}

/// The numbers of the set, each once, in ascending order.
pub(crate) fn ascending(numbers: &BTreeSet<u32>) -> (listed: Vec<u32>)
    ensures
        forall|i: int, j: int| 0 <= i < j < listed@.len() ==> listed@[i] < listed@[j],
        forall|number: u32| listed@.contains(number) <==> numbers@.contains(number),
{
    broadcast use vstd::std_specs::btree::group_btree_axioms;
    broadcast use vstd::laws_cmp::group_laws_cmp;

    let mut listed: Vec<u32> = Vec::new();
    let iter = numbers.iter();
    let ghost held = iter.remaining();
    for number in it: iter
        invariant
            it.seq() == held,
            listed@.len() == it.index(),
            forall|i: int| 0 <= i < listed@.len() ==> listed@[i] == *(#[trigger] held[i]),
    {
        listed.push(*number);
    }
    proof {
        assert forall|i: int, j: int| 0 <= i < j < listed@.len() implies listed@[i]
            < listed@[j] by {
            assert(OrdSpec::cmp_spec(&held[i], &held[j]) is Less);
        }
        assert forall|number: u32| listed@.contains(number) <==> numbers@.contains(number) by {
            if listed@.contains(number) {
                let at = choose|i: int| 0 <= i < listed@.len() && listed@[i] == number;
                assert(held.unref()[at] == number);
            }
        }
    }
    listed
}

/// Adds the numbers between two ends, whichever of them is the larger.
fn add_range(numbers: &mut BTreeSet<u32>, first: u32, last: u32)
    ensures
        forall|number: u32|
            #![trigger final(numbers)@.contains(number)]
            final(numbers)@.contains(number) <==> old(numbers)@.contains(number) || (first
                <= number <= last) || (last <= number <= first),
{
    let low = if first <= last {
        first
    } else {
        last
    };
    let high = if first <= last {
        last
    } else {
        first
    };
    let mut next = low;
    loop
        invariant_except_break
            low <= next <= high,
            forall|number: u32|
                #![trigger numbers@.contains(number)]
                numbers@.contains(number) <==> old(numbers)@.contains(number) || low <= number
                    < next,
        ensures
            forall|number: u32|
                #![trigger numbers@.contains(number)]
                numbers@.contains(number) <==> old(numbers)@.contains(number) || low <= number
                    <= high,
        decreases high - next,
    {
        add_number(numbers, next);
        if next == high {
            break ;
        }
        next += 1;
    }
}

impl Sequence {
    /// Whether the set holds `value`, where `*` is `max_value`. `$` holds
    /// no number by itself.
    pub open spec fn includes(self, value: u32, max_value: u32) -> bool
        decreases self,
    {
        match self {
            Sequence::Number { value: number } => number == value,
            Sequence::Range { start, end } => range_includes(start, end, value, max_value),
            Sequence::SavedSearch => false,
            Sequence::List { items } => exists|i: int|
                0 <= i < items@.len() && (#[trigger] items@[i]).includes(value, max_value),
        }
    }

    /// Whether the set is `$`, or a list that holds `$`.
    pub open spec fn names_saved_search(self) -> bool
        decreases self,
    {
        match self {
            Sequence::SavedSearch => true,
            Sequence::List { items } => exists|i: int|
                0 <= i < items@.len() && (#[trigger] items@[i]).names_saved_search(),
            _ => false,
        }
    }

    /// The set of one number.
    pub fn number(value: u32) -> (sequence: Sequence)
        ensures
            sequence == (Sequence::Number { value }),
    {
        Sequence::Number { value }
    }

    /// The range between two ends, where `None` is `*`.
    pub fn range(start: Option<u32>, end: Option<u32>) -> (sequence: Sequence)
        ensures
            sequence == (Sequence::Range { start, end }),
    {
        Sequence::Range { start, end }
    }

    /// Whether the set holds `value`, where `*` is `max_value`.
    pub fn contains(&self, value: u32, max_value: u32) -> (found: bool)
        ensures
            found == self.includes(value, max_value),
        decreases self,
    {
        match self {
            Sequence::Number { value: number } => *number == value,
            Sequence::Range { start, end } => {
                let first = match start {
                    Some(number) => *number,
                    None => max_value,
                };
                let last = match end {
                    Some(number) => *number,
                    None => max_value,
                };
                (first <= value && value <= last) || (last <= value && value <= first)
            },
            Sequence::SavedSearch => false,
            Sequence::List { items } => {
                let mut i: usize = 0;
                while i < items.len()
                    invariant
                        i <= items.len(),
                        self is List,
                        self->items == *items,
                        forall|j: int|
                            0 <= j < i ==> !(#[trigger] items@[j]).includes(value, max_value),
                    decreases items.len() - i,
                {
                    if items[i].contains(value, max_value) {
                        return true;
                    }
                    i += 1;
                }
                false
            },
        }
    }

    /// Whether the set is `$`, or a list that holds `$`.
    pub fn is_saved_search(&self) -> (found: bool)
        ensures
            found == self.names_saved_search(),
        decreases self,
    {
        match self {
            Sequence::SavedSearch => true,
            Sequence::List { items } => {
                let mut i: usize = 0;
                while i < items.len()
                    invariant
                        i <= items.len(),
                        self is List,
                        self->items == *items,
                        forall|j: int| 0 <= j < i ==> !(#[trigger] items@[j]).names_saved_search(),
                    decreases items.len() - i,
                {
                    if items[i].is_saved_search() {
                        return true;
                    }
                    i += 1;
                }
                false
            },
            _ => false,
        }
    }

    /// Adds the numbers of the set, where `*` is `max_value`.
    fn collect(&self, numbers: &mut BTreeSet<u32>, max_value: u32)
        ensures
            forall|number: u32|
                #![trigger final(numbers)@.contains(number)]
                final(numbers)@.contains(number) <==> old(numbers)@.contains(number)
                    || self.includes(number, max_value),
        decreases self,
    {
        match self {
            Sequence::Number { value } => {
                add_number(numbers, *value);
            },
            Sequence::Range { start, end } => {
                let first = match start {
                    Some(number) => *number,
                    None => max_value,
                };
                let last = match end {
                    Some(number) => *number,
                    None => max_value,
                };
                add_range(numbers, first, last);
            },
            Sequence::SavedSearch => {},
            Sequence::List { items } => {
                let mut i: usize = 0;
                while i < items.len()
                    invariant
                        i <= items.len(),
                        self is List,
                        self->items == *items,
                        forall|number: u32|
                            #![trigger numbers@.contains(number)]
                            numbers@.contains(number) <==> old(numbers)@.contains(number) || exists|
                                j: int,
                            |
                                0 <= j < i && (#[trigger] items@[j]).includes(number, max_value),
                    decreases items.len() - i,
                {
                    items[i].collect(numbers, max_value);
                    i += 1;
                }
            },
        }
    }

    /// The numbers of the set, each once, in ascending order, where `*` is
    /// `max_value`.
    pub fn expand(&self, max_value: u32) -> (numbers: Vec<u32>)
        ensures
            forall|i: int, j: int| 0 <= i < j < numbers@.len() ==> numbers@[i] < numbers@[j],
            forall|number: u32| numbers@.contains(number) <==> self.includes(number, max_value),
    {
        let mut found: BTreeSet<u32> = BTreeSet::new();
        self.collect(&mut found, max_value);
        ascending(&found)
    }
}

} // verus!
