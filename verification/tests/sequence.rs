use imap_mailbox::sequence::Sequence;

fn list(items: Vec<Sequence>) -> Sequence {
    Sequence::List { items }
}

#[test]
fn a_number_contains_itself_only() {
    let sequence = Sequence::number(5);
    assert_eq!(sequence, Sequence::Number { value: 5 });
    assert!(sequence.contains(5, 10));
    assert!(!sequence.contains(4, 10));
    assert!(!sequence.contains(10, 10));
}

#[test]
fn a_range_contains_its_ends_and_what_lies_between() {
    let sequence = Sequence::range(Some(3), Some(6));
    assert_eq!(sequence, Sequence::Range { start: Some(3), end: Some(6) });
    assert!(!sequence.contains(2, 10));
    assert!(sequence.contains(3, 10));
    assert!(sequence.contains(5, 10));
    assert!(sequence.contains(6, 10));
    assert!(!sequence.contains(7, 10));
}

#[test]
fn a_range_may_be_written_from_its_larger_end() {
    let sequence = Sequence::range(Some(6), Some(3));
    assert!(sequence.contains(3, 10));
    assert!(sequence.contains(4, 10));
    assert!(sequence.contains(6, 10));
    assert!(!sequence.contains(2, 10));
    assert!(!sequence.contains(7, 10));
}

#[test]
fn a_star_stands_for_the_largest_number() {
    let from_four = Sequence::range(Some(4), None);
    assert!(from_four.contains(4, 9));
    assert!(from_four.contains(9, 9));
    assert!(!from_four.contains(10, 9));
    assert!(!from_four.contains(3, 9));
    // `12:*` with 9 as the largest number is the range from 9 to 12.
    let above = Sequence::range(Some(12), None);
    assert!(above.contains(9, 9));
    assert!(above.contains(12, 9));
    assert!(!above.contains(8, 9));
    let to_four = Sequence::range(None, Some(4));
    assert!(to_four.contains(4, 9));
    assert!(to_four.contains(9, 9));
    assert!(!to_four.contains(3, 9));
    let star = Sequence::range(None, None);
    assert!(star.contains(9, 9));
    assert!(!star.contains(8, 9));
}

#[test]
fn a_list_contains_what_one_of_its_items_contains() {
    let sequence = list(vec![
        Sequence::number(1),
        Sequence::range(Some(3), Some(4)),
        list(vec![Sequence::number(9)]),
    ]);
    assert!(sequence.contains(1, 20));
    assert!(!sequence.contains(2, 20));
    assert!(sequence.contains(3, 20));
    assert!(sequence.contains(4, 20));
    assert!(sequence.contains(9, 20));
    assert!(!sequence.contains(20, 20));
    assert!(!list(Vec::new()).contains(1, 20));
}

#[test]
fn the_saved_search_contains_no_number() {
    assert!(!Sequence::SavedSearch.contains(1, 1));
    assert!(Sequence::SavedSearch.expand(5).is_empty());
}

#[test]
fn is_saved_search_finds_the_dollar_in_a_list() {
    assert!(Sequence::SavedSearch.is_saved_search());
    assert!(!Sequence::number(1).is_saved_search());
    assert!(!Sequence::range(None, None).is_saved_search());
    assert!(list(vec![Sequence::number(1), Sequence::SavedSearch]).is_saved_search());
    assert!(!list(vec![Sequence::number(1), Sequence::number(2)]).is_saved_search());
    assert!(!list(Vec::new()).is_saved_search());
}

#[test]
fn expand_lists_each_number_once_in_ascending_order() {
    let sequence = list(vec![
        Sequence::range(Some(7), Some(5)),
        Sequence::number(2),
        Sequence::range(Some(6), Some(8)),
        Sequence::number(2),
    ]);
    assert_eq!(sequence.expand(100), vec![2, 5, 6, 7, 8]);
}

#[test]
fn expand_resolves_the_star() {
    assert_eq!(Sequence::range(Some(3), None).expand(6), vec![3, 4, 5, 6]);
    assert_eq!(Sequence::range(None, Some(8)).expand(6), vec![6, 7, 8]);
    assert_eq!(Sequence::range(None, None).expand(6), vec![6]);
    assert_eq!(Sequence::number(4).expand(0), vec![4]);
}

#[test]
fn expand_reaches_the_largest_number_there_is() {
    let sequence = Sequence::range(Some(u32::MAX - 2), None);
    assert_eq!(sequence.expand(u32::MAX), vec![u32::MAX - 2, u32::MAX - 1, u32::MAX]);
}

#[test]
fn expand_holds_what_contains_holds() {
    let sequence = list(vec![
        Sequence::range(Some(10), Some(12)),
        Sequence::range(None, Some(18)),
        Sequence::number(1),
    ]);
    let expanded = sequence.expand(15);
    for number in 0..25 {
        assert_eq!(expanded.contains(&number), sequence.contains(number, 15));
    }
}
