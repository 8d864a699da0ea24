use imap_mailbox::protocol::{push_decimal, serialize_sequence, Exists, Response};

fn decimal(number: u64) -> Vec<u8> {
    let mut buf = Vec::new();
    push_decimal(&mut buf, number);
    buf
}

fn uid_set(ids: &[u32]) -> Vec<u8> {
    let mut buf = Vec::new();
    serialize_sequence(&mut buf, &ids.to_vec());
    buf
}

fn expunge(is_qresync: bool, ids: &[u32]) -> Vec<u8> {
    let mut buf = Vec::new();
    Response { is_qresync, ids: ids.to_vec() }.serialize_to(&mut buf);
    buf
}

#[test]
fn push_decimal_writes_the_digits() {
    assert_eq!(decimal(0), b"0".to_vec());
    assert_eq!(decimal(7), b"7".to_vec());
    assert_eq!(decimal(10), b"10".to_vec());
    assert_eq!(decimal(909), b"909".to_vec());
    assert_eq!(decimal(4294967295), b"4294967295".to_vec());
    assert_eq!(decimal(u64::MAX), b"18446744073709551615".to_vec());
}

#[test]
fn push_decimal_appends_to_what_the_buffer_holds() {
    let mut buf = b"* ".to_vec();
    push_decimal(&mut buf, 42);
    assert_eq!(buf, b"* 42".to_vec());
}

#[test]
fn serialize_sequence_writes_runs_as_ranges() {
    assert_eq!(uid_set(&[1, 2, 3, 4, 7, 9, 10]), b"1:4,7,9:10".to_vec());
    assert_eq!(uid_set(&[5]), b"5".to_vec());
    assert_eq!(uid_set(&[5, 7, 9]), b"5,7,9".to_vec());
    assert_eq!(uid_set(&[5, 6]), b"5:6".to_vec());
    assert_eq!(uid_set(&[]), b"".to_vec());
}

#[test]
fn serialize_sequence_does_not_join_what_does_not_follow() {
    assert_eq!(uid_set(&[3, 3]), b"3,3".to_vec());
    assert_eq!(uid_set(&[4, 3]), b"4,3".to_vec());
    assert_eq!(uid_set(&[u32::MAX - 1, u32::MAX, 0]), b"4294967294:4294967295,0".to_vec());
}

#[test]
fn expunge_writes_one_line_for_each_sequence_number() {
    assert_eq!(expunge(false, &[3]), b"* 3 EXPUNGE\r\n".to_vec());
    assert_eq!(
        expunge(false, &[3, 5, 9]),
        b"* 3 EXPUNGE\r\n* 4 EXPUNGE\r\n* 7 EXPUNGE\r\n".to_vec()
    );
    assert_eq!(expunge(false, &[]), b"".to_vec());
}

#[test]
fn expunge_never_goes_below_zero() {
    assert_eq!(
        expunge(false, &[0, 0, 1, 1]),
        b"* 0 EXPUNGE\r\n* 0 EXPUNGE\r\n* 0 EXPUNGE\r\n* 0 EXPUNGE\r\n".to_vec()
    );
}

#[test]
fn expunge_writes_one_line_of_uids_for_qresync() {
    assert_eq!(expunge(true, &[1, 2, 3, 4]), b"* VANISHED 1:4\r\n".to_vec());
    assert_eq!(expunge(true, &[8, 10, 11]), b"* VANISHED 8,10:11\r\n".to_vec());
}

#[test]
fn exists_writes_the_number_of_messages() {
    let mut buf = Vec::new();
    Exists { total_messages: 0 }.serialize(&mut buf);
    Exists { total_messages: 172 }.serialize(&mut buf);
    assert_eq!(buf, b"* 0 EXISTS\r\n* 172 EXISTS\r\n".to_vec());
}
