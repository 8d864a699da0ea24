//! The untagged responses that tell a client how its mailbox has changed,
//! as the bytes that go on the wire.

use vstd::prelude::*;

verus! {

/// A number in decimal digits, without leading zeros.
pub open spec fn decimal(number: nat) -> Seq<u8>
    decreases number,
{
    if number < 10 {
        seq![(48 + number) as u8]
    } else {
        decimal(number / 10).push((48 + number % 10) as u8)
    }
}

/// `"* "` in ASCII, which starts every untagged response.
pub open spec fn untagged() -> Seq<u8> {
    seq![42u8, 32u8]
}

/// `" EXPUNGE\r\n"` in ASCII.
pub open spec fn expunge_tail() -> Seq<u8> {
    seq![32u8, 69u8, 88u8, 80u8, 85u8, 78u8, 71u8, 69u8, 13u8, 10u8]
}

/// `" EXISTS\r\n"` in ASCII.
pub open spec fn exists_tail() -> Seq<u8> {
    seq![32u8, 69u8, 88u8, 73u8, 83u8, 84u8, 83u8, 13u8, 10u8]
}

/// `"VANISHED "` in ASCII.
pub open spec fn vanished_head() -> Seq<u8> {
    seq![86u8, 65u8, 78u8, 73u8, 83u8, 72u8, 69u8, 68u8, 32u8]
}

/// `"\r\n"` in ASCII.
pub open spec fn line_end() -> Seq<u8> {
    seq![13u8, 10u8]
}

/// Appends the bytes of an array.
fn push_bytes<const N: usize>(buf: &mut Vec<u8>, bytes: [u8; N])
    ensures
        final(buf)@ == old(buf)@ + bytes@,
{
    let mut i: usize = 0;
    while i < N
        invariant
            i <= N,
            bytes@.len() == N,
            buf@ == old(buf)@ + bytes@.take(i as int),
        decreases N - i,
    {
        buf.push(bytes[i]);
        i += 1;
    }
}

/// Appends a number in decimal digits.
pub fn push_decimal(buf: &mut Vec<u8>, number: u64)
    ensures
        final(buf)@ == old(buf)@ + decimal(number as nat),
{
    // The digits from the last to the first.
    let mut digits: Vec<u8> = Vec::new();
    let mut rest = number;
    while rest >= 10
        invariant
            decimal(number as nat) == decimal(rest as nat) + Seq::new(
                digits@.len(),
                |i: int| digits@[digits@.len() - 1 - i],
            ),
        decreases rest,
    {
        digits.push(48 + (rest % 10) as u8);
        rest = rest / 10;
    }
    digits.push(48 + rest as u8);
    let mut left = digits.len();
    while left > 0
        invariant
            left <= digits@.len(),
            buf@ == old(buf)@ + Seq::new(
                (digits@.len() - left) as nat,
                |i: int| digits@[digits@.len() - 1 - i],
            ),
        decreases left,
    {
        left -= 1;
        buf.push(digits[left]);
    }
}

/// The sequence number under which a message is reported as expunged once
/// `expunged` messages before it have been reported: each report moves the
/// messages behind it one place down.
pub open spec fn renumbered(seqnum: u32, expunged: nat) -> nat {
    if seqnum >= expunged {
        (seqnum - expunged) as nat
    } else {
        0
    }
}

/// `* <number> EXPUNGE`, with its line end.
pub open spec fn expunge_line(number: nat) -> Seq<u8> {
    untagged() + decimal(number) + expunge_tail()
}

/// One `EXPUNGE` line for each of the first `count` sequence numbers of an
/// ascending list, each number lowered by the count of those before it.
pub open spec fn expunge_lines(ids: Seq<u32>, count: nat) -> Seq<u8>
    decreases count,
{
    if count == 0 {
        Seq::empty()
    } else {
        let before = (count - 1) as nat;
        expunge_lines(ids, before) + expunge_line(renumbered(ids[before as int], before))
    }
}

/// The rest of a uid set from place `at` on, where the numbers from place
/// `start` up to `at` follow one another and so belong to one range. A
/// range of one number is written as that number, a longer one as its two
/// ends with `:` between them; ranges are parted by `,`.
pub open spec fn uid_ranges(ids: Seq<u32>, at: int, start: int) -> Seq<u8>
    decreases ids.len() - at,
{
    if at < 0 || at >= ids.len() {
        Seq::empty()
    } else if at + 1 < ids.len() && ids[at + 1] == ids[at] + 1 {
        uid_ranges(ids, at + 1, start)
    } else {
        let range = if start < at {
            decimal(ids[start] as nat) + seq![58u8] + decimal(ids[at] as nat)
        } else {
            decimal(ids[at] as nat)
        };
        if at + 1 < ids.len() {
            range + seq![44u8] + uid_ranges(ids, at + 1, at + 1)
        } else {
            range
        }
    }
}

/// A list of uids as a uid set, with each run of uids that follow one
/// another written as a range.
pub open spec fn uid_set(ids: Seq<u32>) -> Seq<u8> {
    uid_ranges(ids, 0, 0)
}

/// `* VANISHED <uid set>`, with its line end.
pub open spec fn vanished_line(ids: Seq<u32>) -> Seq<u8> {
    untagged() + vanished_head() + uid_set(ids) + line_end()
}

/// `* <total> EXISTS`, with its line end.
pub open spec fn exists_line(total: nat) -> Seq<u8> {
    untagged() + decimal(total) + exists_tail()
}

/// The bytes that tell a client of the messages that have left: for a
/// client that has enabled QRESYNC one `VANISHED` line with their uids, for
/// any other client one `EXPUNGE` line for each sequence number.
pub open spec fn expunge_bytes(is_qresync: bool, ids: Seq<u32>) -> Seq<u8> {
    if is_qresync {
        vanished_line(ids)
    } else {
        expunge_lines(ids, ids.len())
    }
}

/// A client is told something of every removal: where there is one, the
/// bytes are not empty.
pub proof fn lemma_expunge_bytes_not_empty(is_qresync: bool, ids: Seq<u32>)
    requires
        ids.len() > 0,
    ensures
        expunge_bytes(is_qresync, ids).len() > 0,
{
}

/// What the client is told of the messages that have left the mailbox:
/// their sequence numbers, or, for a client that has enabled QRESYNC, their
/// uids. Either list is in ascending order.
#[derive(Debug, PartialEq, Eq)]
pub struct Response {
    pub is_qresync: bool,
    pub ids: Vec<u32>,
}

/// What the client is told of the number of messages in the mailbox.
#[derive(Clone, Copy, Debug, PartialEq, Eq, Structural)]
pub struct Exists {
    pub total_messages: usize,
}

/// Appends a list of uids as a uid set.
pub fn serialize_sequence(buf: &mut Vec<u8>, ids: &Vec<u32>)
    ensures
        final(buf)@ == old(buf)@ + uid_set(ids@),
{
    let mut at: usize = 0;
    let mut start: usize = 0;
    while at < ids.len()
        invariant
            start <= at <= ids.len(),
            old(buf)@ + uid_set(ids@) == buf@ + uid_ranges(ids@, at as int, start as int),
        decreases ids.len() - at,
    {
        if at + 1 < ids.len() && ids[at] < u32::MAX && ids[at + 1] == ids[at] + 1 {
            at += 1;
        } else {
            if start < at {
                push_decimal(buf, ids[start] as u64);
                buf.push(58);
            }
            push_decimal(buf, ids[at] as u64);
            if at + 1 < ids.len() {
                buf.push(44);
            }
            at += 1;
            start = at;
        }
    }
}

impl Response {
    /// The bytes of the response.
    pub open spec fn bytes(self) -> Seq<u8> {
        expunge_bytes(self.is_qresync, self.ids@)
    }

    /// Appends the response: one `VANISHED` line with the uids, or one
    /// `EXPUNGE` line for each sequence number.
    pub fn serialize_to(self, buf: &mut Vec<u8>)
        ensures
            final(buf)@ == old(buf)@ + self.bytes(),
    {
        if !self.is_qresync {
            let mut count: usize = 0;
            while count < self.ids.len()
                invariant
                    count <= self.ids.len(),
                    buf@ == old(buf)@ + expunge_lines(self.ids@, count as nat),
                decreases self.ids.len() - count,
            {
                let id = self.ids[count];
                let number = if id as usize >= count {
                    id - count as u32
                } else {
                    0
                };
                push_bytes(buf, [42, 32]);
                push_decimal(buf, number as u64);
                push_bytes(buf, [32, 69, 88, 80, 85, 78, 71, 69, 13, 10]);
                count += 1;
            }
        } else {
            push_bytes(buf, [42, 32]);
            push_bytes(buf, [86, 65, 78, 73, 83, 72, 69, 68, 32]);
            serialize_sequence(buf, &self.ids);
            push_bytes(buf, [13, 10]);
        }
    }
}

impl Exists {
    /// The bytes of the response.
    pub open spec fn bytes(self) -> Seq<u8> {
        exists_line(self.total_messages as nat)
    }

    /// Appends the response.
    pub fn serialize(&self, buf: &mut Vec<u8>)
        ensures
            final(buf)@ == old(buf)@ + self.bytes(),
    {
        push_bytes(buf, [42, 32]);
        push_decimal(buf, self.total_messages as u64);
        push_bytes(buf, [32, 69, 88, 73, 83, 84, 83, 13, 10]);
    }
}

} // verus!
