//! What the adapter to the key-value store decides: how a value that is
//! split in chunks is read, which keys of a scan make up a bitmap, what is
//! handed to the callback of a scan, how a counter is decoded, and when
//! the cached read version is renewed. The reads themselves are made by
//! the caller.

use roaring::RoaringBitmap;
use vstd::prelude::*;
use vstd::slice::slice_subrange;

use crate::collections::{bitmap_insert, bitmap_is_empty, bitmap_new, bitmap_values};
use crate::error::StoreError;

verus! {

/// The number of bytes of a document id at the end of a bitmap key.
pub const U32_LEN: usize = 4;

/// The largest number of chunks that can follow the first part of a value:
/// the last byte of a chunk's key counts them.
pub const MAX_CHUNKS: u8 = 255;

/// A value as it was read: in one piece, joined from chunks, or absent.
#[derive(Debug, PartialEq, Eq)]
pub enum ChunkedValue {
    /// The value was below the limit for one value and is whole.
    Single(Vec<u8>),
    /// The value reached the limit: it was followed by `n_chunks` chunks,
    /// and `bytes` holds it with the chunks joined to it.
    Chunked { n_chunks: u8, bytes: Vec<u8> },
    /// The store holds nothing under the key.
    Absent,
}

/// A value that is being read chunk by chunk: the key of the chunk to read
/// next, which is the key of the value with the chunk's number behind it,
/// and the bytes read so far.
#[derive(Debug, PartialEq, Eq)]
pub struct ChunkedRead {
    pub key: Vec<u8>,
    pub bytes: Vec<u8>,
}

/// What the reader of a value is to do next.
#[derive(Debug, PartialEq, Eq)]
pub enum ReadStep {
    /// Read the value under the key of this state, and hand it to
    /// [`ChunkedRead::read_chunk`].
    Read(ChunkedRead),
    /// The value is complete.
    Done(ChunkedValue),
}

/// The key of the chunk with the number `chunk` of the value under `key`.
pub open spec fn chunk_key(key: Seq<u8>, chunk: u8) -> Seq<u8> {
    key.push(chunk)
}

impl ChunkedRead {
    /// The state has a key that ends in a chunk's number.
    pub open spec fn well_formed(self) -> bool {
        self.key@.len() > 0
    }

    /// The number of the chunk to read next, which is the number of chunks
    /// read so far.
    pub open spec fn chunks(self) -> u8 {
        self.key@.last()
    }

    /// The key of the value that is being read.
    pub open spec fn value_key(self) -> Seq<u8> {
        self.key@.drop_last()
    }

    /// Whether a further chunk can be taken in.
    pub fn has_room(&self) -> (room: bool)
        requires
            self.well_formed(),
        ensures
            room == (self.chunks() < MAX_CHUNKS),
    {
        self.key[self.key.len() - 1] < MAX_CHUNKS
    }

    /// Takes in what was read under the key of the state. A chunk is joined
    /// to the bytes and the next chunk is asked for; a miss ends the value.
    ///
    /// The chunks are counted in one byte, so no chunk can follow the one
    /// with the number 255.
    pub fn read_chunk(self, chunk: Option<Vec<u8>>) -> (step: ReadStep)
        requires
            self.well_formed(),
            chunk is Some ==> self.chunks() < MAX_CHUNKS,
        ensures
            chunk is None ==> step == ReadStep::Done(
                ChunkedValue::Chunked { n_chunks: self.chunks(), bytes: self.bytes },
            ),
            chunk matches Some(read) ==> (step matches ReadStep::Read(next) && next.key@
                == chunk_key(self.value_key(), (self.chunks() + 1) as u8) && next.bytes@
                == self.bytes@ + read@),
    {
        let mut state = self;
        match chunk {
            Some(mut read) => {
                let last = state.key.len() - 1;
                let number = state.key[last];
                state.key.set(last, number + 1);
                state.bytes.append(&mut read);
                ReadStep::Read(state)
            },
            None => {
                let n_chunks = state.key[state.key.len() - 1];
                ReadStep::Done(ChunkedValue::Chunked { n_chunks, bytes: state.bytes })
            },
        }
    }
}

/// What a store holds under a key and under the keys of its first `chunks`
/// chunks, joined in that order.
pub open spec fn joined(held: Map<Seq<u8>, Seq<u8>>, key: Seq<u8>, chunks: nat) -> Seq<u8>
    decreases chunks,
{
    if chunks == 0 {
        held[key]
    } else {
        let before = (chunks - 1) as nat;
        joined(held, key, before) + held[chunk_key(key, before as u8)]
    }
}

impl ChunkedRead {
    /// The state is that of a read of the value under `key` from a store
    /// that holds `held`: the chunks before the one to read next are all
    /// held, and the bytes are the value with those chunks joined to it.
    pub open spec fn follows(self, held: Map<Seq<u8>, Seq<u8>>, key: Seq<u8>) -> bool {
        &&& self.well_formed()
        &&& self.value_key() == key
        &&& self.bytes@ == joined(held, key, self.chunks() as nat)
        &&& forall|chunk: u8| chunk < self.chunks() ==> held.contains_key(#[trigger] chunk_key(key, chunk))
    }
}

/// A read that is fed what the store holds stays a read of that store. Let
/// `read` be the state of a read of the value under `key`, and `next` the
/// state that [`ChunkedRead::read_chunk`] hands back for the chunk that the
/// store holds under the key of `read`. Then `next` is the state of a read
/// of the same value, one chunk further.
pub proof fn lemma_read_goes_on(
    read: ChunkedRead,
    next: ChunkedRead,
    held: Map<Seq<u8>, Seq<u8>>,
    key: Seq<u8>,
)
    requires
        read.follows(held, key),
        read.chunks() < MAX_CHUNKS,
        held.contains_key(read.key@),
        next.key@ == chunk_key(read.value_key(), (read.chunks() + 1) as u8),
        next.bytes@ == read.bytes@ + held[read.key@],
    ensures
        next.follows(held, key),
        next.chunks() == read.chunks() + 1,
{
    assert(next.key@.drop_last() =~= key);
    assert(read.key@ =~= chunk_key(key, read.chunks()));
}

/// The first state of a read in chunks is that of a read of the store: the
/// state that [`read_chunked_value`] hands back for the value that the store
/// holds under `key`.
pub proof fn lemma_read_begins(
    first: ChunkedRead,
    held: Map<Seq<u8>, Seq<u8>>,
    key: Seq<u8>,
)
    requires
        first.key@ == chunk_key(key, 0),
        first.bytes@ == held[key],
    ensures
        first.follows(held, key),
        first.chunks() == 0,
{
    assert(first.key@.drop_last() =~= key);
}

/// Takes in what was read under the key of a value. A value below the
/// store's limit for one value is whole. One that reaches the limit is the
/// first part of a value in chunks, and its chunk 0 is asked for.
pub fn read_chunked_value(key: &[u8], value: Option<Vec<u8>>, max_value_size: usize) -> (step:
    ReadStep)
    ensures
        value is None ==> step == ReadStep::Done(ChunkedValue::Absent),
        value matches Some(bytes) ==> (if bytes@.len() < max_value_size {
            step == ReadStep::Done(ChunkedValue::Single(bytes))
        } else {
            step matches ReadStep::Read(next) && next.key@ == chunk_key(key@, 0) && next.bytes
                == bytes
        }),
{
    match value {
        Some(bytes) => {
            if bytes.len() < max_value_size {
                ReadStep::Done(ChunkedValue::Single(bytes))
            } else {
                let mut chunk: Vec<u8> = Vec::new();
                let mut i: usize = 0;
                while i < key.len()
                    invariant
                        i <= key.len(),
                        chunk@ == key@.take(i as int),
                    decreases key.len() - i,
                {
                    chunk.push(key[i]);
                    i += 1;
                }
                chunk.push(0);
                ReadStep::Read(ChunkedRead { key: chunk, bytes })
            }
        },
        None => ReadStep::Done(ChunkedValue::Absent),
    }
}

impl ChunkedValue {
    /// The bytes of the value, if there is one.
    pub open spec fn bytes(self) -> Option<Seq<u8>> {
        match self {
            ChunkedValue::Single(bytes) => Some(bytes@),
            ChunkedValue::Chunked { bytes, .. } => Some(bytes@),
            ChunkedValue::Absent => None,
        }
    }

    /// The bytes of the value, if there is one.
    pub fn into_bytes(self) -> (bytes: Option<Vec<u8>>)
        ensures
            self.bytes() == match bytes {
                Some(bytes) => Some(bytes@),
                None => None,
            },
    {
        match self {
            ChunkedValue::Single(bytes) => Some(bytes),
            ChunkedValue::Chunked { bytes, .. } => Some(bytes),
            ChunkedValue::Absent => None,
        }
    }
}

/// A value that can be decoded from the bytes that the store holds.
pub trait Deserialize: Sized {
    fn deserialize(bytes: &[u8]) -> Result<Self, StoreError>;
}

/// Four bytes as a number, the first byte counting most.
pub open spec fn be_u32(bytes: Seq<u8>) -> u32 {
    (bytes[0] * 0x100_0000 + bytes[1] * 0x1_0000 + bytes[2] * 0x100 + bytes[3]) as u32
}

/// Eight bytes as a number without sign, the first byte counting least.
pub open spec fn le_u64(bytes: Seq<u8>) -> int {
    bytes[0] + bytes[1] * 0x100 + bytes[2] * 0x1_0000 + bytes[3] * 0x100_0000 + bytes[4]
        * 0x1_0000_0000 + bytes[5] * 0x100_0000_0000 + bytes[6] * 0x1_0000_0000_0000 + bytes[7]
        * 0x100_0000_0000_0000
}

/// Eight bytes as a number in two's complement, the first byte counting
/// least.
pub open spec fn le_i64(bytes: Seq<u8>) -> int {
    if le_u64(bytes) < 0x8000_0000_0000_0000 {
        le_u64(bytes)
    } else {
        le_u64(bytes) - 0x1_0000_0000_0000_0000
    }
}

/// The document id at the end of a key.
pub open spec fn document_id(key: Seq<u8>) -> u32 {
    be_u32(key.skip(key.len() - U32_LEN))
}

/// The number that four bytes from `index` on stand for, the first byte
/// counting most, if the bytes reach that far.
pub fn deserialize_be_u32(bytes: &[u8], index: usize) -> (number: Result<u32, StoreError>)
    ensures
        number is Ok <==> index + U32_LEN <= bytes@.len(),
        number matches Ok(value) ==> value == be_u32(bytes@.skip(index as int)),
        number matches Err(error) ==> error == StoreError::InternalError,
{
    if index <= bytes.len() && bytes.len() - index >= U32_LEN {
        let number = (bytes[index] as u32) * 0x100_0000 + (bytes[index + 1] as u32) * 0x1_0000 + (
        bytes[index + 2] as u32) * 0x100 + (bytes[index + 3] as u32);
        Ok(number)
    } else {
        Err(StoreError::InternalError)
    }
}

/// The signed number that eight bytes stand for, the first byte counting
/// least. Any other number of bytes is no counter.
pub fn deserialize_i64_le(bytes: &[u8]) -> (number: Result<i64, StoreError>)
    ensures
        number is Ok <==> bytes@.len() == 8,
        number matches Ok(value) ==> value == le_i64(bytes@),
        number matches Err(error) ==> error == StoreError::InternalError,
{
    if bytes.len() == 8 {
        let unsigned: u64 = (bytes[0] as u64) + (bytes[1] as u64) * 0x100 + (bytes[2] as u64)
            * 0x1_0000 + (bytes[3] as u64) * 0x100_0000 + (bytes[4] as u64) * 0x1_0000_0000 + (
        bytes[5] as u64) * 0x100_0000_0000 + (bytes[6] as u64) * 0x1_0000_0000_0000 + (
        bytes[7] as u64) * 0x100_0000_0000_0000;
        if unsigned < 0x8000_0000_0000_0000 {
            Ok(unsigned as i64)
        } else {
            Ok((unsigned - 0x8000_0000_0000_0000) as i64 + i64::MIN)
        }
    } else {
        Err(StoreError::InternalError)
    }
}

/// The value of a counter from what was read under its key: the number
/// that the eight bytes stand for, and 0 where the store holds nothing.
pub fn get_counter(value: Option<&[u8]>) -> (counter: Result<i64, StoreError>)
    ensures
        value is None ==> counter == Ok::<i64, StoreError>(0),
        value matches Some(bytes) ==> {
            &&& counter is Ok <==> bytes@.len() == 8
            &&& counter matches Ok(number) ==> number == le_i64(bytes@)
            &&& counter matches Err(error) ==> error == StoreError::InternalError
        },
{
    match value {
        Some(bytes) => deserialize_i64_le(bytes),
        None => Ok(0),
    }
}

/// The documents that the keys of a scan name: the document ids at the end
/// of the keys that are as long as the key that began the scan.
pub open spec fn scanned_documents(keys: Seq<Vec<u8>>, key_len: usize) -> Set<u32> {
    Set::new(
        |document: u32|
            exists|i: int|
                0 <= i < keys.len() && (#[trigger] keys[i])@.len() == key_len && document_id(
                    keys[i]@,
                ) == document,
    )
}

/// Some key of the scan is as long as the key that began it.
pub open spec fn scan_names_documents(keys: Seq<Vec<u8>>, key_len: usize) -> bool {
    exists|i: int| 0 <= i < keys.len() && (#[trigger] keys[i])@.len() == key_len
}

/// Takes in one key of the scan that reads a bitmap: if the key is as long
/// as the key that began the scan, the document id at its end joins the
/// bitmap. A key that is too short to end in a document id is an error.
pub fn add_bitmap_key(bitmap: &mut RoaringBitmap, key_len: usize, key: &[u8]) -> (result: Result<
    (),
    StoreError,
>)
    ensures
        result is Err <==> key@.len() == key_len && key_len < U32_LEN,
        result matches Err(error) ==> error == StoreError::InternalError,
        bitmap_values(*final(bitmap)) == (if key@.len() == key_len && key_len >= U32_LEN {
            bitmap_values(*old(bitmap)).insert(document_id(key@))
        } else {
            bitmap_values(*old(bitmap))
        }),
{
    if key.len() == key_len {
        if key_len < U32_LEN {
            return Err(StoreError::InternalError);
        }
        match deserialize_be_u32(key, key.len() - U32_LEN) {
            Ok(document) => {
                bitmap_insert(bitmap, document);
            },
            Err(error) => {
                return Err(error);
            },
        }
    }
    Ok(())
}

/// The bitmap that the keys of a scan make up: the documents that the keys
/// name, or nothing where they name none.
pub fn get_bitmap(key_len: usize, keys: &Vec<Vec<u8>>) -> (result: Result<
    Option<RoaringBitmap>,
    StoreError,
>)
    ensures
        result is Err <==> key_len < U32_LEN && scan_names_documents(keys@, key_len),
        result matches Err(error) ==> error == StoreError::InternalError,
        result matches Ok(None) ==> !scan_names_documents(keys@, key_len),
        result matches Ok(Some(bitmap)) ==> scan_names_documents(keys@, key_len) && bitmap_values(
            bitmap,
        ) == scanned_documents(keys@, key_len),
{
    let mut bitmap = bitmap_new();
    let mut i: usize = 0;
    while i < keys.len()
        invariant
            i <= keys.len(),
            bitmap_values(bitmap) =~= scanned_documents(keys@.take(i as int), key_len),
            key_len < U32_LEN ==> !scan_names_documents(keys@.take(i as int), key_len),
        decreases keys.len() - i,
    {
        let ghost extended = keys@.take(i + 1);
        match add_bitmap_key(&mut bitmap, key_len, keys[i].as_slice()) {
            Ok(()) => {},
            Err(error) => {
                return Err(error);
            },
        }
        proof {
            assert(extended[i as int] == keys@[i as int]);
        }
        i += 1;
    }
    proof {
        assert(keys@.take(i as int) =~= keys@);
        if scan_names_documents(keys@, key_len) {
            let at = choose|a: int| 0 <= a < keys@.len() && (#[trigger] keys@[a])@.len() == key_len;
            assert(scanned_documents(keys@, key_len).contains(document_id(keys@[at]@)));
        }
        if bitmap_values(bitmap) != Set::<u32>::empty() {
            assert(exists|document: u32| bitmap_values(bitmap).contains(document)) by {
                if forall|document: u32| !bitmap_values(bitmap).contains(document) {
                    assert(bitmap_values(bitmap) =~= Set::<u32>::empty());
                }
            }
        }
    }
    Ok(
        if !bitmap_is_empty(&bitmap) {
            Some(bitmap)
        } else {
            None
        },
    )
}

/// How many keys a scan fetches at a time.
#[derive(Clone, Copy, Debug, PartialEq, Eq, Structural)]
pub enum StreamingMode {
    /// A few: the scan is expected to stop early.
    Small,
    /// As many as the store will give.
    WantAll,
}

/// What a scan hands to its callback, and when it ends.
#[derive(Clone, Copy, Debug, PartialEq, Eq, Structural)]
pub struct IterateParams {
    /// Only the first pair is wanted.
    pub first: bool,
    /// The keys are wanted from the smallest to the largest.
    pub ascending: bool,
}

impl IterateParams {
    /// How many keys the scan fetches at a time: a few where only the first
    /// pair is wanted, else all.
    pub fn mode(&self) -> (mode: StreamingMode)
        ensures
            mode == (if self.first {
                StreamingMode::Small
            } else {
                StreamingMode::WantAll
            }),
    {
        if self.first {
            StreamingMode::Small
        } else {
            StreamingMode::WantAll
        }
    }

    /// Whether the store is to walk the range from its end.
    pub fn reverse(&self) -> (reverse: bool)
        ensures
            reverse == !self.ascending,
    {
        !self.ascending
    }

    /// The key that the callback is handed for a key of the store: the key
    /// without the byte of the subspace in front of it.
    pub fn delivered<'a>(&self, key: &'a [u8]) -> (delivered: &'a [u8])
        ensures
            delivered@ == (if key@.len() > 0 {
                key@.skip(1)
            } else {
                Seq::<u8>::empty()
            }),
    {
        if key.len() > 0 {
            let delivered = slice_subrange(key, 1, key.len());
            delivered
        } else {
            key
        }
    }

    /// Whether the scan goes on once the callback has answered for a pair.
    /// It ends with the callback's error, when the callback asks for no
    /// more, and after the first pair where only that was wanted.
    pub fn iterate(&self, answer: Result<bool, StoreError>) -> (proceed: Result<bool, StoreError>)
        ensures
            proceed == (match answer {
                Ok(more) => Ok::<bool, StoreError>(more && !self.first),
                Err(error) => Err::<bool, StoreError>(error),
            }),
    {
        match answer {
            Ok(more) => Ok(more && !self.first),
            Err(error) => Err(error),
        }
    }
}

/// A read version of the store, with the time at which it is too old to be
/// used. Times are in milliseconds on a clock of the caller's choice.
#[derive(Clone, Copy, Debug, PartialEq, Eq, Structural)]
pub struct ReadVersion {
    pub version: i64,
    pub expires: u64,
}

impl ReadVersion {
    /// A version read at `now`, to be used for `expiry` milliseconds.
    pub fn new(version: i64, now: u64, expiry: u64) -> (read: ReadVersion)
        requires
            now + expiry <= u64::MAX,
        ensures
            read.version == version,
            read.expires == now + expiry,
    {
        ReadVersion { version, expires: now + expiry }
    }

    /// Whether the version is too old at `now`.
    pub fn is_expired(&self, now: u64) -> (expired: bool)
        ensures
            expired == (self.expires < now),
    {
        self.expires < now
    }
}

impl Default for ReadVersion {
    /// No version: it is too old at any time after 0.
    fn default() -> (read: ReadVersion)
        ensures
            read.version == 0,
            read.expires == 0,
    {
        ReadVersion { version: 0, expires: 0 }
    }
}

/// What a transaction is to do about its read version.
#[derive(Clone, Copy, Debug, PartialEq, Eq, Structural)]
pub enum TrxStep {
    /// Read at this version.
    Pin(i64),
    /// The version that was kept is too old: ask the store for its read
    /// version and hand it in.
    Refresh,
}

/// What the adapter keeps between reads, and what it was configured with.
#[derive(Clone, Copy, Debug, PartialEq, Eq, Structural)]
pub struct FdbStore {
    /// The read version that was last obtained.
    pub version: ReadVersion,
    /// For how many milliseconds a read version is used.
    pub version_expiry: u64,
    /// The size from which on a value is the first part of a value in
    /// chunks.
    pub max_value_size: usize,
}

impl FdbStore {
    /// The read version for a transaction that starts at `now`. While the
    /// version that was kept is not too old, it is used. Once it is, the
    /// caller is asked for the store's read version, and the one handed in
    /// as `read_version` is kept and used.
    pub fn read_trx(&mut self, now: u64, read_version: Option<i64>) -> (step: TrxStep)
        requires
            now + old(self).version_expiry <= u64::MAX,
        ensures
            final(self).version_expiry == old(self).version_expiry,
            final(self).max_value_size == old(self).max_value_size,
            !(old(self).version.expires < now) ==> step == TrxStep::Pin(old(self).version.version)
                && final(self).version == old(self).version,
            old(self).version.expires < now && read_version is None ==> step == TrxStep::Refresh
                && final(self).version == old(self).version,
            old(self).version.expires < now && read_version is Some ==> step == TrxStep::Pin(
                read_version->0,
            ) && final(self).version == (ReadVersion {
                version: read_version->0,
                expires: (now + old(self).version_expiry) as u64,
            }),
    {
        if !self.version.is_expired(now) {
            TrxStep::Pin(self.version.version)
        } else {
            match read_version {
                Some(version) => {
                    self.version = ReadVersion::new(version, now, self.version_expiry);
                    TrxStep::Pin(version)
                },
                None => TrxStep::Refresh,
            }
        }
    }

    /// The value that was read, decoded, or nothing where the store holds
    /// none. The bytes of the value, whole or joined from chunks, are handed
    /// to the type of the value to decode, and what it gives is handed on:
    /// the decoded value, or its error.
    pub fn get_value<U: Deserialize>(&self, value: ChunkedValue) -> (result: Result<
        Option<U>,
        StoreError,
    >)
        ensures
            value is Absent ==> result matches Ok(None),
            !(value is Absent) ==> !(result matches Ok(None)),
            value.bytes() matches Some(held) ==> exists|slice: &[u8], decoded: Result<U, StoreError>|
                slice@ == held && call_ensures(U::deserialize, (slice,), decoded) && (match decoded {
                    Ok(item) => result == Ok::<Option<U>, StoreError>(Some(item)),
                    Err(error) => result == Err::<Option<U>, StoreError>(error),
                }),
    {
        match value {
            ChunkedValue::Single(bytes) => match U::deserialize(bytes.as_slice()) {
                Ok(decoded) => Ok(Some(decoded)),
                Err(error) => Err(error),
            },
            ChunkedValue::Chunked { bytes, .. } => match U::deserialize(bytes.as_slice()) {
                Ok(decoded) => Ok(Some(decoded)),
                Err(error) => Err(error),
            },
            ChunkedValue::Absent => Ok(None),
        }
    }
}

} // verus!
