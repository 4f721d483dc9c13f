use vstd::prelude::*;

use crate::endian::Endian;
use crate::error::StreamError;
use crate::hash::{
    crc32_fed, crc32_hasher_finalize, crc32_hasher_new, crc32_hasher_update, crc32_of, sha1_fed,
    sha1_finalize, sha1_new, sha1_of, sha1_update, sha256_fed, sha256_finalize, sha256_new,
    sha256_of, sha256_update,
};

verus! {

use vstd::math::max;
use vstd::math::min;

/// The bytes still ahead of the cursor; empty when the cursor sits at or
/// past the end.
pub open spec fn spec_remaining(bytes: Seq<u8>, pos: u64) -> Seq<u8> {
    if pos <= bytes.len() {
        bytes.skip(pos as int)
    } else {
        Seq::<u8>::empty()
    }
}

/// The storage contents after writing `buf` at position `pos`: bytes under
/// the write are replaced, a gap between the old end and `pos` is filled
/// with zeroes, and the storage grows to `pos + buf.len()` when the write
/// reaches past the old end.
pub open spec fn spec_write_bytes(s: Seq<u8>, pos: int, buf: Seq<u8>) -> Seq<u8> {
    Seq::new(
        max(s.len() as int, pos + buf.len()) as nat,
        |i: int|
            if pos <= i < pos + buf.len() {
                buf[i - pos]
            } else if i < s.len() {
                s[i]
            } else {
                0u8
            },
    )
}

/// What an armed digest accumulator has been fed after `data` passes
/// through the write path; a disarmed one stays disarmed.
pub open spec fn spec_feed(fed: Option<Seq<u8>>, data: Seq<u8>) -> Option<Seq<u8>> {
    match fed {
        Some(s) => Some(s + data),
        None => None,
    }
}

/// Mathematical model of a storage backend: its bytes, its cursor, and the
/// bytes fed so far to each armed digest accumulator (`None` = disarmed).
pub struct DataModel {
    pub bytes: Seq<u8>,
    pub pos: u64,
    pub crc32: Option<Seq<u8>>,
    pub sha1: Option<Seq<u8>>,
    pub sha2: Option<Seq<u8>>,
}

/// A storage backend: a growable in-memory buffer with a cursor, plus the
/// optional digest accumulators that the write path feeds.
pub enum Data {
    Mem {
        crc32: Option<crc32fast::Hasher>,
        sha1: Option<sha1::Sha1>,
        sha2: Option<sha2::Sha256>,
        bytes: Vec<u8>,
        pos: u64,
    },
}

impl View for Data {
    type V = DataModel;

    open spec fn view(&self) -> DataModel {
        match self {
            Data::Mem { crc32, sha1, sha2, bytes, pos } => DataModel {
                bytes: bytes@,
                pos: *pos,
                crc32: match crc32 {
                    Some(h) => Some(crc32_fed(*h)),
                    None => None,
                },
                sha1: match sha1 {
                    Some(h) => Some(sha1_fed(*h)),
                    None => None,
                },
                sha2: match sha2 {
                    Some(h) => Some(sha256_fed(*h)),
                    None => None,
                },
            },
        }
    }
}

/// Writes `buf` into `bytes` at position `pos`, zero-filling any gap
/// between the old end and `pos`.
fn mem_write(bytes: &mut Vec<u8>, pos: usize, buf: &[u8])
    requires
        pos + buf@.len() <= usize::MAX,
    ensures
        final(bytes)@ == spec_write_bytes(old(bytes)@, pos as int, buf@),
{
    let ghost target = spec_write_bytes(old(bytes)@, pos as int, buf@);
    while bytes.len() < pos
        invariant
            pos + buf@.len() <= usize::MAX,
            old(bytes)@.len() <= bytes@.len() <= max(old(bytes)@.len() as int, pos as int),
            forall|j: int| 0 <= j < old(bytes)@.len() ==> bytes@[j] == old(bytes)@[j],
            forall|j: int| old(bytes)@.len() <= j < bytes@.len() ==> bytes@[j] == 0u8,
        decreases pos - bytes@.len(),
    {
        bytes.push(0u8);
    }
    assert(bytes@.len() == max(old(bytes)@.len() as int, pos as int));
    let mut i: usize = 0;
    while i < buf.len()
        invariant
            pos + buf@.len() <= usize::MAX,
            i <= buf@.len(),
            bytes@.len() == max(old(bytes)@.len() as int, pos + i),
            forall|j: int| 0 <= j < pos && j < old(bytes)@.len() ==> bytes@[j] == old(bytes)@[j],
            forall|j: int| 0 <= j < pos && old(bytes)@.len() <= j ==> bytes@[j] == 0u8,
            forall|j: int| pos <= j < pos + i ==> bytes@[j] == buf@[j - pos],
            forall|j: int| pos + i <= j < bytes@.len() ==> bytes@[j] == old(bytes)@[j],
        decreases buf@.len() - i,
    {
        if pos + i < bytes.len() {
            bytes.set(pos + i, buf[i]);
        } else {
            bytes.push(buf[i]);
        }
        i += 1;
    }
    assert(final(bytes)@ =~= target);
}

/// Reads up to `count` bytes at `pos`, stopping at the end of `bytes`.
fn mem_read(bytes: &Vec<u8>, pos: u64, count: usize) -> (r: Vec<u8>)
    ensures
        r@ == spec_remaining(bytes@, pos).take(
            min(count as int, spec_remaining(bytes@, pos).len() as int),
        ),
{
    let mut out: Vec<u8> = Vec::new();
    if pos >= bytes.len() as u64 {
        assert(out@ =~= spec_remaining(bytes@, pos).take(
            min(count as int, spec_remaining(bytes@, pos).len() as int),
        ));
        return out;
    }
    let start = pos as usize;
    let avail = bytes.len() - start;
    assert(bytes.len() == bytes@.len());
    let mut i: usize = 0;
    while i < count && i < avail
        invariant
            bytes@.len() <= usize::MAX,
            start == pos,
            start <= bytes@.len(),
            avail == bytes@.len() - start,
            i <= count,
            i <= avail,
            out@ =~= spec_remaining(bytes@, pos).take(i as int),
        decreases count - i,
    {
        out.push(bytes[start + i]);
        i += 1;
    }
    assert(out@ =~= spec_remaining(bytes@, pos).take(
        min(count as int, spec_remaining(bytes@, pos).len() as int),
    ));
    out
}

impl Data {
    /// The cursor position.
    pub fn position(&self) -> (r: u64)
        ensures
            r == self@.pos,
    {
        match self {
            Data::Mem { pos, .. } => *pos,
        }
    }

    /// Moves the cursor to an absolute position.
    pub fn seek(&mut self, pos: u64) -> (r: Result<u64, StreamError>)
        ensures
            r == Ok::<u64, StreamError>(pos),
            final(self)@ == (DataModel { pos, ..old(self)@ }),
    {
        match self {
            Data::Mem { pos: p, .. } => {
                *p = pos;
            },
        }
        Ok(pos)
    }

    /// The physical size of the backing storage.
    pub fn len_bytes(&self) -> (r: usize)
        ensures
            r == self@.bytes.len(),
    {
        match self {
            Data::Mem { bytes, .. } => bytes.len(),
        }
    }

    /// Reads up to `count` bytes at the cursor and advances it by the
    /// number of bytes read.
    pub fn read(&mut self, count: usize) -> (r: Vec<u8>)
        ensures
            r@ == spec_remaining(old(self)@.bytes, old(self)@.pos).take(
                min(count as int, spec_remaining(old(self)@.bytes, old(self)@.pos).len() as int),
            ),
            final(self)@ == (DataModel {
                pos: (old(self)@.pos + r@.len()) as u64,
                ..old(self)@
            }),
    {
        match self {
            Data::Mem { bytes, pos, .. } => {
                let r = mem_read(bytes, *pos, count);
                proof {
                    assert(bytes.len() == bytes@.len());
                    if *pos <= bytes@.len() {
                        assert(r@.len() <= spec_remaining(bytes@, *pos).len());
                    } else {
                        assert(spec_remaining(bytes@, *pos).len() == 0);
                    }
                }
                *pos = *pos + r.len() as u64;
                r
            },
        }
    }

    /// Writes all of `buf` at the cursor, feeding every armed digest
    /// accumulator, growing the storage as needed, and advancing the
    /// cursor past the written bytes.
    pub fn write(&mut self, buf: &[u8]) -> (r: Result<usize, StreamError>)
        requires
            old(self)@.pos + buf@.len() <= usize::MAX,
        ensures
            r == Ok::<usize, StreamError>(buf@.len() as usize),
            final(self)@.bytes == spec_write_bytes(old(self)@.bytes, old(self)@.pos as int, buf@),
            final(self)@.pos == old(self)@.pos + buf@.len(),
            final(self)@.crc32 == spec_feed(old(self)@.crc32, buf@),
            final(self)@.sha1 == spec_feed(old(self)@.sha1, buf@),
            final(self)@.sha2 == spec_feed(old(self)@.sha2, buf@),
    {
        self.hash_update(buf)?;
        match self {
            Data::Mem { bytes, pos, .. } => {
                let p = *pos as usize;
                mem_write(bytes, p, buf);
                *pos = *pos + buf.len() as u64;
            },
        }
        Ok(buf.len())
    }

    /// Flushes the storage; the in-memory buffer has nothing to flush.
    pub fn flush(&mut self) -> (r: Result<(), StreamError>)
        ensures
            r == Ok::<(), StreamError>(()),
            final(self)@ == old(self)@,
    {
        Ok(())
    }

    /// Truncates the storage to at most `len` bytes; a no-op when it is
    /// already shorter. The cursor does not move.
    pub fn truncate(&mut self, len: usize)
        ensures
            final(self)@ == (DataModel {
                bytes: old(self)@.bytes.take(
                    min(len as int, old(self)@.bytes.len() as int),
                ),
                ..old(self)@
            }),
    {
        match self {
            Data::Mem { bytes, .. } => {
                bytes.truncate(len);
                assert(bytes@ =~= old(self)@.bytes.take(
                    min(len as int, old(self)@.bytes.len() as int),
                ));
            },
        }
    }

    /// Empties the storage and rewinds the cursor; armed accumulators are
    /// not disturbed.
    pub fn clear(&mut self) -> (r: Result<(), StreamError>)
        ensures
            r == Ok::<(), StreamError>(()),
            final(self)@ == (DataModel { bytes: Seq::<u8>::empty(), pos: 0u64, ..old(self)@ }),
    {
        match self {
            Data::Mem { bytes, pos, .. } => {
                *pos = 0;
                bytes.clear();
            },
        }
        Ok(())
    }

    /// Arms the SHA-1 and SHA-256 accumulators with fresh state.
    pub fn init_sha(&mut self)
        ensures
            final(self)@ == (DataModel {
                sha1: Some(Seq::<u8>::empty()),
                sha2: Some(Seq::<u8>::empty()),
                ..old(self)@
            }),
    {
        match self {
            Data::Mem { sha1, sha2, .. } => {
                *sha1 = Some(sha1_new());
                *sha2 = Some(sha256_new());
            },
        }
    }

    /// Arms the CRC32 accumulator with fresh state.
    pub fn init_crc32(&mut self)
        ensures
            final(self)@ == (DataModel { crc32: Some(Seq::<u8>::empty()), ..old(self)@ }),
    {
        match self {
            Data::Mem { crc32, .. } => {
                *crc32 = Some(crc32_hasher_new());
            },
        }
    }

    /// Feeds `data` to every armed digest accumulator, once each.
    pub fn hash_update(&mut self, data: &[u8]) -> (r: Result<(), StreamError>)
        ensures
            r == Ok::<(), StreamError>(()),
            final(self)@ == (DataModel {
                crc32: spec_feed(old(self)@.crc32, data@),
                sha1: spec_feed(old(self)@.sha1, data@),
                sha2: spec_feed(old(self)@.sha2, data@),
                ..old(self)@
            }),
    {
        match self {
            Data::Mem { crc32, sha1, sha2, .. } => {
                if let Some(h) = crc32 {
                    crc32_hasher_update(h, data);
                }
                if let Some(h) = sha1 {
                    sha1_update(h, data);
                }
                if let Some(h) = sha2 {
                    sha256_update(h, data);
                }
            },
        }
        Ok(())
    }

    /// Finalizes and disarms the CRC32 accumulator; 0 once consumed.
    pub fn crc32_value(&mut self) -> (r: u32)
        ensures
            final(self)@ == (DataModel { crc32: None, ..old(self)@ }),
            match old(self)@.crc32 {
                Some(fed) => r == crc32_of(fed),
                None => r == 0u32,
            },
    {
        match self {
            Data::Mem { crc32, .. } => {
                if let Some(h) = crc32.take() {
                    return crc32_hasher_finalize(h);
                }
            },
        }
        0
    }

    /// Finalizes and disarms the SHA-1 accumulator; empty once consumed.
    pub fn sha1_value(&mut self) -> (r: Vec<u8>)
        ensures
            final(self)@ == (DataModel { sha1: None, ..old(self)@ }),
            match old(self)@.sha1 {
                Some(fed) => r@ == sha1_of(fed),
                None => r@ == Seq::<u8>::empty(),
            },
    {
        match self {
            Data::Mem { sha1, .. } => {
                if let Some(h) = sha1.take() {
                    return sha1_finalize(h);
                }
            },
        }
        Vec::new()
    }

    /// Finalizes and disarms the SHA-256 accumulator; empty once consumed.
    pub fn sha2_value(&mut self) -> (r: Vec<u8>)
        ensures
            final(self)@ == (DataModel { sha2: None, ..old(self)@ }),
            match old(self)@.sha2 {
                Some(fed) => r@ == sha256_of(fed),
                None => r@ == Seq::<u8>::empty(),
            },
    {
        match self {
            Data::Mem { sha2, .. } => {
                if let Some(h) = sha2.take() {
                    return sha256_finalize(h);
                }
            },
        }
        Vec::new()
    }

    /// A physically independent copy of the bytes with a rewound cursor
    /// and no armed accumulators.
    pub fn clone(&mut self) -> (r: Result<Data, StreamError>)
        ensures
            final(self)@ == old(self)@,
            r matches Ok(d) && d@ == (DataModel {
                bytes: old(self)@.bytes,
                pos: 0u64,
                crc32: None,
                sha1: None,
                sha2: None,
            }),
    {
        match self {
            Data::Mem { bytes, .. } => Ok(
                Data::Mem {
                    crc32: None,
                    sha1: None,
                    sha2: None,
                    bytes: bytes.clone(),
                    pos: 0,
                },
            ),
        }
    }

    /// An owned copy of the whole storage, cursor untouched.
    pub fn copy_data(&mut self) -> (r: Result<Vec<u8>, StreamError>)
        ensures
            final(self)@ == old(self)@,
            r matches Ok(v) && v@ == old(self)@.bytes,
    {
        match self {
            Data::Mem { bytes, .. } => Ok(bytes.clone()),
        }
    }
}

impl Data {
    /// A memory backend over an existing buffer, cursor at the start and
    /// no armed accumulators.
    pub fn from_vec(value: Vec<u8>) -> (r: Data)
        ensures
            r@ == (DataModel {
                bytes: value@,
                pos: 0u64,
                crc32: None::<Seq<u8>>,
                sha1: None::<Seq<u8>>,
                sha2: None::<Seq<u8>>,
            }),
    {
        Data::Mem { crc32: None, sha1: None, sha2: None, bytes: value, pos: 0 }
    }
}

} // verus!

verus! {

/// Mathematical model of a whole stream.
pub struct StreamModel {
    pub bytes: Seq<u8>,
    pub pos: u64,
    pub endian: Endian,
    /// The tracked length; well-formed streams keep it equal to the
    /// physical size of the storage.
    pub length: u64,
    /// Saved cursor positions, most recent last.
    pub pins: Seq<u64>,
    pub crc32: Option<Seq<u8>>,
    pub sha1: Option<Seq<u8>>,
    pub sha2: Option<Seq<u8>>,
}

impl StreamModel {
    /// The bytes still ahead of the cursor.
    pub open spec fn remaining(self) -> Seq<u8> {
        spec_remaining(self.bytes, self.pos)
    }

    /// The tracked length agrees with the physical size of the storage.
    pub open spec fn wf(self) -> bool {
        self.length == self.bytes.len()
    }
}

/// A seekable, readable, writable byte stream over a storage backend,
/// with an endianness setting for the typed codec, a tracked length, and
/// a stack of pinned cursor positions.
pub struct Stream {
    pub data: Data,
    pub endian: Endian,
    pub length: u64,
    pub pins: Vec<u64>,
}

impl View for Stream {
    type V = StreamModel;

    open spec fn view(&self) -> StreamModel {
        StreamModel {
            bytes: self.data@.bytes,
            pos: self.data@.pos,
            endian: self.endian,
            length: self.length,
            pins: self.pins@,
            crc32: self.data@.crc32,
            sha1: self.data@.sha1,
            sha2: self.data@.sha2,
        }
    }
}

impl Stream {
    /// The tracked length equals the physical size of the storage; every
    /// constructor establishes this and every operation preserves it.
    pub open spec fn wf(&self) -> bool {
        self@.wf()
    }

    /// A stream over an existing backend; the tracked length starts at the
    /// backend's physical size and the cursor stays where the backend's is.
    pub fn new(data: Data) -> (r: Stream)
        ensures
            r.wf(),
            r@ == (StreamModel {
                bytes: data@.bytes,
                pos: data@.pos,
                endian: Endian::Little,
                length: data@.bytes.len() as u64,
                pins: Seq::<u64>::empty(),
                crc32: data@.crc32,
                sha1: data@.sha1,
                sha2: data@.sha2,
            }),
    {
        let length = data.len_bytes() as u64;
        Stream { data, endian: Endian::Little, length, pins: Vec::new() }
    }

    /// An empty memory-backed stream.
    pub fn empty() -> (r: Stream)
        ensures
            r.wf(),
            r@ == (StreamModel {
                bytes: Seq::<u8>::empty(),
                pos: 0u64,
                endian: Endian::Little,
                length: 0u64,
                pins: Seq::<u64>::empty(),
                crc32: None::<Seq<u8>>,
                sha1: None::<Seq<u8>>,
                sha2: None::<Seq<u8>>,
            }),
    {
        Stream::new(Data::from_vec(Vec::new()))
    }

    /// An empty memory-backed stream whose buffer starts with room for
    /// `value` bytes.
    pub fn capacity(value: usize) -> (r: Stream)
        ensures
            r.wf(),
            r@ == (StreamModel {
                bytes: Seq::<u8>::empty(),
                pos: 0u64,
                endian: Endian::Little,
                length: 0u64,
                pins: Seq::<u64>::empty(),
                crc32: None::<Seq<u8>>,
                sha1: None::<Seq<u8>>,
                sha2: None::<Seq<u8>>,
            }),
    {
        Stream::new(Data::from_vec(Vec::with_capacity(value)))
    }

    /// The tracked length, without touching the storage.
    pub fn length(&self) -> (r: u64)
        ensures
            r == self@.length,
    {
        self.length
    }

    /// True when the tracked length is zero.
    pub fn is_empty(&self) -> (r: bool)
        ensures
            r == (self@.length == 0),
    {
        self.length == 0
    }

    /// Sets the byte order used by subsequent typed encodes and decodes.
    pub fn with_endian(&mut self, endian: Endian)
        ensures
            final(self)@ == (StreamModel { endian, ..old(self)@ }),
    {
        self.endian = endian;
    }

    /// The byte order currently in force for typed encodes and decodes.
    pub fn get_endianness(&self) -> (r: Endian)
        ensures
            r == self@.endian,
    {
        self.endian
    }

    /// Switches subsequent typed encodes and decodes to little-endian.
    pub fn with_little_endian(&mut self)
        ensures
            final(self)@ == (StreamModel { endian: Endian::Little, ..old(self)@ }),
    {
        self.endian = Endian::Little;
    }

    /// Switches subsequent typed encodes and decodes to big-endian.
    pub fn with_big_endian(&mut self)
        ensures
            final(self)@ == (StreamModel { endian: Endian::Big, ..old(self)@ }),
    {
        self.endian = Endian::Big;
    }

    /// Moves the cursor to an absolute position.
    pub fn seek(&mut self, pos: u64) -> (r: Result<u64, StreamError>)
        ensures
            r == Ok::<u64, StreamError>(pos),
            final(self)@ == (StreamModel { pos, ..old(self)@ }),
    {
        self.data.seek(pos)
    }

    /// Rewinds the cursor to the start.
    pub fn seek_start(&mut self) -> (r: Result<(), StreamError>)
        ensures
            r == Ok::<(), StreamError>(()),
            final(self)@ == (StreamModel { pos: 0u64, ..old(self)@ }),
    {
        self.data.seek(0)?;
        Ok(())
    }

    /// Moves the cursor to the end of the content.
    pub fn seek_end(&mut self) -> (r: Result<u64, StreamError>)
        ensures
            r == Ok::<u64, StreamError>(old(self)@.length),
            final(self)@ == (StreamModel { pos: old(self)@.length, ..old(self)@ }),
    {
        let end = self.length;
        self.data.seek(end)
    }

    /// Reads up to `count` bytes at the cursor, advancing it by the number
    /// of bytes actually read; short when the content runs out first.
    pub fn read(&mut self, count: usize) -> (r: Vec<u8>)
        ensures
            r@ == old(self)@.remaining().take(
                min(count as int, old(self)@.remaining().len() as int),
            ),
            final(self)@ == (StreamModel {
                pos: (old(self)@.pos + r@.len()) as u64,
                ..old(self)@
            }),
    {
        self.data.read(count)
    }

    /// Writes all of `buf` at the cursor. The tracked length afterwards is
    /// the larger of its old value and the end of the written range: a
    /// write inside the existing content keeps it, a write at or past the
    /// end grows it by exactly the overflow.
    pub fn write(&mut self, buf: &[u8]) -> (r: Result<usize, StreamError>)
        requires
            old(self).wf(),
            old(self)@.pos + buf@.len() <= usize::MAX,
        ensures
            final(self).wf(),
            r == Ok::<usize, StreamError>(buf@.len() as usize),
            final(self)@.bytes == spec_write_bytes(
                old(self)@.bytes,
                old(self)@.pos as int,
                buf@,
            ),
            final(self)@.pos == old(self)@.pos + buf@.len(),
            final(self)@.length == max(old(self)@.length as int, old(self)@.pos + buf@.len()),
            final(self)@.endian == old(self)@.endian,
            final(self)@.pins == old(self)@.pins,
            final(self)@.crc32 == spec_feed(old(self)@.crc32, buf@),
            final(self)@.sha1 == spec_feed(old(self)@.sha1, buf@),
            final(self)@.sha2 == spec_feed(old(self)@.sha2, buf@),
    {
        let position = self.data.position();
        let bytes = self.data.write(buf)?;
        let end = position + bytes as u64;
        if end > self.length {
            self.length = end;
        }
        Ok(bytes)
    }

    /// Flushes the storage; nothing is buffered for the memory backend.
    pub fn flush(&mut self) -> (r: Result<(), StreamError>)
        ensures
            r == Ok::<(), StreamError>(()),
            final(self)@ == old(self)@,
    {
        self.data.flush()
    }
}

} // verus!

verus! {

use crate::pin::Pin;

/// What finalizing the CRC32 accumulator returns and leaves behind: the
/// digest of the bytes fed (0 when none is armed), and a stream whose
/// accumulator is disarmed.
pub open spec fn spec_crc32_take(m: StreamModel) -> (u32, StreamModel) {
    (
        match m.crc32 {
            Some(fed) => crc32_of(fed),
            None => 0u32,
        },
        StreamModel { crc32: None::<Seq<u8>>, ..m },
    )
}

/// Digest consumption: finalizing an armed CRC32 accumulator returns the
/// digest of exactly the bytes fed to it, and finalizing again without
/// re-arming returns 0.
pub proof fn lemma_crc32_consumed(m: StreamModel, fed: Seq<u8>)
    requires
        m.crc32 == Some(fed),
    ensures
        spec_crc32_take(m).0 == crc32_of(fed),
        spec_crc32_take(spec_crc32_take(m).1).0 == 0u32,
{
}

/// Length invariant: a write of `buf` at cursor position `m.pos` leaves
/// the storage, and with it the tracked length, at the larger of the old
/// length and the end of the written range.
pub proof fn lemma_write_length_invariant(m: StreamModel, buf: Seq<u8>)
    requires
        m.wf(),
    ensures
        spec_write_bytes(m.bytes, m.pos as int, buf).len() == max(
            m.length as int,
            m.pos + buf.len(),
        ),
{
}

impl Stream {
    /// Arms the SHA-1 and SHA-256 accumulators; every byte written from
    /// now on is fed to them.
    pub fn init_sha(&mut self)
        ensures
            final(self)@ == (StreamModel {
                sha1: Some(Seq::<u8>::empty()),
                sha2: Some(Seq::<u8>::empty()),
                ..old(self)@
            }),
    {
        self.data.init_sha();
    }

    /// Arms the CRC32 accumulator; every byte written from now on is fed
    /// to it.
    pub fn init_crc32(&mut self)
        ensures
            final(self)@ == (StreamModel { crc32: Some(Seq::<u8>::empty()), ..old(self)@ }),
    {
        self.data.init_crc32();
    }

    /// Finalizes and disarms the CRC32 accumulator, returning the digest
    /// of everything fed to it; once consumed it yields 0 until re-armed.
    pub fn crc32_value(&mut self) -> (r: u32)
        ensures
            (r, final(self)@) == spec_crc32_take(old(self)@),
    {
        self.data.crc32_value()
    }

    /// Finalizes and disarms the SHA-1 accumulator, returning the digest
    /// of everything fed to it; once consumed it yields an empty vector
    /// until re-armed.
    pub fn sha1_value(&mut self) -> (r: Vec<u8>)
        ensures
            final(self)@ == (StreamModel { sha1: None::<Seq<u8>>, ..old(self)@ }),
            match old(self)@.sha1 {
                Some(fed) => r@ == sha1_of(fed),
                None => r@ == Seq::<u8>::empty(),
            },
    {
        self.data.sha1_value()
    }

    /// Finalizes and disarms the SHA-256 accumulator, returning the digest
    /// of everything fed to it; once consumed it yields an empty vector
    /// until re-armed.
    pub fn sha2_value(&mut self) -> (r: Vec<u8>)
        ensures
            final(self)@ == (StreamModel { sha2: None::<Seq<u8>>, ..old(self)@ }),
            match old(self)@.sha2 {
                Some(fed) => r@ == sha256_of(fed),
                None => r@ == Seq::<u8>::empty(),
            },
    {
        self.data.sha2_value()
    }

    /// Empties the storage, resets the tracked length and cursor, and
    /// clears the pin stack; armed accumulators keep what they were fed.
    pub fn clear(&mut self) -> (r: Result<(), StreamError>)
        ensures
            r == Ok::<(), StreamError>(()),
            final(self).wf(),
            final(self)@ == (StreamModel {
                bytes: Seq::<u8>::empty(),
                pos: 0u64,
                length: 0u64,
                pins: Seq::<u64>::empty(),
                ..old(self)@
            }),
    {
        self.data.clear()?;
        self.length = 0;
        self.pins.clear();
        Ok(())
    }

    /// Streams the entire current content through every armed accumulator
    /// in bounded chunks, restoring the cursor afterwards; used when
    /// accumulators are armed after the data already exists.
    pub fn hash_computer(&mut self) -> (r: Result<(), StreamError>)
        ensures
            r == Ok::<(), StreamError>(()),
            final(self)@ == (StreamModel {
                crc32: spec_feed(old(self)@.crc32, old(self)@.bytes),
                sha1: spec_feed(old(self)@.sha1, old(self)@.bytes),
                sha2: spec_feed(old(self)@.sha2, old(self)@.bytes),
                ..old(self)@
            }),
    {
        self.pin()?;
        self.seek_start()?;
        let blen = self.data.len_bytes();
        assert(self@.bytes.len() <= usize::MAX);
        let ghost orig = self@;
        loop
            invariant
                orig.bytes.len() <= usize::MAX,
                self@.bytes == orig.bytes,
                self@.endian == orig.endian,
                self@.length == orig.length,
                self@.pins == orig.pins,
                self@.pos <= self@.bytes.len(),
                self@.crc32 == spec_feed(orig.crc32, orig.bytes.take(self@.pos as int)),
                self@.sha1 == spec_feed(orig.sha1, orig.bytes.take(self@.pos as int)),
                self@.sha2 == spec_feed(orig.sha2, orig.bytes.take(self@.pos as int)),
            ensures
                self@.bytes == orig.bytes,
                self@.endian == orig.endian,
                self@.length == orig.length,
                self@.pins == orig.pins,
                self@.crc32 == spec_feed(orig.crc32, orig.bytes),
                self@.sha1 == spec_feed(orig.sha1, orig.bytes),
                self@.sha2 == spec_feed(orig.sha2, orig.bytes),
            decreases self@.bytes.len() - self@.pos,
        {
            let ghost pos_before = self@.pos;
            let chunk = self.read(4096);
            if chunk.len() == 0 {
                proof {
                    assert(self@.pos == pos_before);
                    assert(spec_remaining(orig.bytes, pos_before).len() == 0);
                    assert(self@.pos == self@.bytes.len());
                    assert(orig.bytes.take(self@.pos as int) =~= orig.bytes);
                }
                break;
            }
            self.data.hash_update(chunk.as_slice())?;
            proof {
                let t1 = orig.bytes.take(pos_before as int);
                let t2 = orig.bytes.take(self@.pos as int);
                assert(chunk@.len() <= spec_remaining(orig.bytes, pos_before).len());
                assert(pos_before + chunk@.len() <= orig.bytes.len());
                assert(self@.pos == pos_before + chunk@.len());
                assert(t1.len() + chunk@.len() == t2.len());
                assert forall|i: int| 0 <= i < t2.len() implies (t1 + chunk@)[i] == t2[i] by {
                    if i >= pos_before {
                        assert(chunk@[i - pos_before] == spec_remaining(orig.bytes, pos_before)[
                            i - pos_before
                        ]);
                    }
                }
                assert(t1 + chunk@ =~= t2);
                match orig.crc32 {
                    Some(f) => {
                        assert((f + t1) + chunk@ =~= f + t2);
                    },
                    None => {},
                }
                match orig.sha1 {
                    Some(f) => {
                        assert((f + t1) + chunk@ =~= f + t2);
                    },
                    None => {},
                }
                match orig.sha2 {
                    Some(f) => {
                        assert((f + t1) + chunk@ =~= f + t2);
                    },
                    None => {},
                }
            }
        }
        self.un_pin()?;
        proof {
            assert(old(self)@.pins.push(old(self)@.pos).last() == old(self)@.pos);
            assert(old(self)@.pins.push(old(self)@.pos).drop_last() =~= old(self)@.pins);
        }
        Ok(())
    }
}

} // verus!

verus! {

/// Writing `b1` at `pos` and then `b2` right after it is one write of
/// `b1 + b2` at `pos`.
pub proof fn lemma_spec_write_bytes_append(s: Seq<u8>, pos: int, b1: Seq<u8>, b2: Seq<u8>)
    requires
        pos >= 0,
    ensures
        spec_write_bytes(spec_write_bytes(s, pos, b1), pos + b1.len(), b2) == spec_write_bytes(
            s,
            pos,
            b1 + b2,
        ),
{
    let lhs = spec_write_bytes(spec_write_bytes(s, pos, b1), pos + b1.len(), b2);
    let rhs = spec_write_bytes(s, pos, b1 + b2);
    assert forall|i: int| 0 <= i < lhs.len() implies lhs[i] == rhs[i] by {}
    assert(lhs =~= rhs);
}

/// Feeding `b1` and then `b2` to an accumulator is one feed of `b1 + b2`.
pub proof fn lemma_spec_feed_append(fed: Option<Seq<u8>>, b1: Seq<u8>, b2: Seq<u8>)
    ensures
        spec_feed(spec_feed(fed, b1), b2) == spec_feed(fed, b1 + b2),
{
    match fed {
        Some(f) => {
            assert((f + b1) + b2 =~= f + (b1 + b2));
        },
        None => {},
    }
}

impl Stream {
    /// An independent copy of this stream: same bytes and endianness,
    /// fresh cursor at the start, empty pin stack, no armed accumulators.
    /// The source is left untouched.
    pub fn clone_stream(&mut self) -> (r: Result<Stream, StreamError>)
        ensures
            final(self)@ == old(self)@,
            r matches Ok(s) && s@ == (StreamModel {
                bytes: old(self)@.bytes,
                pos: 0u64,
                endian: old(self)@.endian,
                length: old(self)@.bytes.len() as u64,
                pins: Seq::<u64>::empty(),
                crc32: None::<Seq<u8>>,
                sha1: None::<Seq<u8>>,
                sha2: None::<Seq<u8>>,
            }),
    {
        let data = self.data.clone()?;
        let mut s = Stream::new(data);
        let endian = self.endian;
        s.with_endian(endian);
        Ok(s)
    }

    /// An independent copy; see `clone_stream`.
    pub fn clone(&mut self) -> (r: Result<Stream, StreamError>)
        ensures
            final(self)@ == old(self)@,
            r matches Ok(s) && s@ == (StreamModel {
                bytes: old(self)@.bytes,
                pos: 0u64,
                endian: old(self)@.endian,
                length: old(self)@.bytes.len() as u64,
                pins: Seq::<u64>::empty(),
                crc32: None::<Seq<u8>>,
                sha1: None::<Seq<u8>>,
                sha2: None::<Seq<u8>>,
            }),
    {
        self.clone_stream()
    }

    /// Reads `size` bytes at the cursor into a new independent stream with
    /// the same endianness; fails with `InsufficientSource`, moving
    /// nothing, when fewer than `size` bytes remain.
    pub fn copy_size(&mut self, size: usize) -> (r: Result<Stream, StreamError>)
        ensures
            old(self)@.pos + size <= old(self)@.bytes.len() ==> {
                &&& final(self)@ == (StreamModel {
                    pos: (old(self)@.pos + size) as u64,
                    ..old(self)@
                })
                &&& r matches Ok(s) && s@ == (StreamModel {
                    bytes: old(self)@.bytes.subrange(
                        old(self)@.pos as int,
                        old(self)@.pos + size,
                    ),
                    pos: 0u64,
                    endian: old(self)@.endian,
                    length: size as u64,
                    pins: Seq::<u64>::empty(),
                    crc32: None::<Seq<u8>>,
                    sha1: None::<Seq<u8>>,
                    sha2: None::<Seq<u8>>,
                })
            },
            old(self)@.pos + size > old(self)@.bytes.len() ==> {
                &&& final(self)@ == old(self)@
                &&& r == Err::<Stream, StreamError>(StreamError::InsufficientSource)
            },
    {
        let len = self.data.len_bytes();
        let pos = self.data.position();
        if pos > len as u64 || size as u64 > len as u64 - pos {
            return Err(StreamError::InsufficientSource);
        }
        let bytes = self.read(size);
        proof {
            assert(bytes@ =~= old(self)@.bytes.subrange(
                old(self)@.pos as int,
                old(self)@.pos + size,
            ));
        }
        let mut s = Stream::new(Data::from_vec(bytes));
        let endian = self.endian;
        s.with_endian(endian);
        Ok(s)
    }

    /// A fresh empty stream with the same kind of backing and the same
    /// endianness as this one.
    pub fn copy_empty(&self) -> (r: Result<Stream, StreamError>)
        ensures
            r matches Ok(s) && s@ == (StreamModel {
                bytes: Seq::<u8>::empty(),
                pos: 0u64,
                endian: self@.endian,
                length: 0u64,
                pins: Seq::<u64>::empty(),
                crc32: None::<Seq<u8>>,
                sha1: None::<Seq<u8>>,
                sha2: None::<Seq<u8>>,
            }),
    {
        let mut s = Stream::empty();
        let endian = self.endian;
        s.with_endian(endian);
        Ok(s)
    }

    /// A fresh empty stream like `copy_empty`, with room reserved for
    /// `capacity` bytes.
    pub fn copy_empty_with_capacity(&self, capacity: usize) -> (r: Result<Stream, StreamError>)
        ensures
            r matches Ok(s) && s@ == (StreamModel {
                bytes: Seq::<u8>::empty(),
                pos: 0u64,
                endian: self@.endian,
                length: 0u64,
                pins: Seq::<u64>::empty(),
                crc32: None::<Seq<u8>>,
                sha1: None::<Seq<u8>>,
                sha2: None::<Seq<u8>>,
            }),
    {
        let mut s = Stream::capacity(capacity);
        let endian = self.endian;
        s.with_endian(endian);
        Ok(s)
    }

    /// A fresh empty stream like `copy_empty`, with room reserved for as
    /// many bytes as this one currently holds.
    pub fn copy_empty_same_capacity(&self) -> (r: Result<Stream, StreamError>)
        ensures
            r matches Ok(s) && s@ == (StreamModel {
                bytes: Seq::<u8>::empty(),
                pos: 0u64,
                endian: self@.endian,
                length: 0u64,
                pins: Seq::<u64>::empty(),
                crc32: None::<Seq<u8>>,
                sha1: None::<Seq<u8>>,
                sha2: None::<Seq<u8>>,
            }),
    {
        let cap = self.data.len_bytes();
        let mut s = Stream::capacity(cap);
        let endian = self.endian;
        s.with_endian(endian);
        Ok(s)
    }
}

} // verus!

verus! {

impl Stream {
    /// Copies `size` bytes from `stream`'s cursor to this stream's cursor
    /// in bounded chunks, going through the write path (so armed
    /// accumulators see every byte and the length invariant holds). Fails
    /// with `InsufficientSource`, moving nothing, when `stream` has fewer
    /// than `size` bytes left.
    pub fn copy_size_from(&mut self, stream: &mut Stream, size: usize) -> (r: Result<
        (),
        StreamError,
    >)
        requires
            old(self).wf(),
            old(self)@.pos + size <= usize::MAX,
        ensures
            size == 0 ==> {
                &&& r == Ok::<(), StreamError>(())
                &&& final(self)@ == old(self)@
                &&& final(stream)@ == old(stream)@
            },
            size > 0 && old(stream)@.remaining().len() >= size ==> {
                let taken = old(stream)@.remaining().take(size as int);
                &&& r == Ok::<(), StreamError>(())
                &&& final(self).wf()
                &&& final(self)@.bytes == spec_write_bytes(
                    old(self)@.bytes,
                    old(self)@.pos as int,
                    taken,
                )
                &&& final(self)@.pos == old(self)@.pos + size
                &&& final(self)@.length == max(old(self)@.length as int, old(self)@.pos + size)
                &&& final(self)@.endian == old(self)@.endian
                &&& final(self)@.pins == old(self)@.pins
                &&& final(self)@.crc32 == spec_feed(old(self)@.crc32, taken)
                &&& final(self)@.sha1 == spec_feed(old(self)@.sha1, taken)
                &&& final(self)@.sha2 == spec_feed(old(self)@.sha2, taken)
                &&& final(stream)@ == (StreamModel {
                    pos: (old(stream)@.pos + size) as u64,
                    ..old(stream)@
                })
            },
            old(stream)@.remaining().len() < size ==> {
                &&& r == Err::<(), StreamError>(StreamError::InsufficientSource)
                &&& final(self)@ == old(self)@
                &&& final(stream)@ == old(stream)@
            },
    {
        if size == 0 {
            return Ok(());
        }
        let slen = stream.data.len_bytes();
        let spos = stream.data.position();
        if spos > slen as u64 || (size as u64) > slen as u64 - spos {
            assert(old(stream)@.remaining().len() < size);
            return Err(StreamError::InsufficientSource);
        }
        assert(old(stream)@.remaining().len() >= size);
        let ghost taken = stream@.remaining().take(size as int);
        let ghost self0 = self@;
        let ghost stream0 = stream@;
        let mut copied: usize = 0;
        while copied < size
            invariant
                self0.wf(),
                copied <= size,
                0 < size,
                self0.pos + size <= usize::MAX,
                stream0.pos + size <= stream0.bytes.len(),
                stream0.bytes.len() <= usize::MAX,
                taken == stream0.remaining().take(size as int),
                stream@ == (StreamModel { pos: (stream0.pos + copied) as u64, ..stream0 }),
                self.wf(),
                copied == 0 ==> self@ == self0,
                copied > 0 ==> {
                    &&& self@.bytes == spec_write_bytes(
                        self0.bytes,
                        self0.pos as int,
                        taken.take(copied as int),
                    )
                    &&& self@.pos == self0.pos + copied
                    &&& self@.length == max(self0.length as int, self0.pos + copied)
                    &&& self@.endian == self0.endian
                    &&& self@.pins == self0.pins
                    &&& self@.crc32 == spec_feed(self0.crc32, taken.take(copied as int))
                    &&& self@.sha1 == spec_feed(self0.sha1, taken.take(copied as int))
                    &&& self@.sha2 == spec_feed(self0.sha2, taken.take(copied as int))
                },
            decreases size - copied,
        {
            let ghost copied0 = copied as int;
            let want = size - copied;
            let ask = if want < 4096 { want } else { 4096 };
            let chunk = stream.read(ask);
            proof {
                let shifted = spec_remaining(stream0.bytes, (stream0.pos + copied0) as u64);
                assert forall|j: int|
                    0 <= j < stream0.bytes.len() - stream0.pos - copied0 implies shifted[j]
                    == stream0.remaining().skip(copied0)[j] by {}
                assert(shifted =~= stream0.remaining().skip(copied0));
                assert(chunk@.len() == ask);
            }
            self.write(chunk.as_slice())?;
            copied += ask;
            proof {
                let t1 = taken.take(copied0);
                assert forall|j: int| 0 <= j < copied0 + ask implies (t1 + chunk@)[j] == taken.take(
                    copied0 + ask,
                )[j] by {
                    if j >= copied0 {
                        assert(chunk@[j - copied0] == stream0.remaining().skip(copied0).take(
                            ask as int,
                        )[j - copied0]);
                        assert(chunk@[j - copied0] == stream0.remaining()[j]);
                    }
                }
                assert(t1 + chunk@ =~= taken.take(copied0 + ask));
                if copied0 == 0 {
                    assert(chunk@ =~= taken.take(copied0 + ask));
                } else {
                    lemma_spec_write_bytes_append(self0.bytes, self0.pos as int, t1, chunk@);
                    lemma_spec_feed_append(self0.crc32, t1, chunk@);
                    lemma_spec_feed_append(self0.sha1, t1, chunk@);
                    lemma_spec_feed_append(self0.sha2, t1, chunk@);
                }
            }
        }
        proof {
            assert(taken.take(size as int) =~= taken);
        }
        Ok(())
    }
}

} // verus!

verus! {

impl Data {
    /// Takes the whole buffer out, leaving the storage empty; the cursor
    /// does not move.
    pub fn take_bytes(&mut self) -> (r: Vec<u8>)
        ensures
            r@ == old(self)@.bytes,
            final(self)@ == (DataModel { bytes: Seq::<u8>::empty(), ..old(self)@ }),
    {
        match self {
            Data::Mem { bytes, .. } => {
                let mut out: Vec<u8> = Vec::new();
                core::mem::swap(bytes, &mut out);
                out
            },
        }
    }
}

} // verus!

verus! {

/// Rebuilds `bytes` as prefix + `data` + suffix around position `pos`.
fn mem_insert(bytes: &mut Vec<u8>, pos: usize, data: &[u8])
    requires
        pos <= old(bytes)@.len(),
        old(bytes)@.len() + data@.len() <= usize::MAX,
    ensures
        final(bytes)@ == old(bytes)@.take(pos as int) + data@ + old(bytes)@.skip(pos as int),
{
    let mut out: Vec<u8> = Vec::new();
    let mut i: usize = 0;
    while i < pos
        invariant
            pos <= bytes@.len(),
            bytes@ == old(bytes)@,
            i <= pos,
            out@ =~= old(bytes)@.take(i as int),
        decreases pos - i,
    {
        out.push(bytes[i]);
        i += 1;
    }
    let mut j: usize = 0;
    while j < data.len()
        invariant
            pos <= bytes@.len(),
            bytes@ == old(bytes)@,
            j <= data@.len(),
            out@ =~= old(bytes)@.take(pos as int) + data@.take(j as int),
        decreases data@.len() - j,
    {
        out.push(data[j]);
        j += 1;
    }
    let mut k: usize = pos;
    while k < bytes.len()
        invariant
            pos <= k <= bytes@.len(),
            bytes@ == old(bytes)@,
            out@ =~= old(bytes)@.take(pos as int) + data@ + old(bytes)@.skip(pos as int).take(
                k - pos,
            ),
        decreases bytes@.len() - k,
    {
        out.push(bytes[k]);
        k += 1;
    }
    proof {
        assert(out@ =~= old(bytes)@.take(pos as int) + data@ + old(bytes)@.skip(pos as int));
    }
    *bytes = out;
}

impl Data {
    /// Splices `data` into the buffer at `pos`, in place: the bytes at
    /// and after `pos` shift right to follow it. The cursor and the
    /// accumulators are untouched.
    pub fn insert_at(&mut self, pos: usize, data: &[u8])
        requires
            pos <= old(self)@.bytes.len(),
            old(self)@.bytes.len() + data@.len() <= usize::MAX,
        ensures
            final(self)@ == (DataModel {
                bytes: old(self)@.bytes.take(pos as int) + data@ + old(self)@.bytes.skip(
                    pos as int,
                ),
                ..old(self)@
            }),
    {
        match self {
            Data::Mem { bytes, .. } => {
                mem_insert(bytes, pos, data);
            },
        }
    }
}

} // verus!

