use vstd::prelude::*;

use crate::error::StreamError;
use crate::pin::Pin;
use crate::stream::{spec_feed, Stream, StreamModel};

verus! {

/// What the DEFLATE collaborator produces for the given input and level;
/// a function of those alone.
pub uninterp spec fn deflate_of(data: Seq<u8>, level: u8) -> Seq<u8>;

/// What the zlib-wrapped DEFLATE collaborator produces for the given
/// input and level; a function of those alone.
pub uninterp spec fn zlib_of(data: Seq<u8>, level: u8) -> Seq<u8>;

/// What inflating the given bytes yields: the decompressed bytes, or
/// `None` when they are not well-formed DEFLATE data.
pub uninterp spec fn inflate_of(data: Seq<u8>) -> Option<Seq<u8>>;

/// Compression effort, mapped to the numeric level the collaborator
/// takes.
#[derive(Debug, Clone, Copy, PartialEq, Eq, Structural)]
pub enum CompressionLevel {
    NoCompression,
    BestSpeed,
    DefaultLevel,
    BestCompression,
    UberCompression,
    DefaultCompression,
}

impl CompressionLevel {
    /// The numeric level handed to the collaborator.
    pub open spec fn spec_level(self) -> u8 {
        match self {
            CompressionLevel::NoCompression => 0u8,
            CompressionLevel::BestSpeed => 1u8,
            CompressionLevel::DefaultLevel => 6u8,
            CompressionLevel::BestCompression => 9u8,
            CompressionLevel::UberCompression => 10u8,
            CompressionLevel::DefaultCompression => 0u8,
        }
    }

    /// The numeric level handed to the collaborator.
    pub fn level(&self) -> (r: u8)
        ensures
            r == self.spec_level(),
    {
        match self {
            CompressionLevel::NoCompression => 0,
            CompressionLevel::BestSpeed => 1,
            CompressionLevel::DefaultLevel => 6,
            CompressionLevel::BestCompression => 9,
            CompressionLevel::UberCompression => 10,
            CompressionLevel::DefaultCompression => 0,
        }
    }
}

/// Relies on miniz_oxide::deflate::compress_to_vec: the compressed bytes
/// depend on the input and the level alone.
#[verifier::external_body]
fn mz_compress(data: &[u8], level: u8) -> (r: Vec<u8>)
    ensures
        r@ == deflate_of(data@, level),
{
    miniz_oxide::deflate::compress_to_vec(data, level)
}

/// Relies on miniz_oxide::deflate::compress_to_vec_zlib: the compressed
/// bytes depend on the input and the level alone.
#[verifier::external_body]
fn mz_compress_zlib(data: &[u8], level: u8) -> (r: Vec<u8>)
    ensures
        r@ == zlib_of(data@, level),
{
    miniz_oxide::deflate::compress_to_vec_zlib(data, level)
}

/// Relies on miniz_oxide::inflate::decompress_to_vec: succeeds exactly on
/// well-formed input, and the result depends on the input alone.
#[verifier::external_body]
fn mz_decompress(data: &[u8]) -> (r: Option<Vec<u8>>)
    ensures
        r is Some <==> inflate_of(data@) is Some,
        r matches Some(v) ==> inflate_of(data@) == Some(v@),
{
    miniz_oxide::inflate::decompress_to_vec(data).ok()
}

/// Compression, decompression and magic-number probing layered on the
/// stream primitives.
pub trait Deflate: View<V = StreamModel> + Sized {
    /// Replaces the content with its DEFLATE compression (an empty stream
    /// stays empty) and resets the pin stack, which the rewrite
    /// invalidates. The new content passes through the write path, so
    /// armed accumulators see it. Returns the new length.
    fn compress(&mut self, level: &CompressionLevel) -> (r: Result<u64, StreamError>)
        requires
            old(self)@.wf(),
        ensures
            ({
                let out = if old(self)@.bytes.len() == 0 {
                    Seq::<u8>::empty()
                } else {
                    deflate_of(old(self)@.bytes, level.spec_level())
                };
                &&& r == Ok::<u64, StreamError>(final(self)@.length)
                &&& final(self)@.wf()
                &&& final(self)@.bytes == out
                &&& final(self)@.pos == final(self)@.length
                &&& final(self)@.pins == Seq::<u64>::empty()
                &&& final(self)@.endian == old(self)@.endian
                &&& final(self)@.crc32 == spec_feed(old(self)@.crc32, out)
                &&& final(self)@.sha1 == spec_feed(old(self)@.sha1, out)
                &&& final(self)@.sha2 == spec_feed(old(self)@.sha2, out)
            }),
    ;

    /// Like `compress`, with the zlib-wrapped format.
    fn compress_zlib(&mut self, level: &CompressionLevel) -> (r: Result<u64, StreamError>)
        requires
            old(self)@.wf(),
        ensures
            ({
                let out = if old(self)@.bytes.len() == 0 {
                    Seq::<u8>::empty()
                } else {
                    zlib_of(old(self)@.bytes, level.spec_level())
                };
                &&& r == Ok::<u64, StreamError>(final(self)@.length)
                &&& final(self)@.wf()
                &&& final(self)@.bytes == out
                &&& final(self)@.pos == final(self)@.length
                &&& final(self)@.pins == Seq::<u64>::empty()
                &&& final(self)@.endian == old(self)@.endian
                &&& final(self)@.crc32 == spec_feed(old(self)@.crc32, out)
                &&& final(self)@.sha1 == spec_feed(old(self)@.sha1, out)
                &&& final(self)@.sha2 == spec_feed(old(self)@.sha2, out)
            }),
    ;

    /// Replaces the content with its decompression and resets the pin
    /// stack; fails with `InvalidData`, changing nothing, when the
    /// content is not well-formed compressed data.
    fn decompress(&mut self) -> (r: Result<u64, StreamError>)
        requires
            old(self)@.wf(),
        ensures
            inflate_of(old(self)@.bytes) is None ==> {
                &&& r == Err::<u64, StreamError>(StreamError::InvalidData)
                &&& final(self)@ == old(self)@
            },
            inflate_of(old(self)@.bytes) matches Some(out) ==> {
                &&& r == Ok::<u64, StreamError>(final(self)@.length)
                &&& final(self)@.wf()
                &&& final(self)@.bytes == out
                &&& final(self)@.pos == final(self)@.length
                &&& final(self)@.pins == Seq::<u64>::empty()
                &&& final(self)@.endian == old(self)@.endian
                &&& final(self)@.crc32 == spec_feed(old(self)@.crc32, out)
                &&& final(self)@.sha1 == spec_feed(old(self)@.sha1, out)
                &&& final(self)@.sha2 == spec_feed(old(self)@.sha2, out)
            },
    ;

    /// True exactly when the four bytes at the cursor are the ZIP local
    /// file header magic; the cursor is put back afterwards. Fails with
    /// `UnexpectedEnd`, changing nothing, when fewer than four bytes
    /// remain.
    fn is_zip(&mut self) -> (r: Result<bool, StreamError>)
        ensures
            old(self)@.remaining().len() >= 4 ==> {
                &&& r == Ok::<bool, StreamError>(
                    old(self)@.remaining().take(4) == seq![0x50u8, 0x4bu8, 0x03u8, 0x04u8],
                )
                &&& final(self)@ == old(self)@
            },
            old(self)@.remaining().len() < 4 ==> {
                &&& r == Err::<bool, StreamError>(StreamError::UnexpectedEnd)
                &&& final(self)@ == old(self)@
            },
    ;
}

impl Deflate for Stream {
    fn compress(&mut self, level: &CompressionLevel) -> (r: Result<u64, StreamError>) {
        self.data.seek(0)?;
        let data = self.take_data()?;
        let compressed = if data.len() > 0 {
            mz_compress(data.as_slice(), level.level())
        } else {
            Vec::new()
        };
        let clen = compressed.len();
        assert(compressed@.len() <= usize::MAX);
        self.write(compressed.as_slice())?;
        self.pins.clear();
        proof {
            let out = if old(self)@.bytes.len() == 0 {
                Seq::<u8>::empty()
            } else {
                deflate_of(old(self)@.bytes, level.spec_level())
            };
            assert(self@.bytes =~= out);
        }
        Ok(self.length)
    }

    fn compress_zlib(&mut self, level: &CompressionLevel) -> (r: Result<u64, StreamError>) {
        self.data.seek(0)?;
        let data = self.copy_data()?;
        let compressed = if data.len() > 0 {
            mz_compress_zlib(data.as_slice(), level.level())
        } else {
            Vec::new()
        };
        self.data.clear()?;
        self.length = 0;
        let clen = compressed.len();
        assert(compressed@.len() <= usize::MAX);
        self.write(compressed.as_slice())?;
        self.pins.clear();
        proof {
            let out = if old(self)@.bytes.len() == 0 {
                Seq::<u8>::empty()
            } else {
                zlib_of(old(self)@.bytes, level.spec_level())
            };
            assert(self@.bytes =~= out);
        }
        Ok(self.length)
    }

    fn decompress(&mut self) -> (r: Result<u64, StreamError>) {
        let data = self.copy_data()?;
        match mz_decompress(data.as_slice()) {
            None => Err(StreamError::InvalidData),
            Some(out) => {
                self.data.clear()?;
                self.length = 0;
                let olen = out.len();
                assert(out@.len() <= usize::MAX);
                self.write(out.as_slice())?;
                self.pins.clear();
                proof {
                    assert(self@.bytes =~= inflate_of(old(self)@.bytes).unwrap());
                }
                Ok(self.length)
            },
        }
    }

    fn is_zip(&mut self) -> (r: Result<bool, StreamError>) {
        let len = self.data.len_bytes();
        let pos = self.data.position();
        if pos > len as u64 || 4 > len as u64 - pos {
            return Err(StreamError::UnexpectedEnd);
        }
        self.pin()?;
        let bytes = self.read(4);
        self.un_pin()?;
        let is_magic = bytes[0] == 0x50 && bytes[1] == 0x4b && bytes[2] == 0x03 && bytes[3]
            == 0x04;
        proof {
            assert(old(self)@.pins.push(old(self)@.pos).last() == old(self)@.pos);
            assert(old(self)@.pins.push(old(self)@.pos).drop_last() =~= old(self)@.pins);
            let magic = seq![0x50u8, 0x4bu8, 0x03u8, 0x04u8];
            let sub = old(self)@.remaining().take(4);
            assert(magic[0] == 0x50u8 && magic[1] == 0x4bu8 && magic[2] == 0x03u8 && magic[3]
                == 0x04u8);
            if is_magic {
                assert(sub =~= magic);
            } else {
                assert(sub != magic);
            }
        }
        Ok(is_magic)
    }
}

} // verus!
