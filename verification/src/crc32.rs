use vstd::prelude::*;

use crate::error::StreamError;
use crate::hash::{crc32_fed, crc32_hasher_finalize, crc32_hasher_new, crc32_hasher_update, crc32_of};
use crate::stream::{spec_remaining, Stream, StreamModel};

verus! {

/// One-shot checksumming of a whole stream.
pub trait CRC32: View<V = StreamModel> + Sized {
    /// The CRC32 of all bytes from position 0, computed through a fresh
    /// hasher in bounded chunks; armed accumulators are not disturbed and
    /// the cursor is left at the end of the content.
    fn crc32_value(&mut self) -> (r: Result<u32, StreamError>)
        requires
            old(self)@.wf(),
        ensures
            r == Ok::<u32, StreamError>(crc32_of(old(self)@.bytes)),
            final(self)@ == (StreamModel { pos: old(self)@.length, ..old(self)@ }),
    ;
}

impl CRC32 for Stream {
    fn crc32_value(&mut self) -> (r: Result<u32, StreamError>) {
        let mut hasher = crc32_hasher_new();
        self.data.seek(0)?;
        let blen = self.data.len_bytes();
        assert(self@.bytes.len() <= usize::MAX);
        let ghost orig = self@;
        loop
            invariant
                orig.bytes.len() <= usize::MAX,
                self@ == (StreamModel { pos: self@.pos, ..orig }),
                self@.pos <= self@.bytes.len(),
                crc32_fed(hasher) == orig.bytes.take(self@.pos as int),
            ensures
                self@ == (StreamModel { pos: self@.pos, ..orig }),
                crc32_fed(hasher) == orig.bytes,
                self@.pos == self@.bytes.len(),
            decreases self@.bytes.len() - self@.pos,
        {
            let ghost pos_before = self@.pos;
            let chunk = self.read(1024 * 1024);
            if chunk.len() == 0 {
                proof {
                    assert(spec_remaining(orig.bytes, pos_before).len() == 0);
                    assert(orig.bytes.take(self@.pos as int) =~= orig.bytes);
                }
                break;
            }
            crc32_hasher_update(&mut hasher, chunk.as_slice());
            proof {
                let t1 = orig.bytes.take(pos_before as int);
                let t2 = orig.bytes.take(self@.pos as int);
                assert forall|i: int| 0 <= i < t2.len() implies (t1 + chunk@)[i] == t2[i] by {
                    if i >= pos_before {
                        assert(chunk@[i - pos_before] == spec_remaining(orig.bytes, pos_before)[
                            i - pos_before
                        ]);
                    }
                }
                assert(t1 + chunk@ =~= t2);
            }
        }
        Ok(crc32_hasher_finalize(hasher))
    }
}

} // verus!
