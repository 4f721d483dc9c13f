use vstd::prelude::*;

use crate::error::StreamError;
use crate::pin::Pin;
use crate::stream::{spec_feed, Stream, StreamModel};

verus! {

use vstd::math::max;

/// `len` rounded up to the next multiple of `align`.
pub open spec fn spec_align_up(len: int, align: int) -> int
    recommends
        align > 0,
{
    if len % align == 0 {
        len
    } else {
        len + (align - len % align)
    }
}

impl Stream {
    /// A non-destructive copy of all bytes currently held, whatever the
    /// cursor position; the stream is left exactly as it was.
    pub fn copy_data(&mut self) -> (r: Result<Vec<u8>, StreamError>)
        ensures
            final(self)@ == old(self)@,
            r matches Ok(v) && v@ == old(self)@.bytes,
    {
        self.data.flush()?;
        self.pin()?;
        let data = self.data.copy_data()?;
        self.un_pin()?;
        proof {
            assert(old(self)@.pins.push(old(self)@.pos).last() == old(self)@.pos);
            assert(old(self)@.pins.push(old(self)@.pos).drop_last() =~= old(self)@.pins);
        }
        Ok(data)
    }

    /// Takes all bytes out, resetting the stream to empty: an
    /// ownership-transferring drain, not a copy.
    pub fn take_data(&mut self) -> (r: Result<Vec<u8>, StreamError>)
        ensures
            r matches Ok(v) && v@ == old(self)@.bytes,
            final(self).wf(),
            final(self)@ == (StreamModel {
                bytes: Seq::<u8>::empty(),
                length: 0u64,
                ..old(self)@
            }),
    {
        self.length = 0;
        Ok(self.data.take_bytes())
    }

    /// Pads the content with zero bytes until the tracked length is a
    /// multiple of `align`; a no-op when it already is. The padding goes
    /// through the write path, so armed accumulators see it; the cursor
    /// and the pin stack are left as they were.
    pub fn align(&mut self, align: u64) -> (r: Result<(), StreamError>)
        requires
            old(self).wf(),
            align > 0,
            spec_align_up(old(self)@.length as int, align as int) <= usize::MAX,
        ensures
            r == Ok::<(), StreamError>(()),
            final(self).wf(),
            final(self)@.length == spec_align_up(old(self)@.length as int, align as int),
            final(self)@.bytes == old(self)@.bytes + Seq::new(
                (spec_align_up(old(self)@.length as int, align as int) - old(self)@.length) as nat,
                |i: int| 0u8,
            ),
            final(self)@.pos == old(self)@.pos,
            final(self)@.endian == old(self)@.endian,
            final(self)@.pins == old(self)@.pins,
            final(self)@.crc32 == spec_feed(
                old(self)@.crc32,
                Seq::new(
                    (spec_align_up(old(self)@.length as int, align as int) - old(
                        self,
                    )@.length) as nat,
                    |i: int| 0u8,
                ),
            ),
            final(self)@.sha1 == spec_feed(
                old(self)@.sha1,
                Seq::new(
                    (spec_align_up(old(self)@.length as int, align as int) - old(
                        self,
                    )@.length) as nat,
                    |i: int| 0u8,
                ),
            ),
            final(self)@.sha2 == spec_feed(
                old(self)@.sha2,
                Seq::new(
                    (spec_align_up(old(self)@.length as int, align as int) - old(
                        self,
                    )@.length) as nat,
                    |i: int| 0u8,
                ),
            ),
    {
        let remainder = self.length % align;
        if remainder != 0 {
            let padding = align - remainder;
            self.pin()?;
            self.seek_end()?;
            let zeros: Vec<u8> = vec![0u8; padding as usize];
            let ghost len0 = self@.length;
            self.write(zeros.as_slice())?;
            self.un_pin()?;
            proof {
                let pad = (spec_align_up(old(self)@.length as int, align as int) - old(
                    self,
                )@.length) as nat;
                assert(zeros@ =~= Seq::new(pad, |i: int| 0u8));
                assert(self@.bytes =~= old(self)@.bytes + zeros@);
                assert(old(self)@.pins.push(old(self)@.pos).last() == old(self)@.pos);
                assert(old(self)@.pins.push(old(self)@.pos).drop_last() =~= old(self)@.pins);
            }
        } else {
            proof {
                assert(self@.bytes =~= old(self)@.bytes + Seq::new(0nat, |i: int| 0u8));
                assert(spec_feed(old(self)@.crc32, Seq::new(0nat, |i: int| 0u8)) == old(
                    self,
                )@.crc32) by {
                    match old(self)@.crc32 {
                        Some(f) => {
                            assert(f + Seq::new(0nat, |i: int| 0u8) =~= f);
                        },
                        None => {},
                    }
                }
                assert(spec_feed(old(self)@.sha1, Seq::new(0nat, |i: int| 0u8)) == old(
                    self,
                )@.sha1) by {
                    match old(self)@.sha1 {
                        Some(f) => {
                            assert(f + Seq::new(0nat, |i: int| 0u8) =~= f);
                        },
                        None => {},
                    }
                }
                assert(spec_feed(old(self)@.sha2, Seq::new(0nat, |i: int| 0u8)) == old(
                    self,
                )@.sha2) by {
                    match old(self)@.sha2 {
                        Some(f) => {
                            assert(f + Seq::new(0nat, |i: int| 0u8) =~= f);
                        },
                        None => {},
                    }
                }
            }
        }
        Ok(())
    }
}

} // verus!
