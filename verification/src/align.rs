use vstd::prelude::*;

use crate::error::StreamError;
use crate::stream::{spec_feed, Stream, StreamModel};
use crate::vec::spec_align_up;

verus! {

/// Zero-padding the content up to an alignment boundary.
pub trait Align: View<V = StreamModel> + Sized {
    /// Pads with zero bytes until the length is a multiple of `align`; a
    /// no-op when it already is. The cursor and pin stack are left as
    /// found; armed accumulators see the padding.
    fn align(&mut self, align: u64) -> (r: Result<(), StreamError>)
        requires
            old(self)@.wf(),
            align > 0,
            spec_align_up(old(self)@.length as int, align as int) <= usize::MAX,
        ensures
            r == Ok::<(), StreamError>(()),
            final(self)@.wf(),
            ({
                let pad = Seq::new(
                    (spec_align_up(old(self)@.length as int, align as int) - old(
                        self,
                    )@.length) as nat,
                    |i: int| 0u8,
                );
                &&& final(self)@ == (StreamModel {
                    bytes: old(self)@.bytes + pad,
                    length: spec_align_up(old(self)@.length as int, align as int) as u64,
                    crc32: spec_feed(old(self)@.crc32, pad),
                    sha1: spec_feed(old(self)@.sha1, pad),
                    sha2: spec_feed(old(self)@.sha2, pad),
                    ..old(self)@
                })
            }),
    ;
}

impl Align for Stream {
    fn align(&mut self, align: u64) -> (r: Result<(), StreamError>) {
        self.align(align)
    }
}

} // verus!
