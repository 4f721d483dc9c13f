use vstd::prelude::*;

use crate::error::StreamError;
use crate::pin::Pin;
use crate::stream::{Stream, StreamModel};

verus! {

/// Measuring the total content size by seeking to the end under a pin,
/// so the cursor comes back to where it was.
pub trait Len: View<V = StreamModel> + Sized {
    /// The total size of the content; the stream is left as found.
    fn length(&mut self) -> (r: Result<u64, StreamError>)
        requires
            old(self)@.wf(),
        ensures
            r == Ok::<u64, StreamError>(old(self)@.length),
            final(self)@ == old(self)@,
    ;
}

impl Len for Stream {
    fn length(&mut self) -> (r: Result<u64, StreamError>) {
        self.pin()?;
        let len = self.seek_end()?;
        self.un_pin()?;
        proof {
            assert(old(self)@.pins.push(old(self)@.pos).last() == old(self)@.pos);
            assert(old(self)@.pins.push(old(self)@.pos).drop_last() =~= old(self)@.pins);
        }
        Ok(len)
    }
}

} // verus!
