use vstd::prelude::*;

use crate::error::StreamError;
use crate::stream::{Stream, StreamModel};

verus! {

/// The saved-cursor protocol: `pin` pushes the current position onto a
/// stack, `un_pin` pops the most recent one and seeks back to it. Pins
/// nest; an operation that pins, works, and unpins leaves the stack
/// exactly as it found it.
pub trait Pin: View<V = StreamModel> + Sized {
    /// Rewinds the cursor to the start of the stream.
    fn restore(&mut self) -> (r: Result<(), StreamError>)
        ensures
            r == Ok::<(), StreamError>(()),
            final(self)@ == (StreamModel { pos: 0u64, ..old(self)@ }),
    ;

    /// Saves the current position on the pin stack and returns it.
    fn pin(&mut self) -> (r: Result<u64, StreamError>)
        ensures
            r == Ok::<u64, StreamError>(old(self)@.pos),
            final(self)@ == (StreamModel {
                pins: old(self)@.pins.push(old(self)@.pos),
                ..old(self)@
            }),
    ;

    /// Pops the most recent saved position and seeks back to it; with an
    /// empty stack this is a usage error reported as `NotFound`.
    fn un_pin(&mut self) -> (r: Result<u64, StreamError>)
        ensures
            old(self)@.pins.len() == 0 ==> {
                &&& r == Err::<u64, StreamError>(StreamError::NotFound)
                &&& final(self)@ == old(self)@
            },
            old(self)@.pins.len() > 0 ==> {
                &&& r == Ok::<u64, StreamError>(old(self)@.pins.last())
                &&& final(self)@ == (StreamModel {
                    pos: old(self)@.pins.last(),
                    pins: old(self)@.pins.drop_last(),
                    ..old(self)@
                })
            },
    ;

    /// Pops the most recent saved position and leaves the cursor exactly
    /// `size` bytes past it, seeking only if it is not already there; a
    /// no-op with an empty stack.
    fn un_pin_size(&mut self, size: u64) -> (r: Result<(), StreamError>)
        requires
            old(self)@.pins.len() > 0 ==> old(self)@.pins.last() + size <= u64::MAX,
        ensures
            r == Ok::<(), StreamError>(()),
            old(self)@.pins.len() == 0 ==> final(self)@ == old(self)@,
            old(self)@.pins.len() > 0 ==> final(self)@ == (StreamModel {
                pos: (old(self)@.pins.last() + size) as u64,
                pins: old(self)@.pins.drop_last(),
                ..old(self)@
            }),
    ;

    /// Moves the cursor to an absolute position.
    fn set_position(&mut self, position: u64) -> (r: Result<(), StreamError>)
        ensures
            r == Ok::<(), StreamError>(()),
            final(self)@ == (StreamModel { pos: position, ..old(self)@ }),
    ;

    /// The current cursor position.
    fn position(&mut self) -> (r: Result<u64, StreamError>)
        ensures
            r == Ok::<u64, StreamError>(old(self)@.pos),
            final(self)@ == old(self)@,
    ;
}

impl Pin for Stream {
    fn restore(&mut self) -> (r: Result<(), StreamError>) {
        self.data.seek(0)?;
        Ok(())
    }

    fn pin(&mut self) -> (r: Result<u64, StreamError>) {
        let current = self.data.position();
        self.pins.push(current);
        Ok(current)
    }

    fn un_pin(&mut self) -> (r: Result<u64, StreamError>) {
        match self.pins.pop() {
            Some(pos) => {
                self.data.seek(pos)?;
                Ok(pos)
            },
            None => Err(StreamError::NotFound),
        }
    }

    fn un_pin_size(&mut self, size: u64) -> (r: Result<(), StreamError>) {
        let current_position = self.data.position();
        if let Some(position) = self.pins.pop() {
            if current_position != position + size {
                self.data.seek(position + size)?;
            }
        }
        Ok(())
    }

    fn set_position(&mut self, position: u64) -> (r: Result<(), StreamError>) {
        self.seek(position)?;
        Ok(())
    }

    fn position(&mut self) -> (r: Result<u64, StreamError>) {
        Ok(self.data.position())
    }
}

} // verus!

verus! {

/// Pin symmetry: take any operation that starts by pinning, then runs any
/// inner steps that leave the pin stack exactly as the pin left it (as
/// every balanced composition of pin/unpin pairs does, however it moves
/// the cursor meanwhile), and ends by unpinning. The cursor and the pin
/// stack afterwards are exactly what they were before.
pub proof fn lemma_pin_symmetry(
    before: StreamModel,
    pinned: StreamModel,
    inner: StreamModel,
    after: StreamModel,
)
    requires
        // `pin` pushed the starting position
        pinned.pins == before.pins.push(before.pos),
        // the inner steps left the stack as they found it
        inner.pins == pinned.pins,
        inner.pins.len() > 0,
        // `un_pin` popped it and seeked back
        after.pos == inner.pins.last(),
        after.pins == inner.pins.drop_last(),
    ensures
        after.pos == before.pos,
        after.pins == before.pins,
{
    assert(before.pins.push(before.pos).last() == before.pos);
    assert(before.pins.push(before.pos).drop_last() =~= before.pins);
}

} // verus!
