use vstd::prelude::*;

verus! {

/// Byte order used by the typed value codec.
///
/// The flag is read at each encode or decode call, so changing it on a
/// stream affects only the values written or read afterwards.
#[derive(Debug, Clone, Copy, PartialEq, Eq, Structural)]
pub enum Endian {
    Big,
    Little,
}

} // verus!
