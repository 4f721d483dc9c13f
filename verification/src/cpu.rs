use vstd::prelude::*;

use crate::bytes::{
    lemma_uint_round_trip, pow256, spec_uint_bytes, spec_uint_from, StreamSized, ValueRead,
    ValueWrite,
};
use crate::endian::Endian;
use crate::error::StreamError;
use crate::stream::Stream;

verus! {

/// A processor kind carried in binary headers as a 32-bit discriminant:
/// the numeric-backed enumeration that delegates its codec to `u32`.
#[derive(Debug, Clone, Copy, PartialEq, Eq, Structural)]
pub enum Cpu {
    X84,
    Arm,
}

impl Cpu {
    /// The numeric discriminant this kind is stored as.
    pub open spec fn spec_num(self) -> u32 {
        match self {
            Cpu::X84 => 1u32,
            Cpu::Arm => 2u32,
        }
    }

    /// The numeric discriminant this kind is stored as.
    pub fn to_num(&self) -> (r: u32)
        ensures
            r == self.spec_num(),
    {
        match self {
            Cpu::X84 => 1,
            Cpu::Arm => 2,
        }
    }

    /// The kind a discriminant stands for; `None` exactly on numbers that
    /// stand for nothing.
    pub fn from_num(value: u32) -> (r: Option<Cpu>)
        ensures
            r is Some <==> (value == 1 || value == 2),
            r matches Some(c) ==> c.spec_num() == value,
    {
        match value {
            1 => Some(Cpu::X84),
            2 => Some(Cpu::Arm),
            _ => None,
        }
    }
}

impl ValueWrite for Cpu {
    open spec fn spec_encoded(self, endian: Endian) -> Seq<u8> {
        spec_uint_bytes(endian, self.spec_num() as nat, 4)
    }

    fn write_args<T: StreamSized>(self, endian: &Endian, args: &Option<T>) -> (r: Result<
        Stream,
        StreamError,
    >) {
        self.to_num().write_args(endian, args)
    }
}

impl ValueRead for Cpu {
    open spec fn spec_decode_len(bytes: Seq<u8>, endian: Endian) -> Result<int, StreamError> {
        if bytes.len() < 4 {
            Err(StreamError::UnexpectedEnd)
        } else {
            let v = spec_uint_from(endian, bytes.take(4));
            if v == 1 || v == 2 {
                Ok(4int)
            } else {
                Err(StreamError::InvalidData)
            }
        }
    }

    open spec fn spec_decodes(self, consumed: Seq<u8>, endian: Endian) -> bool {
        consumed == spec_uint_bytes(endian, self.spec_num() as nat, 4)
    }

    fn read_args<T: StreamSized>(stream: &mut Stream, args: &Option<T>) -> (r: Result<
        Self,
        StreamError,
    >) {
        let start = stream.data.position();
        let value: u32 = u32::read_args(stream, args)?;
        proof {
            reveal_with_fuel(pow256, 10);
            let e = old(stream)@.endian;
            let c = old(stream)@.remaining().take(4);
            lemma_uint_round_trip(e, value as nat, 4);
        }
        match Cpu::from_num(value) {
            Some(cpu) => Ok(cpu),
            None => {
                stream.data.seek(start)?;
                Err(StreamError::InvalidData)
            },
        }
    }
}

} // verus!
