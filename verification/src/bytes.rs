use vstd::prelude::*;

use crate::endian::Endian;

verus! {

use vstd::arithmetic::div_mod::{lemma_fundamental_div_mod, lemma_fundamental_div_mod_converse};

/// 256 to the `w`-th power: the number of values a `w`-byte field holds.
pub open spec fn pow256(w: nat) -> nat
    decreases w,
{
    if w == 0 {
        1nat
    } else {
        256 * pow256((w - 1) as nat)
    }
}

/// The `width`-byte little-endian encoding of `v` (modulo `pow256(width)`).
pub open spec fn spec_le_bytes(v: nat, width: nat) -> Seq<u8>
    decreases width,
{
    if width == 0 {
        Seq::<u8>::empty()
    } else {
        seq![(v % 256) as u8] + spec_le_bytes(v / 256, (width - 1) as nat)
    }
}

/// The value of a little-endian byte sequence.
pub open spec fn spec_from_le(s: Seq<u8>) -> nat
    decreases s.len(),
{
    if s.len() == 0 {
        0nat
    } else {
        (s[0] + 256 * spec_from_le(s.skip(1))) as nat
    }
}

/// The `width`-byte encoding of `v` in the given byte order.
pub open spec fn spec_uint_bytes(endian: Endian, v: nat, width: nat) -> Seq<u8> {
    match endian {
        Endian::Little => spec_le_bytes(v, width),
        Endian::Big => spec_le_bytes(v, width).reverse(),
    }
}

/// The value of a byte sequence in the given byte order.
pub open spec fn spec_uint_from(endian: Endian, s: Seq<u8>) -> nat {
    match endian {
        Endian::Little => spec_from_le(s),
        Endian::Big => spec_from_le(s.reverse()),
    }
}

pub proof fn lemma_pow256_pos(w: nat)
    ensures
        pow256(w) >= 1,
    decreases w,
{
    if w > 0 {
        lemma_pow256_pos((w - 1) as nat);
    }
}

pub proof fn lemma_pow256_mono(a: nat, b: nat)
    requires
        a <= b,
    ensures
        pow256(a) <= pow256(b),
    decreases b,
{
    if a < b {
        lemma_pow256_mono(a, (b - 1) as nat);
        lemma_pow256_pos((b - 1) as nat);
    }
}

pub proof fn lemma_le_bytes_len(v: nat, w: nat)
    ensures
        spec_le_bytes(v, w).len() == w,
    decreases w,
{
    if w > 0 {
        lemma_le_bytes_len(v / 256, (w - 1) as nat);
    }
}

/// Encoding then decoding a value below `pow256(w)` gives it back.
pub proof fn lemma_le_round_trip(v: nat, w: nat)
    requires
        v < pow256(w),
    ensures
        spec_from_le(spec_le_bytes(v, w)) == v,
    decreases w,
{
    if w > 0 {
        let r0 = v % 256;
        let q = v / 256;
        lemma_fundamental_div_mod(v as int, 256);
        assert(q < pow256((w - 1) as nat)) by {
            if q >= pow256((w - 1) as nat) {
                assert(256 * q >= 256 * pow256((w - 1) as nat)) by (nonlinear_arith)
                    requires
                        q >= pow256((w - 1) as nat),
                ;
            }
        }
        lemma_le_round_trip(q, (w - 1) as nat);
        let s = spec_le_bytes(v, w);
        assert(s.skip(1) =~= spec_le_bytes(q, (w - 1) as nat));
    }
}

/// A byte sequence's value fits in as many bytes as it has.
pub proof fn lemma_from_le_bound(s: Seq<u8>)
    ensures
        spec_from_le(s) < pow256(s.len()),
    decreases s.len(),
{
    if s.len() > 0 {
        lemma_from_le_bound(s.skip(1));
        assert(256 * spec_from_le(s.skip(1)) <= 256 * (pow256((s.len() - 1) as nat) - 1))
            by (nonlinear_arith)
            requires
                spec_from_le(s.skip(1)) <= pow256((s.len() - 1) as nat) - 1,
        ;
    }
}

/// Decoding then re-encoding a byte sequence gives it back.
pub proof fn lemma_le_bytes_of_from(s: Seq<u8>)
    ensures
        spec_le_bytes(spec_from_le(s), s.len()) == s,
    decreases s.len(),
{
    if s.len() > 0 {
        let t = spec_from_le(s.skip(1));
        let v = spec_from_le(s);
        lemma_fundamental_div_mod_converse(v as int, 256, t as int, s[0] as int);
        lemma_le_bytes_of_from(s.skip(1));
        assert(spec_le_bytes(v, s.len()) =~= s);
    }
}

pub proof fn lemma_uint_bytes_len(endian: Endian, v: nat, w: nat)
    ensures
        spec_uint_bytes(endian, v, w).len() == w,
{
    lemma_le_bytes_len(v, w);
}

/// Round trip: decoding the encoding of any value below `pow256(w)`, in
/// either byte order, gives the value back.
pub proof fn lemma_uint_round_trip(endian: Endian, v: nat, w: nat)
    requires
        v < pow256(w),
    ensures
        spec_uint_from(endian, spec_uint_bytes(endian, v, w)) == v,
{
    match endian {
        Endian::Little => {
            lemma_le_round_trip(v, w);
        },
        Endian::Big => {
            let s = spec_le_bytes(v, w);
            assert(s.reverse().reverse() =~= s);
            lemma_le_round_trip(v, w);
        },
    }
}

pub proof fn lemma_uint_from_bound(endian: Endian, s: Seq<u8>)
    ensures
        spec_uint_from(endian, s) < pow256(s.len()),
{
    match endian {
        Endian::Little => {
            lemma_from_le_bound(s);
        },
        Endian::Big => {
            lemma_from_le_bound(s.reverse());
        },
    }
}

/// Re-encoding the decoded value of a byte sequence, in the same byte
/// order and at the same width, gives the sequence back.
pub proof fn lemma_uint_bytes_of_from(endian: Endian, s: Seq<u8>)
    ensures
        spec_uint_bytes(endian, spec_uint_from(endian, s), s.len()) == s,
{
    match endian {
        Endian::Little => {
            lemma_le_bytes_of_from(s);
        },
        Endian::Big => {
            lemma_le_bytes_of_from(s.reverse());
            assert(s.reverse().reverse() =~= s);
        },
    }
}

/// Encodes `v` into exactly `width` bytes in the given byte order.
fn encode_uint(v: u64, width: usize, endian: &Endian) -> (r: Vec<u8>)
    requires
        v < pow256(width as nat),
    ensures
        r@ == spec_uint_bytes(*endian, v as nat, width as nat),
        r@.len() == width,
{
    let mut le: Vec<u8> = Vec::new();
    let mut x = v;
    let mut i: usize = 0;
    while i < width
        invariant
            i <= width,
            le@.len() == i,
            spec_le_bytes(v as nat, width as nat) == le@ + spec_le_bytes(
                x as nat,
                (width - i) as nat,
            ),
        decreases width - i,
    {
        let ghost le0 = le@;
        let ghost x0 = x as nat;
        let b = (x % 256) as u8;
        le.push(b);
        x = x / 256;
        i += 1;
        proof {
            assert(spec_le_bytes(x0, (width - i + 1) as nat) == seq![(x0 % 256) as u8]
                + spec_le_bytes(x0 / 256, (width - i) as nat));
            assert(le0 + spec_le_bytes(x0, (width - i + 1) as nat) =~= le@ + spec_le_bytes(
                x as nat,
                (width - i) as nat,
            ));
        }
    }
    proof {
        assert(le@ + spec_le_bytes(x as nat, 0nat) =~= le@);
        lemma_le_bytes_len(v as nat, width as nat);
    }
    match endian {
        Endian::Little => le,
        Endian::Big => {
            let mut out: Vec<u8> = Vec::new();
            let mut j = le.len();
            while j > 0
                invariant
                    j <= le@.len(),
                    out@.len() == le@.len() - j,
                    forall|k: int| 0 <= k < out@.len() ==> out@[k] == le@[le@.len() - 1 - k],
                decreases j,
            {
                j -= 1;
                out.push(le[j]);
            }
            proof {
                assert(out@ =~= le@.reverse());
            }
            out
        },
    }
}

/// Decodes up to eight bytes in the given byte order.
fn decode_uint(bytes: &[u8], endian: &Endian) -> (r: u64)
    requires
        bytes@.len() <= 8,
    ensures
        r as nat == spec_uint_from(*endian, bytes@),
{
    proof {
        reveal_with_fuel(pow256, 9);
        assert(pow256(8) == 0x1_0000_0000_0000_0000);
    }
    match endian {
        Endian::Little => {
            let mut r: u64 = 0;
            let mut i = bytes.len();
            while i > 0
                invariant
                    bytes@.len() <= 8,
                    i <= bytes@.len(),
                    r as nat == spec_from_le(bytes@.skip(i as int)),
                    r < pow256((bytes@.len() - i) as nat),
                decreases i,
            {
                proof {
                    reveal_with_fuel(pow256, 9);
                    lemma_pow256_mono((bytes@.len() - i) as nat, 7);
                    assert(pow256(7) == 0x100_0000_0000_0000);
                }
                i -= 1;
                let b = bytes[i];
                r = r * 256 + b as u64;
                proof {
                    assert(bytes@.skip(i as int).skip(1) =~= bytes@.skip(i + 1));
                    assert(spec_from_le(bytes@.skip(i as int)) == bytes@[i as int] + 256
                        * spec_from_le(bytes@.skip(i + 1)));
                    lemma_from_le_bound(bytes@.skip(i as int));
                    lemma_le_bytes_len(0, 0);
                    assert(bytes@.skip(i as int).len() == bytes@.len() - i);
                }
            }
            proof {
                assert(bytes@.skip(0) =~= bytes@);
            }
            r
        },
        Endian::Big => {
            let mut r: u64 = 0;
            let mut i: usize = 0;
            while i < bytes.len()
                invariant
                    bytes@.len() <= 8,
                    i <= bytes@.len(),
                    r as nat == spec_from_le(bytes@.take(i as int).reverse()),
                    r < pow256(i as nat),
                decreases bytes@.len() - i,
            {
                proof {
                    reveal_with_fuel(pow256, 9);
                    lemma_pow256_mono(i as nat, 7);
                    assert(pow256(7) == 0x100_0000_0000_0000);
                }
                let b = bytes[i];
                let ghost prev = bytes@.take(i as int).reverse();
                r = r * 256 + b as u64;
                i += 1;
                proof {
                    let cur = bytes@.take(i as int).reverse();
                    assert(cur.len() == i);
                    assert(cur[0] == bytes@[i - 1]);
                    assert(cur.skip(1) =~= prev);
                    assert(spec_from_le(cur) == cur[0] + 256 * spec_from_le(cur.skip(1)));
                    lemma_from_le_bound(cur);
                }
            }
            proof {
                assert(bytes@.take(bytes@.len() as int) =~= bytes@);
            }
            r
        },
    }
}



} // verus!

verus! {

use crate::error::StreamError;
use crate::stream::{Data, Stream, StreamModel};

/// Two's-complement reinterpretation of a signed value as the unsigned
/// value occupying the same `width` bytes.
pub open spec fn spec_signed_to_unsigned(v: int, width: nat) -> nat {
    if v >= 0 {
        v as nat
    } else {
        (v + pow256(width)) as nat
    }
}

/// The model of a fresh scratch stream holding exactly `bytes`.
pub open spec fn spec_fresh_stream(m: StreamModel, bytes: Seq<u8>) -> bool {
    m == (StreamModel {
        bytes,
        pos: 0u64,
        endian: Endian::Little,
        length: bytes.len() as u64,
        pins: Seq::<u64>::empty(),
        crc32: None::<Seq<u8>>,
        sha1: None::<Seq<u8>>,
        sha2: None::<Seq<u8>>,
    })
}

/// Marker for the plain types that may ride along as codec arguments.
pub trait StreamSized: Sized {

}

impl StreamSized for bool {

}

impl StreamSized for u8 {

}

impl StreamSized for u16 {

}

impl StreamSized for u32 {

}

impl StreamSized for u64 {

}

impl StreamSized for String {

}

impl StreamSized for usize {

}

impl StreamSized for isize {

}

/// A fresh scratch stream over `bytes`.
fn scratch_stream(bytes: Vec<u8>) -> (r: Stream)
    ensures
        r.wf(),
        spec_fresh_stream(r@, bytes@),
{
    Stream::new(Data::from_vec(bytes))
}

/// A value that can be encoded onto a stream under a byte order.
pub trait ValueWrite: Sized {
    /// The exact byte encoding of this value under `endian`.
    spec fn spec_encoded(self, endian: Endian) -> Seq<u8>;

    /// Encodes the value into a fresh scratch stream.
    fn write_args<T: StreamSized>(self, endian: &Endian, args: &Option<T>) -> (r: Result<
        Stream,
        StreamError,
    >)
        ensures
            r matches Ok(s) && s.wf() && spec_fresh_stream(s@, self.spec_encoded(*endian)),
    ;

    /// Encodes the value into a fresh scratch stream, with no arguments.
    fn write(self, endian: &Endian) -> (r: Result<Stream, StreamError>)
        ensures
            r matches Ok(s) && s.wf() && spec_fresh_stream(s@, self.spec_encoded(*endian)),
    {
        self.write_args::<bool>(endian, &None)
    }
}

/// A value that can be decoded from a stream under a byte order.
pub trait ValueRead: Sized {
    /// How many bytes a decode at the head of `bytes` consumes, or the
    /// error it reports.
    spec fn spec_decode_len(bytes: Seq<u8>, endian: Endian) -> Result<int, StreamError>;

    /// True when `self` is the value the consumed bytes decode to.
    spec fn spec_decodes(self, consumed: Seq<u8>, endian: Endian) -> bool;

    /// Decodes one value at the cursor, consuming exactly the bytes its
    /// encoding occupies; on an error the cursor does not move. Nothing
    /// but the cursor changes either way.
    fn read_args<T: StreamSized>(stream: &mut Stream, args: &Option<T>) -> (r: Result<
        Self,
        StreamError,
    >)
        ensures
            final(stream)@ == (StreamModel { pos: final(stream)@.pos, ..old(stream)@ }),
            match Self::spec_decode_len(old(stream)@.remaining(), old(stream)@.endian) {
                Ok(n) => {
                    &&& r matches Ok(v) && v.spec_decodes(
                        old(stream)@.remaining().take(n),
                        old(stream)@.endian,
                    )
                    &&& final(stream)@.pos == old(stream)@.pos + n
                },
                Err(e) => {
                    &&& r == Err::<Self, StreamError>(e)
                    &&& final(stream)@.pos == old(stream)@.pos
                },
            },
    ;

    /// Decodes one value at the cursor, with no arguments.
    fn read(stream: &mut Stream) -> (r: Result<Self, StreamError>)
        ensures
            final(stream)@ == (StreamModel { pos: final(stream)@.pos, ..old(stream)@ }),
            match Self::spec_decode_len(old(stream)@.remaining(), old(stream)@.endian) {
                Ok(n) => {
                    &&& r matches Ok(v) && v.spec_decodes(
                        old(stream)@.remaining().take(n),
                        old(stream)@.endian,
                    )
                    &&& final(stream)@.pos == old(stream)@.pos + n
                },
                Err(e) => {
                    &&& r == Err::<Self, StreamError>(e)
                    &&& final(stream)@.pos == old(stream)@.pos
                },
            },
    {
        Self::read_args::<bool>(stream, &None)
    }
}

/// Reads `width` bytes at the cursor and decodes them in the stream's
/// byte order; `UnexpectedEnd`, without moving, when fewer remain.
fn read_uint_stream(stream: &mut Stream, width: usize) -> (r: Result<u64, StreamError>)
    requires
        1 <= width <= 8,
    ensures
        final(stream)@ == (StreamModel { pos: final(stream)@.pos, ..old(stream)@ }),
        old(stream)@.remaining().len() >= width ==> {
            &&& r matches Ok(v) && v as nat == spec_uint_from(
                old(stream)@.endian,
                old(stream)@.remaining().take(width as int),
            )
            &&& final(stream)@.pos == old(stream)@.pos + width
        },
        old(stream)@.remaining().len() < width ==> {
            &&& r == Err::<u64, StreamError>(StreamError::UnexpectedEnd)
            &&& final(stream)@.pos == old(stream)@.pos
        },
{
    let len = stream.data.len_bytes();
    let pos = stream.data.position();
    if pos > len as u64 || (width as u64) > len as u64 - pos {
        return Err(StreamError::UnexpectedEnd);
    }
    let bytes = stream.read(width);
    let v = decode_uint(bytes.as_slice(), &stream.endian);
    Ok(v)
}

} // verus!

verus! {

impl ValueWrite for u8 {
    open spec fn spec_encoded(self, endian: Endian) -> Seq<u8> {
        spec_uint_bytes(endian, self as nat, 1)
    }

    fn write_args<T: StreamSized>(self, endian: &Endian, _args: &Option<T>) -> (r: Result<
        Stream,
        StreamError,
    >) {
        proof {
            reveal_with_fuel(pow256, 10);
        }
        Ok(scratch_stream(encode_uint(self as u64, 1, endian)))
    }
}

impl ValueWrite for u16 {
    open spec fn spec_encoded(self, endian: Endian) -> Seq<u8> {
        spec_uint_bytes(endian, self as nat, 2)
    }

    fn write_args<T: StreamSized>(self, endian: &Endian, _args: &Option<T>) -> (r: Result<
        Stream,
        StreamError,
    >) {
        proof {
            reveal_with_fuel(pow256, 10);
        }
        Ok(scratch_stream(encode_uint(self as u64, 2, endian)))
    }
}

impl ValueWrite for u32 {
    open spec fn spec_encoded(self, endian: Endian) -> Seq<u8> {
        spec_uint_bytes(endian, self as nat, 4)
    }

    fn write_args<T: StreamSized>(self, endian: &Endian, _args: &Option<T>) -> (r: Result<
        Stream,
        StreamError,
    >) {
        proof {
            reveal_with_fuel(pow256, 10);
        }
        Ok(scratch_stream(encode_uint(self as u64, 4, endian)))
    }
}

impl ValueWrite for u64 {
    open spec fn spec_encoded(self, endian: Endian) -> Seq<u8> {
        spec_uint_bytes(endian, self as nat, 8)
    }

    fn write_args<T: StreamSized>(self, endian: &Endian, _args: &Option<T>) -> (r: Result<
        Stream,
        StreamError,
    >) {
        proof {
            reveal_with_fuel(pow256, 10);
        }
        Ok(scratch_stream(encode_uint(self, 8, endian)))
    }
}

impl ValueWrite for i8 {
    open spec fn spec_encoded(self, endian: Endian) -> Seq<u8> {
        spec_uint_bytes(endian, spec_signed_to_unsigned(self as int, 1), 1)
    }

    fn write_args<T: StreamSized>(self, endian: &Endian, _args: &Option<T>) -> (r: Result<
        Stream,
        StreamError,
    >) {
        proof {
            reveal_with_fuel(pow256, 10);
        }
        let u: u64 = if self >= 0 {
            self as u64
        } else {
            (self as i64 + 0x100) as u64
        };
        Ok(scratch_stream(encode_uint(u, 1, endian)))
    }
}

impl ValueWrite for i16 {
    open spec fn spec_encoded(self, endian: Endian) -> Seq<u8> {
        spec_uint_bytes(endian, spec_signed_to_unsigned(self as int, 2), 2)
    }

    fn write_args<T: StreamSized>(self, endian: &Endian, _args: &Option<T>) -> (r: Result<
        Stream,
        StreamError,
    >) {
        proof {
            reveal_with_fuel(pow256, 10);
        }
        let u: u64 = if self >= 0 {
            self as u64
        } else {
            (self as i64 + 0x1_0000) as u64
        };
        Ok(scratch_stream(encode_uint(u, 2, endian)))
    }
}

impl ValueWrite for i32 {
    open spec fn spec_encoded(self, endian: Endian) -> Seq<u8> {
        spec_uint_bytes(endian, spec_signed_to_unsigned(self as int, 4), 4)
    }

    fn write_args<T: StreamSized>(self, endian: &Endian, _args: &Option<T>) -> (r: Result<
        Stream,
        StreamError,
    >) {
        proof {
            reveal_with_fuel(pow256, 10);
        }
        let u: u64 = if self >= 0 {
            self as u64
        } else {
            (self as i64 + 0x1_0000_0000) as u64
        };
        Ok(scratch_stream(encode_uint(u, 4, endian)))
    }
}

impl ValueWrite for i64 {
    open spec fn spec_encoded(self, endian: Endian) -> Seq<u8> {
        spec_uint_bytes(endian, spec_signed_to_unsigned(self as int, 8), 8)
    }

    fn write_args<T: StreamSized>(self, endian: &Endian, _args: &Option<T>) -> (r: Result<
        Stream,
        StreamError,
    >) {
        proof {
            reveal_with_fuel(pow256, 10);
        }
        let u: u64 = if self >= 0 {
            self as u64
        } else {
            ((self as i128) + 0x1_0000_0000_0000_0000) as u64
        };
        Ok(scratch_stream(encode_uint(u, 8, endian)))
    }
}

impl ValueRead for u8 {
    open spec fn spec_decode_len(bytes: Seq<u8>, endian: Endian) -> Result<int, StreamError> {
        if bytes.len() < 1 {
            Err(StreamError::UnexpectedEnd)
        } else {
            Ok(1int)
        }
    }

    open spec fn spec_decodes(self, consumed: Seq<u8>, endian: Endian) -> bool {
        consumed == spec_uint_bytes(endian, self as nat, 1)
    }

    fn read_args<T: StreamSized>(stream: &mut Stream, _args: &Option<T>) -> (r: Result<
        Self,
        StreamError,
    >) {
        let v = read_uint_stream(stream, 1)?;
        proof {
            reveal_with_fuel(pow256, 10);
            let c = old(stream)@.remaining().take(1);
            lemma_uint_from_bound(old(stream)@.endian, c);
            lemma_uint_bytes_of_from(old(stream)@.endian, c);
        }
        Ok(v as u8)
    }
}

impl ValueRead for u16 {
    open spec fn spec_decode_len(bytes: Seq<u8>, endian: Endian) -> Result<int, StreamError> {
        if bytes.len() < 2 {
            Err(StreamError::UnexpectedEnd)
        } else {
            Ok(2int)
        }
    }

    open spec fn spec_decodes(self, consumed: Seq<u8>, endian: Endian) -> bool {
        consumed == spec_uint_bytes(endian, self as nat, 2)
    }

    fn read_args<T: StreamSized>(stream: &mut Stream, _args: &Option<T>) -> (r: Result<
        Self,
        StreamError,
    >) {
        let v = read_uint_stream(stream, 2)?;
        proof {
            reveal_with_fuel(pow256, 10);
            let c = old(stream)@.remaining().take(2);
            lemma_uint_from_bound(old(stream)@.endian, c);
            lemma_uint_bytes_of_from(old(stream)@.endian, c);
        }
        Ok(v as u16)
    }
}

impl ValueRead for u32 {
    open spec fn spec_decode_len(bytes: Seq<u8>, endian: Endian) -> Result<int, StreamError> {
        if bytes.len() < 4 {
            Err(StreamError::UnexpectedEnd)
        } else {
            Ok(4int)
        }
    }

    open spec fn spec_decodes(self, consumed: Seq<u8>, endian: Endian) -> bool {
        consumed == spec_uint_bytes(endian, self as nat, 4)
    }

    fn read_args<T: StreamSized>(stream: &mut Stream, _args: &Option<T>) -> (r: Result<
        Self,
        StreamError,
    >) {
        let v = read_uint_stream(stream, 4)?;
        proof {
            reveal_with_fuel(pow256, 10);
            let c = old(stream)@.remaining().take(4);
            lemma_uint_from_bound(old(stream)@.endian, c);
            lemma_uint_bytes_of_from(old(stream)@.endian, c);
        }
        Ok(v as u32)
    }
}

impl ValueRead for u64 {
    open spec fn spec_decode_len(bytes: Seq<u8>, endian: Endian) -> Result<int, StreamError> {
        if bytes.len() < 8 {
            Err(StreamError::UnexpectedEnd)
        } else {
            Ok(8int)
        }
    }

    open spec fn spec_decodes(self, consumed: Seq<u8>, endian: Endian) -> bool {
        consumed == spec_uint_bytes(endian, self as nat, 8)
    }

    fn read_args<T: StreamSized>(stream: &mut Stream, _args: &Option<T>) -> (r: Result<
        Self,
        StreamError,
    >) {
        let v = read_uint_stream(stream, 8)?;
        proof {
            reveal_with_fuel(pow256, 10);
            let c = old(stream)@.remaining().take(8);
            lemma_uint_from_bound(old(stream)@.endian, c);
            lemma_uint_bytes_of_from(old(stream)@.endian, c);
        }
        Ok(v)
    }
}

impl ValueRead for i8 {
    open spec fn spec_decode_len(bytes: Seq<u8>, endian: Endian) -> Result<int, StreamError> {
        if bytes.len() < 1 {
            Err(StreamError::UnexpectedEnd)
        } else {
            Ok(1int)
        }
    }

    open spec fn spec_decodes(self, consumed: Seq<u8>, endian: Endian) -> bool {
        consumed == spec_uint_bytes(endian, spec_signed_to_unsigned(self as int, 1), 1)
    }

    fn read_args<T: StreamSized>(stream: &mut Stream, _args: &Option<T>) -> (r: Result<
        Self,
        StreamError,
    >) {
        let v = read_uint_stream(stream, 1)?;
        proof {
            reveal_with_fuel(pow256, 10);
            let c = old(stream)@.remaining().take(1);
            lemma_uint_from_bound(old(stream)@.endian, c);
            lemma_uint_bytes_of_from(old(stream)@.endian, c);
        }
        let s: i8 = if v < 0x80 {
            v as i8
        } else {
            ((v as i64) - 0x100) as i8
        };
        Ok(s)
    }
}

impl ValueRead for i16 {
    open spec fn spec_decode_len(bytes: Seq<u8>, endian: Endian) -> Result<int, StreamError> {
        if bytes.len() < 2 {
            Err(StreamError::UnexpectedEnd)
        } else {
            Ok(2int)
        }
    }

    open spec fn spec_decodes(self, consumed: Seq<u8>, endian: Endian) -> bool {
        consumed == spec_uint_bytes(endian, spec_signed_to_unsigned(self as int, 2), 2)
    }

    fn read_args<T: StreamSized>(stream: &mut Stream, _args: &Option<T>) -> (r: Result<
        Self,
        StreamError,
    >) {
        let v = read_uint_stream(stream, 2)?;
        proof {
            reveal_with_fuel(pow256, 10);
            let c = old(stream)@.remaining().take(2);
            lemma_uint_from_bound(old(stream)@.endian, c);
            lemma_uint_bytes_of_from(old(stream)@.endian, c);
        }
        let s: i16 = if v < 0x8000 {
            v as i16
        } else {
            ((v as i64) - 0x1_0000) as i16
        };
        Ok(s)
    }
}

impl ValueRead for i32 {
    open spec fn spec_decode_len(bytes: Seq<u8>, endian: Endian) -> Result<int, StreamError> {
        if bytes.len() < 4 {
            Err(StreamError::UnexpectedEnd)
        } else {
            Ok(4int)
        }
    }

    open spec fn spec_decodes(self, consumed: Seq<u8>, endian: Endian) -> bool {
        consumed == spec_uint_bytes(endian, spec_signed_to_unsigned(self as int, 4), 4)
    }

    fn read_args<T: StreamSized>(stream: &mut Stream, _args: &Option<T>) -> (r: Result<
        Self,
        StreamError,
    >) {
        let v = read_uint_stream(stream, 4)?;
        proof {
            reveal_with_fuel(pow256, 10);
            let c = old(stream)@.remaining().take(4);
            lemma_uint_from_bound(old(stream)@.endian, c);
            lemma_uint_bytes_of_from(old(stream)@.endian, c);
        }
        let s: i32 = if v < 0x8000_0000 {
            v as i32
        } else {
            ((v as i64) - 0x1_0000_0000) as i32
        };
        Ok(s)
    }
}

impl ValueRead for i64 {
    open spec fn spec_decode_len(bytes: Seq<u8>, endian: Endian) -> Result<int, StreamError> {
        if bytes.len() < 8 {
            Err(StreamError::UnexpectedEnd)
        } else {
            Ok(8int)
        }
    }

    open spec fn spec_decodes(self, consumed: Seq<u8>, endian: Endian) -> bool {
        consumed == spec_uint_bytes(endian, spec_signed_to_unsigned(self as int, 8), 8)
    }

    fn read_args<T: StreamSized>(stream: &mut Stream, _args: &Option<T>) -> (r: Result<
        Self,
        StreamError,
    >) {
        let v = read_uint_stream(stream, 8)?;
        proof {
            reveal_with_fuel(pow256, 10);
            let c = old(stream)@.remaining().take(8);
            lemma_uint_from_bound(old(stream)@.endian, c);
            lemma_uint_bytes_of_from(old(stream)@.endian, c);
        }
        let s: i64 = if v < 0x8000_0000_0000_0000 {
            v as i64
        } else {
            ((v as i128) - 0x1_0000_0000_0000_0000) as i64
        };
        Ok(s)
    }
}

impl ValueWrite for bool {
    open spec fn spec_encoded(self, endian: Endian) -> Seq<u8> {
        seq![if self { 1u8 } else { 0u8 }]
    }

    fn write_args<T: StreamSized>(self, endian: &Endian, args: &Option<T>) -> (r: Result<
        Stream,
        StreamError,
    >) {
        let b: u8 = if self { 1 } else { 0 };
        let bytes = vec![b];
        proof {
            assert(bytes@ =~= seq![if self { 1u8 } else { 0u8 }]);
        }
        Ok(scratch_stream(bytes))
    }
}

impl ValueRead for bool {
    open spec fn spec_decode_len(bytes: Seq<u8>, endian: Endian) -> Result<int, StreamError> {
        if bytes.len() < 1 {
            Err(StreamError::UnexpectedEnd)
        } else {
            Ok(1int)
        }
    }

    open spec fn spec_decodes(self, consumed: Seq<u8>, endian: Endian) -> bool {
        consumed.len() == 1 && self == (consumed[0] == 1u8)
    }

    fn read_args<T: StreamSized>(stream: &mut Stream, args: &Option<T>) -> (r: Result<
        Self,
        StreamError,
    >) {
        let v = u8::read_args(stream, args)?;
        proof {
            reveal_with_fuel(pow256, 10);
            let c = old(stream)@.remaining().take(1);
            match old(stream)@.endian {
                Endian::Little => {
                    assert(c.skip(1) =~= Seq::<u8>::empty());
                },
                Endian::Big => {
                    assert(c.reverse() =~= c);
                    assert(c.skip(1) =~= Seq::<u8>::empty());
                },
            }
        }
        Ok(v == 1)
    }
}


impl ValueRead for [u8; 4] {
    open spec fn spec_decode_len(bytes: Seq<u8>, endian: Endian) -> Result<int, StreamError> {
        if bytes.len() < 4 {
            Err(StreamError::UnexpectedEnd)
        } else {
            Ok(4int)
        }
    }

    open spec fn spec_decodes(self, consumed: Seq<u8>, endian: Endian) -> bool {
        consumed == self@
    }

    fn read_args<T: StreamSized>(stream: &mut Stream, _args: &Option<T>) -> (r: Result<
        Self,
        StreamError,
    >) {
        let len = stream.data.len_bytes();
        let pos = stream.data.position();
        if pos > len as u64 || 4 > len as u64 - pos {
            return Err(StreamError::UnexpectedEnd);
        }
        let b = stream.read(4);
        let arr = [b[0], b[1], b[2], b[3]];
        proof {
            assert(arr@ =~= b@);
        }
        Ok(arr)
    }
}

impl ValueWrite for Vec<u8> {
    open spec fn spec_encoded(self, endian: Endian) -> Seq<u8> {
        self@
    }

    fn write_args<T: StreamSized>(self, endian: &Endian, _args: &Option<T>) -> (r: Result<
        Stream,
        StreamError,
    >) {
        Ok(scratch_stream(self))
    }
}

} // verus!

verus! {

use crate::stream::spec_remaining;
use vstd::string::StrSliceExecFns;
use vstd::utf8::{decode_utf8, encode_utf8, valid_utf8};

/// The index of the first zero byte, if there is one.
pub open spec fn spec_find_zero(s: Seq<u8>) -> Option<int>
    decreases s.len(),
{
    if s.len() == 0 {
        None
    } else if s[0] == 0 {
        Some(0int)
    } else {
        match spec_find_zero(s.skip(1)) {
            Some(i) => Some(i + 1),
            None => None,
        }
    }
}

pub proof fn lemma_find_zero_at(s: Seq<u8>, k: int)
    requires
        0 <= k < s.len(),
        forall|j: int| 0 <= j < k ==> s[j] != 0,
        s[k] == 0,
    ensures
        spec_find_zero(s) == Some(k),
    decreases k,
{
    if k > 0 {
        lemma_find_zero_at(s.skip(1), k - 1);
    }
}

pub proof fn lemma_find_zero_none(s: Seq<u8>)
    requires
        forall|j: int| 0 <= j < s.len() ==> s[j] != 0,
    ensures
        spec_find_zero(s) is None,
    decreases s.len(),
{
    if s.len() > 0 {
        lemma_find_zero_none(s.skip(1));
    }
}

/// Relies on String::from_utf8: `Ok` exactly on valid UTF-8 input,
/// returning the characters that the bytes encode.
#[verifier::external_body]
fn string_from_utf8(bytes: Vec<u8>) -> (r: Option<String>)
    ensures
        r is Some <==> valid_utf8(bytes@),
        r matches Some(s) ==> s@ == decode_utf8(bytes@),
{
    String::from_utf8(bytes).ok()
}

impl ValueWrite for String {
    open spec fn spec_encoded(self, endian: Endian) -> Seq<u8> {
        encode_utf8(self@) + seq![0u8]
    }

    fn write_args<T: StreamSized>(self, endian: &Endian, _args: &Option<T>) -> (r: Result<
        Stream,
        StreamError,
    >) {
        let mut data = self.as_str().as_bytes_vec();
        data.push(0);
        proof {
            assert(data@ =~= encode_utf8(self@) + seq![0u8]);
        }
        Ok(scratch_stream(data))
    }
}

impl ValueRead for String {
    open spec fn spec_decode_len(bytes: Seq<u8>, endian: Endian) -> Result<int, StreamError> {
        match spec_find_zero(bytes) {
            Some(k) => if valid_utf8(bytes.take(k)) {
                Ok(k + 1)
            } else {
                Err(StreamError::InvalidData)
            },
            None => Err(StreamError::UnexpectedEnd),
        }
    }

    open spec fn spec_decodes(self, consumed: Seq<u8>, endian: Endian) -> bool {
        &&& consumed.len() >= 1
        &&& consumed.last() == 0u8
        &&& valid_utf8(consumed.drop_last())
        &&& self@ == decode_utf8(consumed.drop_last())
    }

    fn read_args<T: StreamSized>(stream: &mut Stream, _args: &Option<T>) -> (r: Result<
        Self,
        StreamError,
    >) {
        let start = stream.data.position();
        let blen = stream.data.len_bytes();
        assert(stream@.bytes.len() <= usize::MAX);
        let ghost rem = stream@.remaining();
        let mut bytes: Vec<u8> = Vec::new();
        loop
            invariant_except_break
                stream@.pos == start + bytes@.len(),
            invariant
                stream@ == (StreamModel { pos: stream@.pos, ..old(stream)@ }),
                stream@.bytes.len() <= usize::MAX,
                start == old(stream)@.pos,
                rem == old(stream)@.remaining(),
                bytes@.len() <= rem.len(),
                bytes@ == rem.take(bytes@.len() as int),
                forall|j: int| 0 <= j < bytes@.len() ==> rem[j] != 0,
            ensures
                stream@ == (StreamModel { pos: stream@.pos, ..old(stream)@ }),
                bytes@.len() < rem.len(),
                bytes@ == rem.take(bytes@.len() as int),
                forall|j: int| 0 <= j < bytes@.len() ==> rem[j] != 0,
                rem[bytes@.len() as int] == 0,
                stream@.pos == start + bytes@.len() + 1,
            decreases rem.len() - bytes@.len(),
        {
            let ghost i = bytes@.len() as int;
            let b = stream.read(1);
            if b.len() == 0 {
                proof {
                    assert(spec_remaining(old(stream)@.bytes, stream@.pos).len() == 0);
                    assert(bytes@.len() == rem.len());
                    assert(rem.take(rem.len() as int) =~= rem);
                    lemma_find_zero_none(rem);
                }
                stream.data.seek(start)?;
                return Err(StreamError::UnexpectedEnd);
            }
            proof {
                assert(b@.len() == 1);
                assert(b@[0] == spec_remaining(old(stream)@.bytes, (start + i) as u64)[0]);
                assert(b@[0] == rem[i]);
            }
            let byte = b[0];
            if byte == 0 {
                break;
            }
            bytes.push(byte);
            proof {
                assert(bytes@ =~= rem.take(bytes@.len() as int));
            }
        }
        let ghost k = bytes@.len() as int;
        proof {
            lemma_find_zero_at(rem, k);
        }
        match string_from_utf8(bytes) {
            Some(s) => {
                proof {
                    let consumed = rem.take(k + 1);
                    assert(consumed.last() == rem[k]);
                    assert(consumed.drop_last() =~= rem.take(k));
                }
                Ok(s)
            },
            None => {
                stream.data.seek(start)?;
                Err(StreamError::InvalidData)
            },
        }
    }
}

} // verus!

verus! {

use crate::stream::{lemma_spec_write_bytes_append, spec_feed, spec_write_bytes};
use vstd::math::max;

/// One end of a byte range, as the standard range syntax supplies it.
pub enum RangeBound {
    Included(usize),
    Excluded(usize),
    Unbounded,
}

/// The first index of a range starting at `b`, or `None` on overflow.
pub open spec fn spec_start_index(b: RangeBound) -> Option<int> {
    match b {
        RangeBound::Included(s) => Some(s as int),
        RangeBound::Excluded(s) => if s < usize::MAX {
            Some(s + 1)
        } else {
            None
        },
        RangeBound::Unbounded => Some(0int),
    }
}

/// The one-past-the-last index of a range ending at `b`, or `None` on
/// overflow; an unbounded end means `len`.
pub open spec fn spec_end_index(b: RangeBound, len: int) -> Option<int> {
    match b {
        RangeBound::Included(e) => if e < usize::MAX {
            Some(e + 1)
        } else {
            None
        },
        RangeBound::Excluded(e) => Some(e as int),
        RangeBound::Unbounded => Some(len),
    }
}

/// Resolves a pair of range bounds against a content length: `InvalidData`
/// on overflow, a start past the end, or an end past the length.
pub open spec fn spec_resolve_range(start: RangeBound, end: RangeBound, len: int) -> Result<
    (int, int),
    StreamError,
> {
    match (spec_start_index(start), spec_end_index(end, len)) {
        (Some(s), Some(e)) => if s > e {
            Err(StreamError::InvalidData)
        } else if e > len {
            Err(StreamError::InvalidData)
        } else {
            Ok((s, e))
        },
        _ => Err(StreamError::InvalidData),
    }
}

/// The state after writing `buf` at the cursor through the write path;
/// writing nothing changes nothing.
pub open spec fn spec_append_effect(m: StreamModel, buf: Seq<u8>) -> StreamModel {
    if buf.len() == 0 {
        m
    } else {
        StreamModel {
            bytes: spec_write_bytes(m.bytes, m.pos as int, buf),
            pos: (m.pos + buf.len()) as u64,
            length: max(m.length as int, m.pos + buf.len()) as u64,
            crc32: spec_feed(m.crc32, buf),
            sha1: spec_feed(m.sha1, buf),
            sha2: spec_feed(m.sha2, buf),
            ..m
        }
    }
}

impl Stream {
    /// Resolves range bounds against the tracked length; see
    /// `spec_resolve_range` for the error cases.
    pub(crate) fn range_bounds(&mut self, start: RangeBound, end: RangeBound) -> (r: Result<
        (usize, usize),
        StreamError,
    >)
        requires
            old(self)@.wf(),
        ensures
            final(self)@ == old(self)@,
            match spec_resolve_range(start, end, old(self)@.length as int) {
                Ok((s, e)) => r matches Ok(p) && p.0 == s && p.1 == e,
                Err(err) => r == Err::<(usize, usize), StreamError>(err),
            },
    {
        let len = self.data.len_bytes();
        let s: usize = match start {
            RangeBound::Included(s) => s,
            RangeBound::Excluded(s) => {
                if s == usize::MAX {
                    return Err(StreamError::InvalidData);
                }
                s + 1
            },
            RangeBound::Unbounded => 0,
        };
        let e: usize = match end {
            RangeBound::Included(e) => {
                if e == usize::MAX {
                    return Err(StreamError::InvalidData);
                }
                e + 1
            },
            RangeBound::Excluded(e) => e,
            RangeBound::Unbounded => len,
        };
        if s > e {
            return Err(StreamError::InvalidData);
        }
        if e > len {
            return Err(StreamError::InvalidData);
        }
        Ok((s, e))
    }
}

/// The byte-surgery operations. Each one preserves the length invariant
/// and leaves the pin stack exactly as it found it.
pub trait Bytes: View<V = StreamModel> + Sized {
    /// Copies everything left in `data` to this stream's cursor through
    /// the write path; `data`'s cursor ends at its end.
    fn append(&mut self, data: &mut Stream) -> (r: Result<u64, StreamError>)
        requires
            old(self)@.wf(),
            old(self)@.pos + old(data)@.remaining().len() <= usize::MAX,
        ensures
            r == Ok::<u64, StreamError>(old(data)@.remaining().len() as u64),
            final(self)@.wf(),
            final(self)@ == spec_append_effect(old(self)@, old(data)@.remaining()),
            final(data)@ == (StreamModel {
                pos: (old(data)@.pos + old(data)@.remaining().len()) as u64,
                ..old(data)@
            }),
    ;

    /// Decodes one value at the cursor; see `ValueRead::read_args`.
    fn read_value<Value: ValueRead>(&mut self) -> (r: Result<Value, StreamError>)
        ensures
            final(self)@ == (StreamModel { pos: final(self)@.pos, ..old(self)@ }),
            match Value::spec_decode_len(old(self)@.remaining(), old(self)@.endian) {
                Ok(n) => {
                    &&& r matches Ok(v) && v.spec_decodes(
                        old(self)@.remaining().take(n),
                        old(self)@.endian,
                    )
                    &&& final(self)@.pos == old(self)@.pos + n
                },
                Err(e) => {
                    &&& r == Err::<Value, StreamError>(e)
                    &&& final(self)@.pos == old(self)@.pos
                },
            },
    ;

    /// Decodes one value at the cursor with arguments; see
    /// `ValueRead::read_args`.
    fn read_value_args<Value: ValueRead, T: StreamSized>(&mut self, args: &Option<T>) -> (r:
        Result<Value, StreamError>)
        ensures
            final(self)@ == (StreamModel { pos: final(self)@.pos, ..old(self)@ }),
            match Value::spec_decode_len(old(self)@.remaining(), old(self)@.endian) {
                Ok(n) => {
                    &&& r matches Ok(v) && v.spec_decodes(
                        old(self)@.remaining().take(n),
                        old(self)@.endian,
                    )
                    &&& final(self)@.pos == old(self)@.pos + n
                },
                Err(e) => {
                    &&& r == Err::<Value, StreamError>(e)
                    &&& final(self)@.pos == old(self)@.pos
                },
            },
    ;

    /// Reads exactly `size` bytes at the cursor; `UnexpectedEnd`, without
    /// moving, when fewer remain.
    fn read_exact_size(&mut self, size: u64) -> (r: Result<Vec<u8>, StreamError>)
        requires
            size <= usize::MAX,
        ensures
            old(self)@.remaining().len() >= size ==> {
                &&& r matches Ok(v) && v@ == old(self)@.remaining().take(size as int)
                &&& final(self)@ == (StreamModel {
                    pos: (old(self)@.pos + size) as u64,
                    ..old(self)@
                })
            },
            old(self)@.remaining().len() < size ==> {
                &&& r == Err::<Vec<u8>, StreamError>(StreamError::UnexpectedEnd)
                &&& final(self)@ == old(self)@
            },
    ;

    /// Appends zero bytes until the tracked length reaches `size`; a
    /// no-op, and no error, when it is already there. The cursor and pin
    /// stack are left as found; armed accumulators see the padding.
    fn fill_size(&mut self, size: u64) -> (r: Result<(), StreamError>)
        requires
            old(self)@.wf(),
            size <= usize::MAX,
        ensures
            r == Ok::<(), StreamError>(()),
            final(self)@.wf(),
            old(self)@.length >= size ==> final(self)@ == old(self)@,
            old(self)@.length < size ==> {
                let pad = Seq::new((size - old(self)@.length) as nat, |i: int| 0u8);
                final(self)@ == (StreamModel {
                    bytes: old(self)@.bytes + pad,
                    length: size,
                    crc32: spec_feed(old(self)@.crc32, pad),
                    sha1: spec_feed(old(self)@.sha1, pad),
                    sha2: spec_feed(old(self)@.sha2, pad),
                    ..old(self)@
                })
            },
    ;

    /// Removes the resolved byte range, shifting the tail left to fill
    /// the gap and shrinking the tracked length and the storage; the
    /// shifted tail passes through the write path. The removed bytes are
    /// returned. The cursor and pin stack are left as found.
    fn drain(&mut self, start: RangeBound, end: RangeBound) -> (r: Result<Vec<u8>, StreamError>)
        requires
            old(self)@.wf(),
        ensures
            match spec_resolve_range(start, end, old(self)@.length as int) {
                Ok((s, e)) => {
                    &&& r matches Ok(v) && v@ == old(self)@.bytes.subrange(s, e)
                    &&& final(self)@.wf()
                    &&& final(self)@ == (StreamModel {
                        bytes: old(self)@.bytes.take(s) + old(self)@.bytes.skip(e),
                        length: (old(self)@.length - (e - s)) as u64,
                        crc32: spec_feed(old(self)@.crc32, old(self)@.bytes.skip(e)),
                        sha1: spec_feed(old(self)@.sha1, old(self)@.bytes.skip(e)),
                        sha2: spec_feed(old(self)@.sha2, old(self)@.bytes.skip(e)),
                        ..old(self)@
                    })
                },
                Err(err) => {
                    &&& r == Err::<Vec<u8>, StreamError>(err)
                    &&& final(self)@ == old(self)@
                },
            },
    ;

    /// Appends `data` at the end of the content through the write path;
    /// the cursor ends past the appended bytes.
    fn extend_from_slice(&mut self, data: &[u8]) -> (r: Result<(), StreamError>)
        requires
            old(self)@.wf(),
            old(self)@.length + data@.len() <= usize::MAX,
        ensures
            r == Ok::<(), StreamError>(()),
            final(self)@.wf(),
            final(self)@ == (StreamModel {
                bytes: old(self)@.bytes + data@,
                pos: (old(self)@.length + data@.len()) as u64,
                length: (old(self)@.length + data@.len()) as u64,
                crc32: spec_feed(old(self)@.crc32, data@),
                sha1: spec_feed(old(self)@.sha1, data@),
                sha2: spec_feed(old(self)@.sha2, data@),
                ..old(self)@
            }),
    ;

    /// Inserts `replace_with` at `pos`, shifting the bytes at and after
    /// `pos` to follow it; the tracked length grows by its length. The
    /// cursor and pin stack are left as found; the accumulators see
    /// nothing, the buffer is spliced in place.
    fn splice(&mut self, pos: u64, replace_with: Vec<u8>) -> (r: Result<(), StreamError>)
        requires
            old(self)@.wf(),
            pos <= old(self)@.length,
            old(self)@.length + replace_with@.len() <= usize::MAX,
        ensures
            r == Ok::<(), StreamError>(()),
            final(self)@.wf(),
            final(self)@ == (StreamModel {
                bytes: old(self)@.bytes.take(pos as int) + replace_with@ + old(
                    self,
                )@.bytes.skip(pos as int),
                length: (old(self)@.length + replace_with@.len()) as u64,
                ..old(self)@
            }),
    ;

    /// Prepends `data`, shifting the whole content to follow it; the
    /// cursor ends at the new end, and both the prefix and the re-written
    /// content pass through the write path.
    fn insert_data(&mut self, data: &[u8]) -> (r: Result<(), StreamError>)
        requires
            old(self)@.wf(),
            old(self)@.length + data@.len() <= usize::MAX,
        ensures
            r == Ok::<(), StreamError>(()),
            final(self)@.wf(),
            final(self)@ == (StreamModel {
                bytes: data@ + old(self)@.bytes,
                pos: (old(self)@.length + data@.len()) as u64,
                length: (old(self)@.length + data@.len()) as u64,
                crc32: spec_feed(old(self)@.crc32, data@ + old(self)@.bytes),
                sha1: spec_feed(old(self)@.sha1, data@ + old(self)@.bytes),
                sha2: spec_feed(old(self)@.sha2, data@ + old(self)@.bytes),
                ..old(self)@
            }),
    ;
}

} // verus!

verus! {

use crate::pin::Pin;

impl Bytes for Stream {
    fn append(&mut self, data: &mut Stream) -> (r: Result<u64, StreamError>) {
        let dlen = data.data.len_bytes();
        let dpos = data.data.position();
        let size: usize = if dpos >= dlen as u64 {
            0
        } else {
            (dlen as u64 - dpos) as usize
        };
        assert(size == old(data)@.remaining().len());
        self.copy_size_from(data, size)?;
        proof {
            if size > 0 {
                assert(old(data)@.remaining().take(size as int) =~= old(data)@.remaining());
            }
        }
        Ok(size as u64)
    }

    fn read_value<Value: ValueRead>(&mut self) -> (r: Result<Value, StreamError>) {
        Value::read(self)
    }

    fn read_value_args<Value: ValueRead, T: StreamSized>(&mut self, args: &Option<T>) -> (r:
        Result<Value, StreamError>) {
        Value::read_args(self, args)
    }

    fn read_exact_size(&mut self, size: u64) -> (r: Result<Vec<u8>, StreamError>) {
        let len = self.data.len_bytes();
        let pos = self.data.position();
        if size > 0 && (pos > len as u64 || size > len as u64 - pos) {
            return Err(StreamError::UnexpectedEnd);
        }
        let v = self.read(size as usize);
        proof {
            assert(v@ =~= old(self)@.remaining().take(size as int));
        }
        Ok(v)
    }

    fn fill_size(&mut self, size: u64) -> (r: Result<(), StreamError>) {
        if self.length < size {
            let diff = (size - self.length) as usize;
            self.pin()?;
            self.seek_end()?;
            let zeros: Vec<u8> = vec![0u8; diff];
            self.write(zeros.as_slice())?;
            self.un_pin()?;
            proof {
                assert(zeros@ =~= Seq::new((size - old(self)@.length) as nat, |i: int| 0u8));
                assert(self@.bytes =~= old(self)@.bytes + zeros@);
                assert(old(self)@.pins.push(old(self)@.pos).last() == old(self)@.pos);
                assert(old(self)@.pins.push(old(self)@.pos).drop_last() =~= old(self)@.pins);
            }
        }
        Ok(())
    }

    fn drain(&mut self, start: RangeBound, end: RangeBound) -> (r: Result<Vec<u8>, StreamError>) {
        let len = self.data.len_bytes();
        let (s, e) = self.range_bounds(start, end)?;
        self.pin()?;
        self.seek(s as u64)?;
        let drained = self.read(e - s);
        proof {
            assert(drained@ =~= old(self)@.bytes.subrange(s as int, e as int));
        }
        self.seek(e as u64)?;
        let rest = self.read(len - e);
        proof {
            assert(rest@ =~= old(self)@.bytes.skip(e as int));
        }
        self.seek(s as u64)?;
        self.write(rest.as_slice())?;
        let new_len = len - (e - s);
        self.data.truncate(new_len);
        self.un_pin()?;
        self.length = new_len as u64;
        proof {
            assert(old(self)@.pins.push(old(self)@.pos).last() == old(self)@.pos);
            assert(old(self)@.pins.push(old(self)@.pos).drop_last() =~= old(self)@.pins);
            assert(self@.bytes =~= old(self)@.bytes.take(s as int) + old(self)@.bytes.skip(
                e as int,
            ));
        }
        Ok(drained)
    }

    fn extend_from_slice(&mut self, data: &[u8]) -> (r: Result<(), StreamError>) {
        self.seek_end()?;
        self.write(data)?;
        proof {
            assert(self@.bytes =~= old(self)@.bytes + data@);
        }
        Ok(())
    }

    fn splice(&mut self, pos: u64, replace_with: Vec<u8>) -> (r: Result<(), StreamError>) {
        self.pin()?;
        let blen = self.data.len_bytes();
        self.data.insert_at(pos as usize, replace_with.as_slice());
        let n = replace_with.len();
        self.length = self.length + n as u64;
        self.un_pin()?;
        proof {
            assert(old(self)@.pins.push(old(self)@.pos).last() == old(self)@.pos);
            assert(old(self)@.pins.push(old(self)@.pos).drop_last() =~= old(self)@.pins);
        }
        Ok(())
    }

    fn insert_data(&mut self, data: &[u8]) -> (r: Result<(), StreamError>) {
        let len = self.data.len_bytes();
        self.data.seek(0)?;
        let rest = self.read(len);
        proof {
            assert(rest@ =~= old(self)@.bytes);
        }
        self.data.seek(0)?;
        self.write(data)?;
        self.write(rest.as_slice())?;
        proof {
            lemma_spec_write_bytes_append(old(self)@.bytes, 0, data@, rest@);
            assert(self@.bytes =~= data@ + old(self)@.bytes);
            match old(self)@.crc32 {
                Some(f) => {
                    assert((f + data@) + rest@ =~= f + (data@ + old(self)@.bytes));
                },
                None => {},
            }
            match old(self)@.sha1 {
                Some(f) => {
                    assert((f + data@) + rest@ =~= f + (data@ + old(self)@.bytes));
                },
                None => {},
            }
            match old(self)@.sha2 {
                Some(f) => {
                    assert((f + data@) + rest@ =~= f + (data@ + old(self)@.bytes));
                },
                None => {},
            }
        }
        Ok(())
    }
}

impl Stream {
    /// Consumes `dest` and copies its whole content, from the start, to
    /// this stream's cursor through the write path.
    pub fn merge(&mut self, dest: Stream) -> (r: Result<u64, StreamError>)
        requires
            old(self)@.wf(),
            old(self)@.pos + dest@.bytes.len() <= usize::MAX,
        ensures
            r == Ok::<u64, StreamError>(dest@.bytes.len() as u64),
            final(self)@.wf(),
            final(self)@ == spec_append_effect(old(self)@, dest@.bytes),
    {
        let mut d = dest;
        d.seek_start()?;
        proof {
            assert(d@.remaining() =~= dest@.bytes);
        }
        self.append(&mut d)
    }

    /// Encodes `value` under the stream's endianness and appends the
    /// encoding at the cursor through the write path.
    pub fn write_value<Value: ValueWrite>(&mut self, value: Value) -> (r: Result<(), StreamError>)
        requires
            old(self)@.wf(),
            old(self)@.pos + value.spec_encoded(old(self)@.endian).len() <= usize::MAX,
        ensures
            r == Ok::<(), StreamError>(()),
            final(self)@.wf(),
            final(self)@ == spec_append_effect(
                old(self)@,
                value.spec_encoded(old(self)@.endian),
            ),
    {
        let endian = self.endian;
        let ghost enc = value.spec_encoded(self@.endian);
        let mut data = value.write_args::<bool>(&endian, &None)?;
        data.seek_start()?;
        proof {
            assert(data@.remaining() =~= enc);
        }
        self.append(&mut data)?;
        Ok(())
    }

    /// Encodes `value` with arguments and appends the encoding at the
    /// cursor through the write path.
    pub fn write_value_args<Value: ValueWrite, T: StreamSized>(
        &mut self,
        value: Value,
        args: &Option<T>,
    ) -> (r: Result<(), StreamError>)
        requires
            old(self)@.wf(),
            old(self)@.pos + value.spec_encoded(old(self)@.endian).len() <= usize::MAX,
        ensures
            r == Ok::<(), StreamError>(()),
            final(self)@.wf(),
            final(self)@ == spec_append_effect(
                old(self)@,
                value.spec_encoded(old(self)@.endian),
            ),
    {
        let endian = self.endian;
        let ghost enc = value.spec_encoded(self@.endian);
        let mut data = value.write_args::<T>(&endian, args)?;
        data.seek_start()?;
        proof {
            assert(data@.remaining() =~= enc);
        }
        self.append(&mut data)?;
        Ok(())
    }
}

} // verus!

verus! {

/// Construction of a fixed-width number from an `N`-byte array in a
/// stated byte order.
pub trait FromBytes<const N: usize>: Sized {
    /// The numeric value this object stands for.
    spec fn spec_nat(self) -> nat;

    /// The value of `data` read big-endian.
    fn from_be_bytes(data: [u8; N]) -> (r: Self)
        ensures
            r.spec_nat() == spec_uint_from(Endian::Big, data@),
    ;

    /// The value of `data` read little-endian.
    fn from_le_bytes(data: [u8; N]) -> (r: Self)
        ensures
            r.spec_nat() == spec_uint_from(Endian::Little, data@),
    ;
}

impl FromBytes<2> for u16 {
    open spec fn spec_nat(self) -> nat {
        self as nat
    }

    fn from_be_bytes(data: [u8; 2]) -> (r: Self) {
        proof {
            reveal_with_fuel(pow256, 10);
            lemma_uint_from_bound(Endian::Big, data@);
        }
        decode_uint(data.as_slice(), &Endian::Big) as u16
    }

    fn from_le_bytes(data: [u8; 2]) -> (r: Self) {
        proof {
            reveal_with_fuel(pow256, 10);
            lemma_uint_from_bound(Endian::Little, data@);
        }
        decode_uint(data.as_slice(), &Endian::Little) as u16
    }
}

impl FromBytes<4> for u32 {
    open spec fn spec_nat(self) -> nat {
        self as nat
    }

    fn from_be_bytes(data: [u8; 4]) -> (r: Self) {
        proof {
            reveal_with_fuel(pow256, 10);
            lemma_uint_from_bound(Endian::Big, data@);
        }
        decode_uint(data.as_slice(), &Endian::Big) as u32
    }

    fn from_le_bytes(data: [u8; 4]) -> (r: Self) {
        proof {
            reveal_with_fuel(pow256, 10);
            lemma_uint_from_bound(Endian::Little, data@);
        }
        decode_uint(data.as_slice(), &Endian::Little) as u32
    }
}

impl FromBytes<8> for u64 {
    open spec fn spec_nat(self) -> nat {
        self as nat
    }

    fn from_be_bytes(data: [u8; 8]) -> (r: Self) {
        proof {
            reveal_with_fuel(pow256, 10);
            lemma_uint_from_bound(Endian::Big, data@);
        }
        decode_uint(data.as_slice(), &Endian::Big)
    }

    fn from_le_bytes(data: [u8; 8]) -> (r: Self) {
        proof {
            reveal_with_fuel(pow256, 10);
            lemma_uint_from_bound(Endian::Little, data@);
        }
        decode_uint(data.as_slice(), &Endian::Little)
    }
}

} // verus!

verus! {

use vstd::utf8::{
    char_is_scalar, char_u32_cast, encode_scalar, encode_utf8_decode_utf8, encode_utf8_valid_utf8,
    has_width_1_encoding, has_width_2_encoding, has_width_3_encoding, is_scalar,
};

/// Splice/drain inverse: splice `bytes` into `s` at `pos`, then drain the
/// range `[pos, pos + bytes.len())`. The drained bytes are exactly
/// `bytes`, and what stays is exactly `s`, length included.
pub proof fn lemma_splice_drain_inverse(s: Seq<u8>, pos: int, bytes: Seq<u8>)
    requires
        0 <= pos <= s.len(),
    ensures
        ({
            let spliced = s.take(pos) + bytes + s.skip(pos);
            &&& spliced.len() == s.len() + bytes.len()
            &&& spliced.subrange(pos, pos + bytes.len()) == bytes
            &&& spliced.take(pos) + spliced.skip(pos + bytes.len()) == s
        }),
{
    let spliced = s.take(pos) + bytes + s.skip(pos);
    assert(spliced.subrange(pos, pos + bytes.len()) =~= bytes);
    assert(spliced.take(pos) + spliced.skip(pos + bytes.len()) =~= s);
}

/// Shared core of the unsigned round-trip laws.
proof fn lemma_codec_round_trip_uint(endian: Endian, v: nat, w: nat, rest: Seq<u8>)
    requires
        v < pow256(w),
    ensures
        spec_uint_bytes(endian, v, w).len() == w,
        (spec_uint_bytes(endian, v, w) + rest).take(w as int) == spec_uint_bytes(endian, v, w),
        spec_uint_from(endian, spec_uint_bytes(endian, v, w)) == v,
{
    lemma_uint_bytes_len(endian, v, w);
    lemma_uint_round_trip(endian, v, w);
    assert((spec_uint_bytes(endian, v, w) + rest).take(w as int) =~= spec_uint_bytes(
        endian,
        v,
        w,
    ));
}

/// Round-trip codec law for `u8`: decoding right after encoding, under
/// either byte order and whatever follows the encoding, consumes exactly
/// the encoding and can only yield the encoded value.
pub proof fn lemma_codec_round_trip_u8(v: u8, endian: Endian, rest: Seq<u8>)
    ensures
        v.spec_encoded(endian).len() == 1,
        u8::spec_decode_len(v.spec_encoded(endian) + rest, endian) == Ok::<int, StreamError>(1int),
        (v.spec_encoded(endian) + rest).take(1) == v.spec_encoded(endian),
        v.spec_decodes(v.spec_encoded(endian), endian),
        forall|w: u8| w.spec_decodes(v.spec_encoded(endian), endian) ==> w == v,
{
    reveal_with_fuel(pow256, 10);
    lemma_codec_round_trip_uint(endian, v as nat, 1, rest);
    assert forall|w: u8| w.spec_decodes(v.spec_encoded(endian), endian) implies w == v by {
        lemma_uint_round_trip(endian, w as nat, 1);
    }
}

/// Round-trip codec law for `u16`; see `lemma_codec_round_trip_u8`.
pub proof fn lemma_codec_round_trip_u16(v: u16, endian: Endian, rest: Seq<u8>)
    ensures
        v.spec_encoded(endian).len() == 2,
        u16::spec_decode_len(v.spec_encoded(endian) + rest, endian) == Ok::<int, StreamError>(
            2int,
        ),
        (v.spec_encoded(endian) + rest).take(2) == v.spec_encoded(endian),
        v.spec_decodes(v.spec_encoded(endian), endian),
        forall|w: u16| w.spec_decodes(v.spec_encoded(endian), endian) ==> w == v,
{
    reveal_with_fuel(pow256, 10);
    lemma_codec_round_trip_uint(endian, v as nat, 2, rest);
    assert forall|w: u16| w.spec_decodes(v.spec_encoded(endian), endian) implies w == v by {
        lemma_uint_round_trip(endian, w as nat, 2);
    }
}

/// Round-trip codec law for `u32`; see `lemma_codec_round_trip_u8`.
pub proof fn lemma_codec_round_trip_u32(v: u32, endian: Endian, rest: Seq<u8>)
    ensures
        v.spec_encoded(endian).len() == 4,
        u32::spec_decode_len(v.spec_encoded(endian) + rest, endian) == Ok::<int, StreamError>(
            4int,
        ),
        (v.spec_encoded(endian) + rest).take(4) == v.spec_encoded(endian),
        v.spec_decodes(v.spec_encoded(endian), endian),
        forall|w: u32| w.spec_decodes(v.spec_encoded(endian), endian) ==> w == v,
{
    reveal_with_fuel(pow256, 10);
    lemma_codec_round_trip_uint(endian, v as nat, 4, rest);
    assert forall|w: u32| w.spec_decodes(v.spec_encoded(endian), endian) implies w == v by {
        lemma_uint_round_trip(endian, w as nat, 4);
    }
}

/// Round-trip codec law for `u64`; see `lemma_codec_round_trip_u8`.
pub proof fn lemma_codec_round_trip_u64(v: u64, endian: Endian, rest: Seq<u8>)
    ensures
        v.spec_encoded(endian).len() == 8,
        u64::spec_decode_len(v.spec_encoded(endian) + rest, endian) == Ok::<int, StreamError>(
            8int,
        ),
        (v.spec_encoded(endian) + rest).take(8) == v.spec_encoded(endian),
        v.spec_decodes(v.spec_encoded(endian), endian),
        forall|w: u64| w.spec_decodes(v.spec_encoded(endian), endian) ==> w == v,
{
    reveal_with_fuel(pow256, 10);
    lemma_codec_round_trip_uint(endian, v as nat, 8, rest);
    assert forall|w: u64| w.spec_decodes(v.spec_encoded(endian), endian) implies w == v by {
        lemma_uint_round_trip(endian, w as nat, 8);
    }
}

/// Round-trip codec law for `i8`; see `lemma_codec_round_trip_u8`.
pub proof fn lemma_codec_round_trip_i8(v: i8, endian: Endian, rest: Seq<u8>)
    ensures
        v.spec_encoded(endian).len() == 1,
        i8::spec_decode_len(v.spec_encoded(endian) + rest, endian) == Ok::<int, StreamError>(1int),
        (v.spec_encoded(endian) + rest).take(1) == v.spec_encoded(endian),
        v.spec_decodes(v.spec_encoded(endian), endian),
        forall|w: i8| w.spec_decodes(v.spec_encoded(endian), endian) ==> w == v,
{
    reveal_with_fuel(pow256, 10);
    lemma_codec_round_trip_uint(endian, spec_signed_to_unsigned(v as int, 1), 1, rest);
    assert forall|w: i8| w.spec_decodes(v.spec_encoded(endian), endian) implies w == v by {
        lemma_uint_round_trip(endian, spec_signed_to_unsigned(w as int, 1), 1);
    }
}

/// Round-trip codec law for `i16`; see `lemma_codec_round_trip_u8`.
pub proof fn lemma_codec_round_trip_i16(v: i16, endian: Endian, rest: Seq<u8>)
    ensures
        v.spec_encoded(endian).len() == 2,
        i16::spec_decode_len(v.spec_encoded(endian) + rest, endian) == Ok::<int, StreamError>(
            2int,
        ),
        (v.spec_encoded(endian) + rest).take(2) == v.spec_encoded(endian),
        v.spec_decodes(v.spec_encoded(endian), endian),
        forall|w: i16| w.spec_decodes(v.spec_encoded(endian), endian) ==> w == v,
{
    reveal_with_fuel(pow256, 10);
    lemma_codec_round_trip_uint(endian, spec_signed_to_unsigned(v as int, 2), 2, rest);
    assert forall|w: i16| w.spec_decodes(v.spec_encoded(endian), endian) implies w == v by {
        lemma_uint_round_trip(endian, spec_signed_to_unsigned(w as int, 2), 2);
    }
}

/// Round-trip codec law for `i32`; see `lemma_codec_round_trip_u8`.
pub proof fn lemma_codec_round_trip_i32(v: i32, endian: Endian, rest: Seq<u8>)
    ensures
        v.spec_encoded(endian).len() == 4,
        i32::spec_decode_len(v.spec_encoded(endian) + rest, endian) == Ok::<int, StreamError>(
            4int,
        ),
        (v.spec_encoded(endian) + rest).take(4) == v.spec_encoded(endian),
        v.spec_decodes(v.spec_encoded(endian), endian),
        forall|w: i32| w.spec_decodes(v.spec_encoded(endian), endian) ==> w == v,
{
    reveal_with_fuel(pow256, 10);
    lemma_codec_round_trip_uint(endian, spec_signed_to_unsigned(v as int, 4), 4, rest);
    assert forall|w: i32| w.spec_decodes(v.spec_encoded(endian), endian) implies w == v by {
        lemma_uint_round_trip(endian, spec_signed_to_unsigned(w as int, 4), 4);
    }
}

/// Round-trip codec law for `i64`; see `lemma_codec_round_trip_u8`.
pub proof fn lemma_codec_round_trip_i64(v: i64, endian: Endian, rest: Seq<u8>)
    ensures
        v.spec_encoded(endian).len() == 8,
        i64::spec_decode_len(v.spec_encoded(endian) + rest, endian) == Ok::<int, StreamError>(
            8int,
        ),
        (v.spec_encoded(endian) + rest).take(8) == v.spec_encoded(endian),
        v.spec_decodes(v.spec_encoded(endian), endian),
        forall|w: i64| w.spec_decodes(v.spec_encoded(endian), endian) ==> w == v,
{
    reveal_with_fuel(pow256, 10);
    lemma_codec_round_trip_uint(endian, spec_signed_to_unsigned(v as int, 8), 8, rest);
    assert forall|w: i64| w.spec_decodes(v.spec_encoded(endian), endian) implies w == v by {
        lemma_uint_round_trip(endian, spec_signed_to_unsigned(w as int, 8), 8);
    }
}

/// Round-trip codec law for `bool`; see `lemma_codec_round_trip_u8`.
pub proof fn lemma_codec_round_trip_bool(v: bool, endian: Endian, rest: Seq<u8>)
    ensures
        v.spec_encoded(endian).len() == 1,
        bool::spec_decode_len(v.spec_encoded(endian) + rest, endian) == Ok::<int, StreamError>(
            1int,
        ),
        (v.spec_encoded(endian) + rest).take(1) == v.spec_encoded(endian),
        v.spec_decodes(v.spec_encoded(endian), endian),
        forall|w: bool| w.spec_decodes(v.spec_encoded(endian), endian) ==> w == v,
{
    assert((v.spec_encoded(endian) + rest).take(1) =~= v.spec_encoded(endian));
}

/// Every byte of a scalar's UTF-8 encoding is nonzero when the scalar is.
proof fn lemma_encode_scalar_nonzero(scalar: u32)
    requires
        is_scalar(scalar),
        scalar != 0,
    ensures
        forall|j: int|
            0 <= j < encode_scalar(scalar).len() ==> #[trigger] encode_scalar(scalar)[j] != 0,
{
    if has_width_1_encoding(scalar) {
        assert((scalar & 0x7F) as u8 != 0) by (bit_vector)
            requires
                scalar < 0x80,
                scalar != 0,
        ;
    } else if has_width_2_encoding(scalar) {
        assert(0xC0u8 | ((scalar >> 6) & 0x1F) as u8 != 0) by (bit_vector);
        assert(0x80u8 | (scalar & 0x3F) as u8 != 0) by (bit_vector);
    } else if has_width_3_encoding(scalar) {
        assert(0xE0u8 | ((scalar >> 12) & 0x0F) as u8 != 0) by (bit_vector);
        assert(0x80u8 | ((scalar >> 6) & 0x3F) as u8 != 0) by (bit_vector);
        assert(0x80u8 | (scalar & 0x3F) as u8 != 0) by (bit_vector);
    } else {
        assert(0xF0u8 | ((scalar >> 18) & 0x7) as u8 != 0) by (bit_vector);
        assert(0x80u8 | ((scalar >> 12) & 0x3F) as u8 != 0) by (bit_vector);
        assert(0x80u8 | ((scalar >> 6) & 0x3F) as u8 != 0) by (bit_vector);
        assert(0x80u8 | (scalar & 0x3F) as u8 != 0) by (bit_vector);
    }
}

/// The UTF-8 encoding of a NUL-free character sequence has no zero byte.
proof fn lemma_encode_utf8_no_zero(chars: Seq<char>)
    requires
        forall|i: int| 0 <= i < chars.len() ==> chars[i] != '\0',
    ensures
        forall|j: int|
            0 <= j < encode_utf8(chars).len() ==> #[trigger] encode_utf8(chars)[j] != 0,
    decreases chars.len(),
{
    if chars.len() > 0 {
        char_is_scalar(chars[0]);
        assert(chars[0] as u32 != 0) by {
            if chars[0] as u32 == 0 {
                char_u32_cast(chars[0], 0u32);
                assert('\0' as u32 == 0);
                char_u32_cast('\0', 0u32);
            }
        }
        lemma_encode_scalar_nonzero(chars[0] as u32);
        assert(forall|i: int|
            0 <= i < chars.drop_first().len() ==> #[trigger] chars.drop_first()[i] != '\0');
        lemma_encode_utf8_no_zero(chars.drop_first());
        let head = encode_scalar(chars[0] as u32);
        let tail = encode_utf8(chars.drop_first());
        assert forall|j: int|
            0 <= j < encode_utf8(chars).len() implies #[trigger] encode_utf8(chars)[j] != 0 by {
            if j < head.len() {
                assert(encode_utf8(chars)[j] == head[j]);
            } else {
                assert(encode_utf8(chars)[j] == tail[j - head.len()]);
            }
        }
    }
}

/// Round-trip codec law for null-terminated strings: for a string without
/// NUL characters, decoding right after encoding, whatever follows,
/// consumes exactly the encoding (UTF-8 bytes plus the terminator) and
/// every value it can yield reads back as the same character sequence.
pub proof fn lemma_codec_round_trip_string(s: String, endian: Endian, rest: Seq<u8>)
    requires
        !s@.contains('\0'),
    ensures
        String::spec_decode_len(s.spec_encoded(endian) + rest, endian) == Ok::<int, StreamError>(
            s.spec_encoded(endian).len() as int,
        ),
        (s.spec_encoded(endian) + rest).take(s.spec_encoded(endian).len() as int)
            == s.spec_encoded(endian),
        s.spec_decodes(s.spec_encoded(endian), endian),
        forall|t: String| t.spec_decodes(s.spec_encoded(endian), endian) ==> t@ == s@,
{
    let utf8 = encode_utf8(s@);
    let enc = s.spec_encoded(endian);
    let all = enc + rest;
    assert forall|i: int| 0 <= i < s@.len() implies s@[i] != '\0' by {
        if s@[i] == '\0' {
            assert(s@.contains('\0'));
        }
    }
    lemma_encode_utf8_no_zero(s@);
    assert forall|j: int| 0 <= j < utf8.len() implies all[j] != 0 by {
        assert(all[j] == utf8[j]);
    }
    assert(all[utf8.len() as int] == 0);
    lemma_find_zero_at(all, utf8.len() as int);
    encode_utf8_valid_utf8(s@);
    assert(all.take(utf8.len() as int) =~= utf8);
    encode_utf8_decode_utf8(s@);
    assert(all.take(enc.len() as int) =~= enc);
    assert(enc.last() == 0);
    assert(enc.drop_last() =~= utf8);
}

} // verus!

