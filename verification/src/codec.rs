//! The byte-level consensus codec: error kinds, the codec trait with its
//! specification-level serializer and parser, and the primitive integer and
//! byte-sequence codecs that everything else is built from.
//!
//! Every encoded value is a big-endian byte string.  Each codec type `T` has a
//! mathematical model `T::V` (its deep view); `spec_ser` says exactly which
//! bytes a model serializes to, and `spec_parse` says exactly what a byte
//! string parses to (value, bytes consumed) or which error it raises.  The
//! executable functions are proved equal to these two specifications, and the
//! round-trip laws are proved once per type from them.
use vstd::prelude::*;

verus! {

/// Errors raised while encoding or decoding consensus data.
///
/// `Underflow` covers every shortage of input bytes, the codec's view of an
/// unexpected end of file; `Deserialize` covers structural and
/// semantic violations: a bad tag, a length over its cap, a zero field where
/// one is disallowed, a broken preamble invariant.
#[derive(Clone, Copy, Debug, PartialEq, Eq, Structural)]
pub enum CodecError {
    Underflow,
    Deserialize,
}

/// Errors raised by the message-level operations (framing, signing,
/// verification) on top of the plain codec errors.
#[derive(Clone, Copy, Debug, PartialEq, Eq, Structural)]
pub enum NetError {
    Underflow,
    Deserialize,
    InvalidMessage,
    SigningError,
    VerifyingError,
}

impl NetError {
    /// Lift a codec error into the message-level error space, kind for kind.
    pub fn from_codec(e: CodecError) -> (r: NetError)
        ensures
            r == NetError::from_codec_spec(e),
    {
        match e {
            CodecError::Underflow => NetError::Underflow,
            CodecError::Deserialize => NetError::Deserialize,
        }
    }

    pub open spec fn from_codec_spec(e: CodecError) -> NetError {
        match e {
            CodecError::Underflow => NetError::Underflow,
            CodecError::Deserialize => NetError::Deserialize,
        }
    }
}

/// A type with a byte-exact consensus encoding.
///
/// The contract is stated over the type's deep view (its model): `spec_ser`
/// is the total serialization function on models, `spec_parse` the total
/// parsing function on byte strings, and the two proof obligations make every
/// implementation sound (whatever parses re-serializes to exactly the bytes
/// consumed) and complete (a serialized well-formed value, followed by
/// anything, parses back to itself).  `consensus_serialize` and
/// `consensus_deserialize` are the executable functions, pinned to the
/// specification on success and on every error.
pub trait StacksMessageCodec: DeepView + Sized {
    /// Which models are legal to serialize.
    spec fn spec_wf(m: Self::V) -> bool;

    /// The exact bytes a model serializes to.
    spec fn spec_ser(m: Self::V) -> Seq<u8>;

    /// The exact parse of a byte string: the model and the count of bytes
    /// consumed, or the error the input raises.
    spec fn spec_parse(b: Seq<u8>) -> Result<(Self::V, int), CodecError>;

    /// Soundness: a successful parse consumed a prefix that is exactly the
    /// serialization of the well-formed value it returned.
    proof fn lemma_parse_sound(b: Seq<u8>)
        ensures
            match Self::spec_parse(b) {
                Ok((m, n)) => Self::spec_wf(m) && 0 <= n <= b.len() && Self::spec_ser(m)
                    == b.subrange(0, n),
                Err(_) => true,
            },
    ;

    /// Completeness (round trip): serializing a well-formed value and parsing
    /// it back, with any suffix present, returns that value and consumes
    /// exactly its encoding.
    proof fn lemma_parse_ser(m: Self::V, rest: Seq<u8>)
        requires
            Self::spec_wf(m),
        ensures
            Self::spec_parse(Self::spec_ser(m) + rest) == Ok::<_, CodecError>(
                (m, Self::spec_ser(m).len() as int),
            ),
    ;

    /// Append the encoding of `self` to `out`.
    fn consensus_serialize(&self, out: &mut Vec<u8>)
        requires
            Self::spec_wf(self.deep_view()),
            old(out)@.len() + Self::spec_ser(self.deep_view()).len() <= usize::MAX,
        ensures
            final(out)@ == old(out)@ + Self::spec_ser(self.deep_view()),
    ;

    /// Decode one value from `buf[pos..end]`; on success return it with the
    /// position just past its encoding.
    fn consensus_deserialize(buf: &Vec<u8>, pos: usize, end: usize) -> (r: Result<
        (Self, usize),
        CodecError,
    >)
        requires
            pos <= end <= buf@.len(),
        ensures
            match r {
                Ok((v, n)) => pos <= n <= end && Self::spec_parse(
                    buf@.subrange(pos as int, end as int),
                ) == Ok::<_, CodecError>((v.deep_view(), n - pos)),
                Err(e) => Self::spec_parse(buf@.subrange(pos as int, end as int)) == Err::<
                    (Self::V, int),
                    _,
                >(e),
            },
    ;
}


/// The big-endian value of the first two bytes.
pub open spec fn be_u16(b: Seq<u8>) -> u16 {
    ((b[0] as u16) << 8u16) | (b[1] as u16)
}

/// The big-endian value of the first four bytes.
pub open spec fn be_u32(b: Seq<u8>) -> u32 {
    ((b[0] as u32) << 24u32) | ((b[1] as u32) << 16u32) | ((b[2] as u32) << 8u32) | (b[3] as u32)
}

/// The big-endian value of the first eight bytes.
pub open spec fn be_u64(b: Seq<u8>) -> u64 {
    ((b[0] as u64) << 56u64) | ((b[1] as u64) << 48u64) | ((b[2] as u64) << 40u64) | ((b[3] as u64)
        << 32u64) | ((b[4] as u64) << 24u64) | ((b[5] as u64) << 16u64) | ((b[6] as u64) << 8u64)
        | (b[7] as u64)
}

impl StacksMessageCodec for u8 {
    open spec fn spec_wf(m: u8) -> bool {
        true
    }

    open spec fn spec_ser(m: u8) -> Seq<u8> {
        seq![m]
    }

    open spec fn spec_parse(b: Seq<u8>) -> Result<(u8, int), CodecError> {
        if b.len() < 1 {
            Err(CodecError::Underflow)
        } else {
            Ok((b[0], 1))
        }
    }

    proof fn lemma_parse_sound(b: Seq<u8>) {
        if b.len() >= 1 {
            assert(Self::spec_ser(b[0]) =~= b.subrange(0, 1));
        }
    }

    proof fn lemma_parse_ser(m: u8, rest: Seq<u8>) {
        assert((seq![m] + rest)[0] == m);
    }

    fn consensus_serialize(&self, out: &mut Vec<u8>) {
        out.push(*self);
        assert(out@ =~= old(out)@ + seq![*self]);
    }

    fn consensus_deserialize(buf: &Vec<u8>, pos: usize, end: usize) -> (r: Result<
        (u8, usize),
        CodecError,
    >) {
        if pos >= end {
            return Err(CodecError::Underflow);
        }
        let v = buf[pos];
        assert(buf@.subrange(pos as int, end as int)[0] == v);
        Ok((v, pos + 1))
    }
}

impl StacksMessageCodec for u16 {
    open spec fn spec_wf(m: u16) -> bool {
        true
    }

    open spec fn spec_ser(m: u16) -> Seq<u8> {
        seq![(m >> 8u16) as u8, (m & 0xffu16) as u8]
    }

    open spec fn spec_parse(b: Seq<u8>) -> Result<(u16, int), CodecError> {
        if b.len() < 2 {
            Err(CodecError::Underflow)
        } else {
            Ok((be_u16(b), 2))
        }
    }

    proof fn lemma_parse_sound(b: Seq<u8>) {
        if b.len() >= 2 {
            let m = ((b[0] as u16) << 8u16) | (b[1] as u16);
            let b0 = b[0];
            let b1 = b[1];
            assert((m >> 8u16) as u8 == b0 && (m & 0xffu16) as u8 == b1) by {
                assert(((((b0 as u16) << 8u16) | (b1 as u16)) >> 8u16) as u8 == b0
                    && ((((b0 as u16) << 8u16) | (b1 as u16)) & 0xffu16) as u8 == b1)
                    by (bit_vector);
            }
            assert(Self::spec_ser(m) =~= b.subrange(0, 2));
        }
    }

    proof fn lemma_parse_ser(m: u16, rest: Seq<u8>) {
        let b = Self::spec_ser(m) + rest;
        assert(b[0] == (m >> 8u16) as u8 && b[1] == (m & 0xffu16) as u8);
        assert((((m >> 8u16) as u8 as u16) << 8u16) | ((m & 0xffu16) as u8 as u16) == m)
            by (bit_vector);
    }

    fn consensus_serialize(&self, out: &mut Vec<u8>) {
        let m = *self;
        out.push((m >> 8u16) as u8);
        out.push((m & 0xffu16) as u8);
        assert(out@ =~= old(out)@ + Self::spec_ser(m));
    }

    fn consensus_deserialize(buf: &Vec<u8>, pos: usize, end: usize) -> (r: Result<
        (u16, usize),
        CodecError,
    >) {
        if end - pos < 2 {
            assert(buf@.subrange(pos as int, end as int).len() < 2);
            return Err(CodecError::Underflow);
        }
        let b0 = buf[pos];
        let b1 = buf[pos + 1];
        let ghost w = buf@.subrange(pos as int, end as int);
        assert(w[0] == b0 && w[1] == b1);
        Ok((((b0 as u16) << 8u16) | (b1 as u16), pos + 2))
    }
}

impl StacksMessageCodec for u32 {
    open spec fn spec_wf(m: u32) -> bool {
        true
    }

    open spec fn spec_ser(m: u32) -> Seq<u8> {
        seq![
            (m >> 24u32) as u8,
            ((m >> 16u32) & 0xffu32) as u8,
            ((m >> 8u32) & 0xffu32) as u8,
            (m & 0xffu32) as u8,
        ]
    }

    open spec fn spec_parse(b: Seq<u8>) -> Result<(u32, int), CodecError> {
        if b.len() < 4 {
            Err(CodecError::Underflow)
        } else {
            Ok((be_u32(b), 4))
        }
    }

    proof fn lemma_parse_sound(b: Seq<u8>) {
        if b.len() >= 4 {
            let b0 = b[0];
            let b1 = b[1];
            let b2 = b[2];
            let b3 = b[3];
            let m = ((b0 as u32) << 24u32) | ((b1 as u32) << 16u32) | ((b2 as u32) << 8u32) | (
            b3 as u32);
            assert((m >> 24u32) as u8 == b0 && ((m >> 16u32) & 0xffu32) as u8 == b1 && ((m
                >> 8u32) & 0xffu32) as u8 == b2 && (m & 0xffu32) as u8 == b3) by {
                assert({
                    let m = ((b0 as u32) << 24u32) | ((b1 as u32) << 16u32) | ((b2 as u32)
                        << 8u32) | (b3 as u32);
                    (m >> 24u32) as u8 == b0 && ((m >> 16u32) & 0xffu32) as u8 == b1 && ((m
                        >> 8u32) & 0xffu32) as u8 == b2 && (m & 0xffu32) as u8 == b3
                }) by (bit_vector);
            }
            assert(Self::spec_ser(m) =~= b.subrange(0, 4));
        }
    }

    proof fn lemma_parse_ser(m: u32, rest: Seq<u8>) {
        let b = Self::spec_ser(m) + rest;
        assert(b[0] == (m >> 24u32) as u8 && b[1] == ((m >> 16u32) & 0xffu32) as u8 && b[2] == ((m
            >> 8u32) & 0xffu32) as u8 && b[3] == (m & 0xffu32) as u8);
        assert((((m >> 24u32) as u8 as u32) << 24u32) | ((((m >> 16u32) & 0xffu32) as u8 as u32)
            << 16u32) | ((((m >> 8u32) & 0xffu32) as u8 as u32) << 8u32) | ((m & 0xffu32) as u8
            as u32) == m) by (bit_vector);
    }

    fn consensus_serialize(&self, out: &mut Vec<u8>) {
        let m = *self;
        out.push((m >> 24u32) as u8);
        out.push(((m >> 16u32) & 0xffu32) as u8);
        out.push(((m >> 8u32) & 0xffu32) as u8);
        out.push((m & 0xffu32) as u8);
        assert(out@ =~= old(out)@ + Self::spec_ser(m));
    }

    fn consensus_deserialize(buf: &Vec<u8>, pos: usize, end: usize) -> (r: Result<
        (u32, usize),
        CodecError,
    >) {
        if end - pos < 4 {
            assert(buf@.subrange(pos as int, end as int).len() < 4);
            return Err(CodecError::Underflow);
        }
        let b0 = buf[pos];
        let b1 = buf[pos + 1];
        let b2 = buf[pos + 2];
        let b3 = buf[pos + 3];
        let ghost w = buf@.subrange(pos as int, end as int);
        assert(w[0] == b0 && w[1] == b1 && w[2] == b2 && w[3] == b3);
        Ok(
            (
                ((b0 as u32) << 24u32) | ((b1 as u32) << 16u32) | ((b2 as u32) << 8u32) | (
                b3 as u32),
                pos + 4,
            ),
        )
    }
}

impl StacksMessageCodec for u64 {
    open spec fn spec_wf(m: u64) -> bool {
        true
    }

    open spec fn spec_ser(m: u64) -> Seq<u8> {
        seq![
            (m >> 56u64) as u8,
            ((m >> 48u64) & 0xffu64) as u8,
            ((m >> 40u64) & 0xffu64) as u8,
            ((m >> 32u64) & 0xffu64) as u8,
            ((m >> 24u64) & 0xffu64) as u8,
            ((m >> 16u64) & 0xffu64) as u8,
            ((m >> 8u64) & 0xffu64) as u8,
            (m & 0xffu64) as u8,
        ]
    }

    open spec fn spec_parse(b: Seq<u8>) -> Result<(u64, int), CodecError> {
        if b.len() < 8 {
            Err(CodecError::Underflow)
        } else {
            Ok((be_u64(b), 8))
        }
    }

    proof fn lemma_parse_sound(b: Seq<u8>) {
        if b.len() >= 8 {
            let b0 = b[0];
            let b1 = b[1];
            let b2 = b[2];
            let b3 = b[3];
            let b4 = b[4];
            let b5 = b[5];
            let b6 = b[6];
            let b7 = b[7];
            let m = ((b0 as u64) << 56u64) | ((b1 as u64) << 48u64) | ((b2 as u64) << 40u64) | ((
            b3 as u64) << 32u64) | ((b4 as u64) << 24u64) | ((b5 as u64) << 16u64) | ((b6 as u64)
                << 8u64) | (b7 as u64);
            assert((m >> 56u64) as u8 == b0 && ((m >> 48u64) & 0xffu64) as u8 == b1 && ((m
                >> 40u64) & 0xffu64) as u8 == b2 && ((m >> 32u64) & 0xffu64) as u8 == b3 && ((m
                >> 24u64) & 0xffu64) as u8 == b4 && ((m >> 16u64) & 0xffu64) as u8 == b5 && ((m
                >> 8u64) & 0xffu64) as u8 == b6 && (m & 0xffu64) as u8 == b7) by {
                assert({
                    let m = ((b0 as u64) << 56u64) | ((b1 as u64) << 48u64) | ((b2 as u64)
                        << 40u64) | ((b3 as u64) << 32u64) | ((b4 as u64) << 24u64) | ((b5 as u64)
                        << 16u64) | ((b6 as u64) << 8u64) | (b7 as u64);
                    (m >> 56u64) as u8 == b0 && ((m >> 48u64) & 0xffu64) as u8 == b1 && ((m
                        >> 40u64) & 0xffu64) as u8 == b2 && ((m >> 32u64) & 0xffu64) as u8 == b3
                        && ((m >> 24u64) & 0xffu64) as u8 == b4 && ((m >> 16u64) & 0xffu64) as u8
                        == b5 && ((m >> 8u64) & 0xffu64) as u8 == b6 && (m & 0xffu64) as u8 == b7
                }) by (bit_vector);
            }
            assert(Self::spec_ser(m) =~= b.subrange(0, 8));
        }
    }

    proof fn lemma_parse_ser(m: u64, rest: Seq<u8>) {
        let b = Self::spec_ser(m) + rest;
        assert(b[0] == (m >> 56u64) as u8 && b[1] == ((m >> 48u64) & 0xffu64) as u8 && b[2] == ((m
            >> 40u64) & 0xffu64) as u8 && b[3] == ((m >> 32u64) & 0xffu64) as u8 && b[4] == ((m
            >> 24u64) & 0xffu64) as u8 && b[5] == ((m >> 16u64) & 0xffu64) as u8 && b[6] == ((m
            >> 8u64) & 0xffu64) as u8 && b[7] == (m & 0xffu64) as u8);
        assert((((m >> 56u64) as u8 as u64) << 56u64) | ((((m >> 48u64) & 0xffu64) as u8 as u64)
            << 48u64) | ((((m >> 40u64) & 0xffu64) as u8 as u64) << 40u64) | ((((m >> 32u64)
            & 0xffu64) as u8 as u64) << 32u64) | ((((m >> 24u64) & 0xffu64) as u8 as u64)
            << 24u64) | ((((m >> 16u64) & 0xffu64) as u8 as u64) << 16u64) | ((((m >> 8u64)
            & 0xffu64) as u8 as u64) << 8u64) | ((m & 0xffu64) as u8 as u64) == m)
            by (bit_vector);
    }

    fn consensus_serialize(&self, out: &mut Vec<u8>) {
        let m = *self;
        out.push((m >> 56u64) as u8);
        out.push(((m >> 48u64) & 0xffu64) as u8);
        out.push(((m >> 40u64) & 0xffu64) as u8);
        out.push(((m >> 32u64) & 0xffu64) as u8);
        out.push(((m >> 24u64) & 0xffu64) as u8);
        out.push(((m >> 16u64) & 0xffu64) as u8);
        out.push(((m >> 8u64) & 0xffu64) as u8);
        out.push((m & 0xffu64) as u8);
        assert(out@ =~= old(out)@ + Self::spec_ser(m));
    }

    fn consensus_deserialize(buf: &Vec<u8>, pos: usize, end: usize) -> (r: Result<
        (u64, usize),
        CodecError,
    >) {
        if end - pos < 8 {
            assert(buf@.subrange(pos as int, end as int).len() < 8);
            return Err(CodecError::Underflow);
        }
        let b0 = buf[pos];
        let b1 = buf[pos + 1];
        let b2 = buf[pos + 2];
        let b3 = buf[pos + 3];
        let b4 = buf[pos + 4];
        let b5 = buf[pos + 5];
        let b6 = buf[pos + 6];
        let b7 = buf[pos + 7];
        let ghost w = buf@.subrange(pos as int, end as int);
        assert(w[0] == b0 && w[1] == b1 && w[2] == b2 && w[3] == b3 && w[4] == b4 && w[5] == b5
            && w[6] == b6 && w[7] == b7);
        Ok(
            (
                ((b0 as u64) << 56u64) | ((b1 as u64) << 48u64) | ((b2 as u64) << 40u64) | ((
                b3 as u64) << 32u64) | ((b4 as u64) << 24u64) | ((b5 as u64) << 16u64) | ((
                b6 as u64) << 8u64) | (b7 as u64),
                pos + 8,
            ),
        )
    }
}

/// The parse of a run of exactly `n` raw bytes (no length prefix).
pub open spec fn spec_parse_raw(b: Seq<u8>, n: int) -> Result<(Seq<u8>, int), CodecError> {
    if b.len() < n {
        Err(CodecError::Underflow)
    } else {
        Ok((b.take(n), n))
    }
}

/// Copy `n` raw bytes out of `buf[pos..end]`.
pub fn read_raw_bytes(buf: &Vec<u8>, pos: usize, end: usize, n: usize) -> (r: Result<
    (Vec<u8>, usize),
    CodecError,
>)
    requires
        pos <= end <= buf@.len(),
    ensures
        match r {
            Ok((v, m)) => pos <= m <= end && spec_parse_raw(
                buf@.subrange(pos as int, end as int),
                n as int,
            ) == Ok::<_, CodecError>((v@, m - pos)),
            Err(e) => spec_parse_raw(buf@.subrange(pos as int, end as int), n as int) == Err::<
                (Seq<u8>, int),
                _,
            >(e),
        },
{
    if end - pos < n {
        return Err(CodecError::Underflow);
    }
    let mut v: Vec<u8> = Vec::new();
    let mut i: usize = 0;
    while i < n
        invariant
            i <= n,
            pos + n <= end <= buf@.len(),
            v@ =~= buf@.subrange(pos as int, pos + i),
        decreases n - i,
    {
        v.push(buf[pos + i]);
        assert(v@ =~= buf@.subrange(pos as int, pos + i + 1));
        i = i + 1;
    }
    assert(buf@.subrange(pos as int, end as int).take(n as int) =~= buf@.subrange(
        pos as int,
        pos + n,
    ));
    Ok((v, pos + n))
}

/// Append raw bytes (no length prefix) to `out`.
pub fn write_raw_bytes(out: &mut Vec<u8>, b: &Vec<u8>)
    requires
        old(out)@.len() + b@.len() <= usize::MAX,
    ensures
        final(out)@ == old(out)@ + b@,
{
    let mut i: usize = 0;
    while i < b.len()
        invariant
            i <= b@.len(),
            out@ =~= old(out)@ + b@.take(i as int),
            out@.len() <= usize::MAX,
            b@.len() + old(out)@.len() <= usize::MAX,
        decreases b@.len() - i,
    {
        out.push(b[i]);
        assert(out@ =~= old(out)@ + b@.take(i + 1));
        i = i + 1;
    }
    assert(out@ =~= old(out)@ + b@);
}

} // verus!

verus! {

/// Model-level serialization of a run of elements, one encoding after the other.
pub open spec fn spec_ser_elems<T: StacksMessageCodec>(ms: Seq<<T as DeepView>::V>) -> Seq<u8>
    decreases ms.len(),
{
    if ms.len() == 0 {
        Seq::empty()
    } else {
        T::spec_ser(ms[0]) + spec_ser_elems::<T>(ms.drop_first())
    }
}

/// Every element of the run is well-formed.
pub open spec fn spec_wf_elems<T: StacksMessageCodec>(ms: Seq<<T as DeepView>::V>) -> bool {
    forall|i: int| 0 <= i < ms.len() ==> T::spec_wf(#[trigger] ms[i])
}

/// Model-level parse of exactly `count` elements, one after the other.
pub open spec fn spec_parse_elems<T: StacksMessageCodec>(b: Seq<u8>, count: int) -> Result<
    (Seq<<T as DeepView>::V>, int),
    CodecError,
>
    decreases count,
{
    if count <= 0 {
        Ok((Seq::empty(), 0))
    } else {
        match T::spec_parse(b) {
            Ok((m, n)) => match spec_parse_elems::<T>(b.skip(n), count - 1) {
                Ok((ms, k)) => Ok((seq![m] + ms, n + k)),
                Err(e) => Err(e),
            },
            Err(e) => Err(e),
        }
    }
}

/// A length-prefixed sequence: a 32-bit big-endian count, then the elements.
pub open spec fn spec_ser_vec<T: StacksMessageCodec>(ms: Seq<<T as DeepView>::V>) -> Seq<u8> {
    <u32 as StacksMessageCodec>::spec_ser(ms.len() as u32) + spec_ser_elems::<T>(ms)
}

/// Parse of a length-prefixed sequence whose declared count must not exceed `max`.
pub open spec fn spec_parse_vec_at_most<T: StacksMessageCodec>(b: Seq<u8>, max: int) -> Result<
    (Seq<<T as DeepView>::V>, int),
    CodecError,
> {
    match <u32 as StacksMessageCodec>::spec_parse(b) {
        Ok((count, n)) => if count > max {
            Err(CodecError::Deserialize)
        } else {
            match spec_parse_elems::<T>(b.skip(n), count as int) {
                Ok((ms, k)) => Ok((ms, n + k)),
                Err(e) => Err(e),
            }
        },
        Err(e) => Err(e),
    }
}

/// Parse of a length-prefixed sequence whose declared count must equal `want`.
pub open spec fn spec_parse_vec_exact<T: StacksMessageCodec>(b: Seq<u8>, want: int) -> Result<
    (Seq<<T as DeepView>::V>, int),
    CodecError,
> {
    match <u32 as StacksMessageCodec>::spec_parse(b) {
        Ok((count, n)) => if count != want {
            Err(CodecError::Deserialize)
        } else {
            match spec_parse_elems::<T>(b.skip(n), count as int) {
                Ok((ms, k)) => Ok((ms, n + k)),
                Err(e) => Err(e),
            }
        },
        Err(e) => Err(e),
    }
}

/// A run of elements serializes piecewise: splitting the run splits the bytes.
pub proof fn lemma_ser_elems_split<T: StacksMessageCodec>(ms: Seq<<T as DeepView>::V>, i: int)
    requires
        0 <= i <= ms.len(),
    ensures
        spec_ser_elems::<T>(ms) == spec_ser_elems::<T>(ms.take(i)) + spec_ser_elems::<T>(
            ms.skip(i),
        ),
    decreases i,
{
    if i == 0 {
        assert(ms.take(0) =~= Seq::<<T as DeepView>::V>::empty());
        assert(ms.skip(0) =~= ms);
        assert(spec_ser_elems::<T>(ms) =~= spec_ser_elems::<T>(ms.take(0)) + spec_ser_elems::<T>(
            ms.skip(0),
        ));
    } else {
        let tail = ms.drop_first();
        lemma_ser_elems_split::<T>(tail, i - 1);
        assert(tail.take(i - 1) =~= ms.take(i).drop_first());
        assert(tail.skip(i - 1) =~= ms.skip(i));
        assert(ms.take(i).len() != 0 && ms.take(i)[0] == ms[0]);
        assert(spec_ser_elems::<T>(ms.take(i)) == T::spec_ser(ms[0]) + spec_ser_elems::<T>(
            tail.take(i - 1),
        ));
        assert(spec_ser_elems::<T>(ms) =~= spec_ser_elems::<T>(ms.take(i)) + spec_ser_elems::<T>(
            ms.skip(i),
        ));
    }
}

/// Appending one element to a run appends its encoding to the bytes.
pub proof fn lemma_ser_elems_push<T: StacksMessageCodec>(
    ms: Seq<<T as DeepView>::V>,
    m: <T as DeepView>::V,
)
    ensures
        spec_ser_elems::<T>(ms.push(m)) == spec_ser_elems::<T>(ms) + T::spec_ser(m),
{
    lemma_ser_elems_split::<T>(ms.push(m), ms.len() as int);
    assert(ms.push(m).take(ms.len() as int) =~= ms);
    let one = ms.push(m).skip(ms.len() as int);
    assert(one.len() == 1 && one[0] == m);
    assert(one.drop_first() =~= Seq::<<T as DeepView>::V>::empty());
    assert(spec_ser_elems::<T>(Seq::<<T as DeepView>::V>::empty()) == Seq::<u8>::empty());
    assert(spec_ser_elems::<T>(one) == T::spec_ser(m) + Seq::<u8>::empty());
    assert(T::spec_ser(m) + Seq::<u8>::empty() =~= T::spec_ser(m));
}

/// Soundness of the element-run parser: it consumes exactly the
/// serialization of the `count` well-formed elements it returns.
pub proof fn lemma_parse_elems_sound<T: StacksMessageCodec>(b: Seq<u8>, count: int)
    ensures
        match spec_parse_elems::<T>(b, count) {
            Ok((ms, n)) => ms.len() == if count <= 0 {
                0
            } else {
                count
            } && spec_wf_elems::<T>(ms) && 0 <= n <= b.len() && spec_ser_elems::<T>(ms)
                == b.subrange(0, n),
            Err(_) => true,
        },
    decreases count,
{
    if count <= 0 {
        assert(spec_ser_elems::<T>(Seq::<<T as DeepView>::V>::empty()) =~= b.subrange(0, 0));
    } else {
        T::lemma_parse_sound(b);
        match T::spec_parse(b) {
            Ok((m, n)) => {
                lemma_parse_elems_sound::<T>(b.skip(n), count - 1);
                match spec_parse_elems::<T>(b.skip(n), count - 1) {
                    Ok((ms, k)) => {
                        let whole = seq![m] + ms;
                        assert(whole.drop_first() =~= ms);
                        assert(spec_ser_elems::<T>(whole) == T::spec_ser(m) + spec_ser_elems::<T>(
                            ms,
                        ));
                        assert(b.skip(n).subrange(0, k) =~= b.subrange(n, n + k));
                        assert(T::spec_ser(m) + spec_ser_elems::<T>(ms) =~= b.subrange(0, n + k));
                        assert(forall|i: int|
                            0 <= i < whole.len() ==> T::spec_wf(#[trigger] whole[i]));
                    },
                    Err(_) => {},
                }
            },
            Err(_) => {},
        }
    }
}

/// Round trip of the element-run parser: the serialization of a well-formed
/// run, followed by anything, parses back to the run.
pub proof fn lemma_parse_ser_elems<T: StacksMessageCodec>(
    ms: Seq<<T as DeepView>::V>,
    rest: Seq<u8>,
)
    requires
        spec_wf_elems::<T>(ms),
    ensures
        spec_parse_elems::<T>(spec_ser_elems::<T>(ms) + rest, ms.len() as int) == Ok::<
            _,
            CodecError,
        >((ms, spec_ser_elems::<T>(ms).len() as int)),
    decreases ms.len(),
{
    if ms.len() == 0 {
        assert(ms =~= Seq::<<T as DeepView>::V>::empty());
    } else {
        let tail = ms.drop_first();
        let b = spec_ser_elems::<T>(ms) + rest;
        assert(b =~= T::spec_ser(ms[0]) + (spec_ser_elems::<T>(tail) + rest));
        T::lemma_parse_ser(ms[0], spec_ser_elems::<T>(tail) + rest);
        let n0 = T::spec_ser(ms[0]).len() as int;
        assert(b.skip(n0) =~= spec_ser_elems::<T>(tail) + rest);
        lemma_parse_ser_elems::<T>(tail, rest);
        assert(seq![ms[0]] + tail =~= ms);
    }
}

/// Soundness of the capped length-prefixed parser.
pub proof fn lemma_parse_vec_at_most_sound<T: StacksMessageCodec>(b: Seq<u8>, max: int)
    ensures
        match spec_parse_vec_at_most::<T>(b, max) {
            Ok((ms, n)) => ms.len() <= max && ms.len() <= u32::MAX && spec_wf_elems::<T>(ms) && 0
                <= n <= b.len() && spec_ser_vec::<T>(ms) == b.subrange(0, n),
            Err(_) => true,
        },
{
    <u32 as StacksMessageCodec>::lemma_parse_sound(b);
    match <u32 as StacksMessageCodec>::spec_parse(b) {
        Ok((count, n)) => {
            if count <= max {
                lemma_parse_elems_sound::<T>(b.skip(n), count as int);
                match spec_parse_elems::<T>(b.skip(n), count as int) {
                    Ok((ms, k)) => {
                        assert(b.skip(n).subrange(0, k) =~= b.subrange(n, n + k));
                        assert(spec_ser_vec::<T>(ms) =~= b.subrange(0, n + k));
                    },
                    Err(_) => {},
                }
            }
        },
        Err(_) => {},
    }
}

/// Round trip of the capped length-prefixed parser.
pub proof fn lemma_parse_ser_vec_at_most<T: StacksMessageCodec>(
    ms: Seq<<T as DeepView>::V>,
    rest: Seq<u8>,
    max: int,
)
    requires
        spec_wf_elems::<T>(ms),
        ms.len() <= max,
        ms.len() <= u32::MAX,
    ensures
        spec_parse_vec_at_most::<T>(spec_ser_vec::<T>(ms) + rest, max) == Ok::<_, CodecError>(
            (ms, spec_ser_vec::<T>(ms).len() as int),
        ),
{
    let count = ms.len() as u32;
    let cb = <u32 as StacksMessageCodec>::spec_ser(count);
    let b = spec_ser_vec::<T>(ms) + rest;
    assert(b =~= cb + (spec_ser_elems::<T>(ms) + rest));
    <u32 as StacksMessageCodec>::lemma_parse_ser(count, spec_ser_elems::<T>(ms) + rest);
    assert(b.skip(cb.len() as int) =~= spec_ser_elems::<T>(ms) + rest);
    lemma_parse_ser_elems::<T>(ms, rest);
}

/// Soundness of the exact-count length-prefixed parser.
pub proof fn lemma_parse_vec_exact_sound<T: StacksMessageCodec>(b: Seq<u8>, want: int)
    ensures
        match spec_parse_vec_exact::<T>(b, want) {
            Ok((ms, n)) => ms.len() == want && ms.len() <= u32::MAX && spec_wf_elems::<T>(ms) && 0
                <= n <= b.len() && spec_ser_vec::<T>(ms) == b.subrange(0, n),
            Err(_) => true,
        },
{
    <u32 as StacksMessageCodec>::lemma_parse_sound(b);
    match <u32 as StacksMessageCodec>::spec_parse(b) {
        Ok((count, n)) => {
            if count == want {
                lemma_parse_elems_sound::<T>(b.skip(n), count as int);
                match spec_parse_elems::<T>(b.skip(n), count as int) {
                    Ok((ms, k)) => {
                        assert(b.skip(n).subrange(0, k) =~= b.subrange(n, n + k));
                        assert(spec_ser_vec::<T>(ms) =~= b.subrange(0, n + k));
                    },
                    Err(_) => {},
                }
            }
        },
        Err(_) => {},
    }
}

/// Round trip of the exact-count length-prefixed parser.
pub proof fn lemma_parse_ser_vec_exact<T: StacksMessageCodec>(
    ms: Seq<<T as DeepView>::V>,
    rest: Seq<u8>,
)
    requires
        spec_wf_elems::<T>(ms),
        ms.len() <= u32::MAX,
    ensures
        spec_parse_vec_exact::<T>(spec_ser_vec::<T>(ms) + rest, ms.len() as int) == Ok::<
            _,
            CodecError,
        >((ms, spec_ser_vec::<T>(ms).len() as int)),
{
    let count = ms.len() as u32;
    let cb = <u32 as StacksMessageCodec>::spec_ser(count);
    let b = spec_ser_vec::<T>(ms) + rest;
    assert(b =~= cb + (spec_ser_elems::<T>(ms) + rest));
    <u32 as StacksMessageCodec>::lemma_parse_ser(count, spec_ser_elems::<T>(ms) + rest);
    assert(b.skip(cb.len() as int) =~= spec_ser_elems::<T>(ms) + rest);
    lemma_parse_ser_elems::<T>(ms, rest);
}

/// Pushing onto a vector pushes onto its deep view.
pub proof fn lemma_deep_view_push<T: DeepView>(v1: Vec<T>, x: T, v2: Vec<T>)
    requires
        v2@ == v1@.push(x),
    ensures
        v2.deep_view() == v1.deep_view().push(x.deep_view()),
{
    assert(v2.deep_view() =~= v1.deep_view().push(x.deep_view()));
}

} // verus!

verus! {

/// Append the length-prefixed encoding of `v` (32-bit big-endian count, then
/// each element's encoding) to `out`.
pub fn write_next_vec<T: StacksMessageCodec>(out: &mut Vec<u8>, v: &Vec<T>)
    requires
        v.deep_view().len() <= u32::MAX,
        spec_wf_elems::<T>(v.deep_view()),
        old(out)@.len() + spec_ser_vec::<T>(v.deep_view()).len() <= usize::MAX,
    ensures
        final(out)@ == old(out)@ + spec_ser_vec::<T>(v.deep_view()),
{
    let ghost ms = v.deep_view();
    let count: u32 = v.len() as u32;
    assert(count == ms.len());
    count.consensus_serialize(out);
    let ghost base = out@;
    proof {
        assert(ms.skip(0) =~= ms);
        assert(ms.take(0) =~= Seq::<<T as DeepView>::V>::empty());
        assert(spec_ser_elems::<T>(Seq::<<T as DeepView>::V>::empty()) == Seq::<u8>::empty());
        assert(base + Seq::<u8>::empty() =~= base);
    }
    let mut i: usize = 0;
    while i < v.len()
        invariant
            i <= v@.len(),
            v.deep_view() == ms,
            ms.len() <= u32::MAX,
            spec_wf_elems::<T>(v.deep_view()),
            out@ == base + spec_ser_elems::<T>(ms.take(i as int)),
            base + spec_ser_elems::<T>(ms) == old(out)@ + spec_ser_vec::<T>(ms),
            out@.len() + spec_ser_elems::<T>(ms.skip(i as int)).len() <= usize::MAX,
        decreases v@.len() - i,
    {
        proof {
            lemma_ser_elems_split::<T>(ms, i as int);
            lemma_ser_elems_split::<T>(ms.skip(i as int), 1);
            assert(ms.skip(i as int).take(1) =~= seq![ms[i as int]]);
            assert(ms.skip(i as int).skip(1) =~= ms.skip(i + 1));
            lemma_ser_elems_push::<T>(Seq::empty(), ms[i as int]);
            assert(Seq::<<T as DeepView>::V>::empty().push(ms[i as int]) =~= seq![ms[i as int]]);
            assert(spec_ser_elems::<T>(Seq::<<T as DeepView>::V>::empty())
                == Seq::<u8>::empty());
            assert(Seq::<u8>::empty() + T::spec_ser(ms[i as int]) =~= T::spec_ser(ms[i as int]));
            assert(v[i as int].deep_view() == ms[i as int]);
        }
        v[i].consensus_serialize(out);
        proof {
            lemma_ser_elems_push::<T>(ms.take(i as int), ms[i as int]);
            assert(ms.take(i as int).push(ms[i as int]) =~= ms.take(i + 1));
            assert(out@ =~= base + spec_ser_elems::<T>(ms.take(i + 1)));
            lemma_ser_elems_split::<T>(ms, i + 1);
        }
        i = i + 1;
    }
    proof {
        assert(ms.take(ms.len() as int) =~= ms);
    }
}

/// Read a length-prefixed sequence of at most `max` elements from
/// `buf[pos..end]`; a larger declared count is a deserialize error.
pub fn read_next_at_most<T: StacksMessageCodec>(
    buf: &Vec<u8>,
    pos: usize,
    end: usize,
    max: u32,
) -> (r: Result<(Vec<T>, usize), CodecError>)
    requires
        pos <= end <= buf@.len(),
    ensures
        match r {
            Ok((v, n)) => pos <= n <= end && spec_parse_vec_at_most::<T>(
                buf@.subrange(pos as int, end as int),
                max as int,
            ) == Ok::<_, CodecError>((v.deep_view(), n - pos)),
            Err(e) => spec_parse_vec_at_most::<T>(
                buf@.subrange(pos as int, end as int),
                max as int,
            ) == Err::<(Seq<<T as DeepView>::V>, int), _>(e),
        },
{
    let ghost w = buf@.subrange(pos as int, end as int);
    let (count, body) = match u32::consensus_deserialize(buf, pos, end) {
        Ok(x) => x,
        Err(e) => {
            return Err(e);
        },
    };
    if count > max {
        return Err(CodecError::Deserialize);
    }
    assert(w.skip(body - pos) =~= buf@.subrange(body as int, end as int));
    match read_elems::<T>(buf, body, end, count) {
        Ok((v, n)) => Ok((v, n)),
        Err(e) => Err(e),
    }
}

/// Read a length-prefixed sequence whose declared count must equal `want`;
/// any other count is a deserialize error.
pub fn read_next_exact<T: StacksMessageCodec>(
    buf: &Vec<u8>,
    pos: usize,
    end: usize,
    want: u32,
) -> (r: Result<(Vec<T>, usize), CodecError>)
    requires
        pos <= end <= buf@.len(),
    ensures
        match r {
            Ok((v, n)) => pos <= n <= end && spec_parse_vec_exact::<T>(
                buf@.subrange(pos as int, end as int),
                want as int,
            ) == Ok::<_, CodecError>((v.deep_view(), n - pos)),
            Err(e) => spec_parse_vec_exact::<T>(
                buf@.subrange(pos as int, end as int),
                want as int,
            ) == Err::<(Seq<<T as DeepView>::V>, int), _>(e),
        },
{
    let ghost w = buf@.subrange(pos as int, end as int);
    let (count, body) = match u32::consensus_deserialize(buf, pos, end) {
        Ok(x) => x,
        Err(e) => {
            return Err(e);
        },
    };
    if count != want {
        return Err(CodecError::Deserialize);
    }
    assert(w.skip(body - pos) =~= buf@.subrange(body as int, end as int));
    match read_elems::<T>(buf, body, end, count) {
        Ok((v, n)) => Ok((v, n)),
        Err(e) => Err(e),
    }
}

/// Read exactly `count` consecutive elements from `buf[pos..end]`.
fn read_elems<T: StacksMessageCodec>(buf: &Vec<u8>, pos: usize, end: usize, count: u32) -> (r:
    Result<(Vec<T>, usize), CodecError>)
    requires
        pos <= end <= buf@.len(),
    ensures
        match r {
            Ok((v, n)) => pos <= n <= end && spec_parse_elems::<T>(
                buf@.subrange(pos as int, end as int),
                count as int,
            ) == Ok::<_, CodecError>((v.deep_view(), n - pos)),
            Err(e) => spec_parse_elems::<T>(buf@.subrange(pos as int, end as int), count as int)
                == Err::<(Seq<<T as DeepView>::V>, int), _>(e),
        },
{
    let ghost w = buf@.subrange(pos as int, end as int);
    let mut acc: Vec<T> = Vec::new();
    let mut cur: usize = pos;
    let mut i: u32 = 0;
    assert(acc.deep_view() =~= Seq::<<T as DeepView>::V>::empty());
    while i < count
        invariant
            i <= count,
            pos <= cur <= end <= buf@.len(),
            w == buf@.subrange(pos as int, end as int),
            acc.deep_view().len() == i,
            spec_parse_elems::<T>(w, count as int) == (match spec_parse_elems::<T>(
                buf@.subrange(cur as int, end as int),
                count - i,
            ) {
                Ok((ms, k)) => Ok::<_, CodecError>((acc.deep_view() + ms, (cur - pos) + k)),
                Err(e) => Err(e),
            }),
        decreases count - i,
    {
        let ghost wc = buf@.subrange(cur as int, end as int);
        match T::consensus_deserialize(buf, cur, end) {
            Ok((elem, n)) => {
                proof {
                    assert(wc.skip(n - cur) =~= buf@.subrange(n as int, end as int));
                }
                let ghost acc0 = acc;
                acc.push(elem);
                proof {
                    lemma_deep_view_push::<T>(acc0, elem, acc);
                    assert(spec_parse_elems::<T>(wc, count - i) == (
                    match spec_parse_elems::<T>(buf@.subrange(n as int, end as int), count - i
                        - 1) {
                        Ok((ms, k)) => Ok::<_, CodecError>(
                            (seq![elem.deep_view()] + ms, (n - cur) + k),
                        ),
                        Err(e) => Err(e),
                    }));
                    assert(forall|ms: Seq<<T as DeepView>::V>|
                        acc0.deep_view() + (seq![elem.deep_view()] + ms) =~= acc.deep_view()
                            + ms);
                }
                cur = n;
                i = i + 1;
            },
            Err(e) => {
                return Err(e);
            },
        }
    }
    proof {
        assert(spec_parse_elems::<T>(buf@.subrange(cur as int, end as int), 0) == Ok::<
            _,
            CodecError,
        >((Seq::<<T as DeepView>::V>::empty(), 0int)));
        assert(acc.deep_view() + Seq::<<T as DeepView>::V>::empty() =~= acc.deep_view());
    }
    Ok((acc, cur))
}

impl<T: StacksMessageCodec> StacksMessageCodec for Vec<T> {
    open spec fn spec_wf(m: Seq<<T as DeepView>::V>) -> bool {
        m.len() <= u32::MAX && spec_wf_elems::<T>(m)
    }

    open spec fn spec_ser(m: Seq<<T as DeepView>::V>) -> Seq<u8> {
        spec_ser_vec::<T>(m)
    }

    open spec fn spec_parse(b: Seq<u8>) -> Result<(Seq<<T as DeepView>::V>, int), CodecError> {
        spec_parse_vec_at_most::<T>(b, u32::MAX as int)
    }

    proof fn lemma_parse_sound(b: Seq<u8>) {
        lemma_parse_vec_at_most_sound::<T>(b, u32::MAX as int);
    }

    proof fn lemma_parse_ser(m: Seq<<T as DeepView>::V>, rest: Seq<u8>) {
        lemma_parse_ser_vec_at_most::<T>(m, rest, u32::MAX as int);
    }

    fn consensus_serialize(&self, out: &mut Vec<u8>) {
        write_next_vec::<T>(out, self);
    }

    fn consensus_deserialize(buf: &Vec<u8>, pos: usize, end: usize) -> (r: Result<
        (Vec<T>, usize),
        CodecError,
    >) {
        read_next_at_most::<T>(buf, pos, end, u32::MAX)
    }
}

} // verus!

verus! {

/// Copy a byte vector, preserving its contents.
pub fn copy_bytes(v: &Vec<u8>) -> (r: Vec<u8>)
    ensures
        r@ == v@,
{
    let l: usize = v.len();
    assert(v@.len() == l);
    let mut r: Vec<u8> = Vec::new();
    write_raw_bytes(&mut r, v);
    assert(r@ =~= v@);
    r
}

} // verus!

verus! {

impl<A: StacksMessageCodec, B: StacksMessageCodec> StacksMessageCodec for (A, B) {
    open spec fn spec_wf(m: (<A as DeepView>::V, <B as DeepView>::V)) -> bool {
        A::spec_wf(m.0) && B::spec_wf(m.1)
    }

    open spec fn spec_ser(m: (<A as DeepView>::V, <B as DeepView>::V)) -> Seq<u8> {
        A::spec_ser(m.0) + B::spec_ser(m.1)
    }

    open spec fn spec_parse(b: Seq<u8>) -> Result<
        ((<A as DeepView>::V, <B as DeepView>::V), int),
        CodecError,
    > {
        match A::spec_parse(b) {
            Ok((ma, n)) => match B::spec_parse(b.skip(n)) {
                Ok((mb, k)) => Ok(((ma, mb), n + k)),
                Err(e) => Err(e),
            },
            Err(e) => Err(e),
        }
    }

    proof fn lemma_parse_sound(b: Seq<u8>) {
        A::lemma_parse_sound(b);
        match A::spec_parse(b) {
            Ok((ma, n)) => {
                B::lemma_parse_sound(b.skip(n));
                match B::spec_parse(b.skip(n)) {
                    Ok((mb, k)) => {
                        assert(b.skip(n).subrange(0, k) =~= b.subrange(n, n + k));
                        assert(A::spec_ser(ma) + B::spec_ser(mb) =~= b.subrange(0, n + k));
                    },
                    Err(_) => {},
                }
            },
            Err(_) => {},
        }
    }

    proof fn lemma_parse_ser(m: (<A as DeepView>::V, <B as DeepView>::V), rest: Seq<u8>) {
        let b = Self::spec_ser(m) + rest;
        let la = A::spec_ser(m.0).len() as int;
        A::lemma_parse_ser(m.0, b.skip(la));
        assert(b =~= A::spec_ser(m.0) + b.skip(la));
        B::lemma_parse_ser(m.1, rest);
        assert(b.skip(la) =~= B::spec_ser(m.1) + rest);
    }

    fn consensus_serialize(&self, out: &mut Vec<u8>) {
        let ghost m = self.deep_view();
        self.0.consensus_serialize(out);
        self.1.consensus_serialize(out);
        assert(out@ =~= old(out)@ + Self::spec_ser(m));
    }

    fn consensus_deserialize(buf: &Vec<u8>, pos: usize, end: usize) -> (r: Result<
        ((A, B), usize),
        CodecError,
    >) {
        let ghost w = buf@.subrange(pos as int, end as int);
        let (a, c1) = match A::consensus_deserialize(buf, pos, end) {
            Ok(x) => x,
            Err(e) => {
                return Err(e);
            },
        };
        assert(buf@.subrange(c1 as int, end as int) =~= w.skip(c1 - pos));
        let (b, c2) = match B::consensus_deserialize(buf, c1, end) {
            Ok(x) => x,
            Err(e) => {
                return Err(e);
            },
        };
        let v = (a, b);
        assert(Self::spec_parse(w) == Ok::<_, CodecError>((v.deep_view(), c2 - pos)));
        Ok((v, c2))
    }
}

} // verus!

verus! {

/// Concatenation is associative.
pub proof fn lemma_concat_assoc<A>(s: Seq<A>, t: Seq<A>, u: Seq<A>)
    ensures
        (s + t) + u == s + (t + u),
{
    assert((s + t) + u =~= s + (t + u));
}

/// Dropping a concatenation's first part leaves its second.
pub proof fn lemma_concat_skip<A>(s: Seq<A>, t: Seq<A>)
    ensures
        (s + t).skip(s.len() as int) == t,
{
    assert((s + t).skip(s.len() as int) =~= t);
}

} // verus!

verus! {

/// Skipping twice is skipping the sum.
pub proof fn lemma_skip_skip<A>(s: Seq<A>, a: int, b: int)
    requires
        0 <= a,
        0 <= b,
        a + b <= s.len(),
    ensures
        s.skip(a).skip(b) == s.skip(a + b),
{
    assert(s.skip(a).skip(b) =~= s.skip(a + b));
}

} // verus!

verus! {

/// Truncation of a fixed-width integer encoding is detected: any strict
/// prefix of one fails to parse with an underflow.
pub proof fn lemma_integer_truncation(x1: u8, x2: u16, x4: u32, x8: u64, k: int)
    ensures
        0 <= k < 1 ==> <u8 as StacksMessageCodec>::spec_parse(
            <u8 as StacksMessageCodec>::spec_ser(x1).take(k),
        ) == Err::<(u8, int), _>(CodecError::Underflow),
        0 <= k < 2 ==> <u16 as StacksMessageCodec>::spec_parse(
            <u16 as StacksMessageCodec>::spec_ser(x2).take(k),
        ) == Err::<(u16, int), _>(CodecError::Underflow),
        0 <= k < 4 ==> <u32 as StacksMessageCodec>::spec_parse(
            <u32 as StacksMessageCodec>::spec_ser(x4).take(k),
        ) == Err::<(u32, int), _>(CodecError::Underflow),
        0 <= k < 8 ==> <u64 as StacksMessageCodec>::spec_parse(
            <u64 as StacksMessageCodec>::spec_ser(x8).take(k),
        ) == Err::<(u64, int), _>(CodecError::Underflow),
{
}

/// Truncation of a run of raw bytes is detected: any strict prefix of `n`
/// bytes fails to parse with an underflow.
pub proof fn lemma_raw_truncation(b: Seq<u8>, n: int, k: int)
    requires
        b.len() == n,
        0 <= k < n,
    ensures
        spec_parse_raw(b.take(k), n) == Err::<(Seq<u8>, int), _>(CodecError::Underflow),
{
}

} // verus!

verus! {

/// A length-prefixed sequence's first four bytes are its element count in
/// big-endian form.
pub proof fn lemma_vec_length_prefix<T: StacksMessageCodec>(ms: Seq<<T as DeepView>::V>)
    requires
        ms.len() <= u32::MAX,
    ensures
        spec_ser_vec::<T>(ms).subrange(0, 4) == <u32 as StacksMessageCodec>::spec_ser(
            ms.len() as u32,
        ),
{
    assert(spec_ser_vec::<T>(ms).subrange(0, 4) =~= <u32 as StacksMessageCodec>::spec_ser(
        ms.len() as u32,
    ));
}

} // verus!
