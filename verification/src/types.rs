//! The domain value types that ride inside messages: hashes, addresses,
//! signatures, public key buffers, and the length-prefixed URL string.  Each
//! is a newtype over its wire bytes; the model of each is the byte sequence
//! itself.
use vstd::prelude::*;

use crate::codec::{read_raw_bytes, spec_parse_raw, write_raw_bytes, CodecError,
    StacksMessageCodec};

verus! {

/// Byte-for-byte equality of two byte vectors, usable from verified code.
pub fn bytes_eq(a: &Vec<u8>, b: &Vec<u8>) -> (r: bool)
    ensures
        r == (a@ == b@),
{
    if a.len() != b.len() {
        assert(a@ != b@);
        return false;
    }
    let mut i: usize = 0;
    while i < a.len()
        invariant
            i <= a@.len(),
            a@.len() == b@.len(),
            forall|j: int| 0 <= j < i ==> a@[j] == b@[j],
        decreases a@.len() - i,
    {
        if a[i] != b[i] {
            assert(a@ != b@);
            return false;
        }
        i = i + 1;
    }
    assert(a@ =~= b@);
    true
}

/// A peer's network address: 16 bytes, an IPv6 address (IPv4 appears in its IPv6-mapped form).
/// The wire form is the 16 bytes themselves.
#[derive(Clone, Debug, PartialEq, Eq)]
pub struct PeerAddress(pub Vec<u8>);

impl DeepView for PeerAddress {
    type V = Seq<u8>;

    open spec fn deep_view(&self) -> Seq<u8> {
        self.0@
    }
}

impl PeerAddress {
    /// The all-zero value.
    pub fn zeroed() -> (r: PeerAddress)
        ensures
            r.deep_view() == Seq::new(16, |i: int| 0u8),
            <PeerAddress as StacksMessageCodec>::spec_wf(r.deep_view()),
    {
        let mut v: Vec<u8> = Vec::new();
        let mut i: usize = 0;
        while i < 16
            invariant
                i <= 16,
                v@ =~= Seq::new(i as nat, |j: int| 0u8),
            decreases 16 - i,
        {
            v.push(0u8);
            assert(v@ =~= Seq::new((i + 1) as nat, |j: int| 0u8));
            i = i + 1;
        }
        PeerAddress(v)
    }
}

impl StacksMessageCodec for PeerAddress {
    open spec fn spec_wf(m: Seq<u8>) -> bool {
        m.len() == 16
    }

    open spec fn spec_ser(m: Seq<u8>) -> Seq<u8> {
        m
    }

    open spec fn spec_parse(b: Seq<u8>) -> Result<(Seq<u8>, int), CodecError> {
        spec_parse_raw(b, 16)
    }

    proof fn lemma_parse_sound(b: Seq<u8>) {
        if b.len() >= 16 {
            assert(b.take(16) =~= b.subrange(0, 16));
        }
    }

    proof fn lemma_parse_ser(m: Seq<u8>, rest: Seq<u8>) {
        assert((m + rest).take(16) =~= m);
    }

    fn consensus_serialize(&self, out: &mut Vec<u8>) {
        assert(Self::spec_ser(self.deep_view()) == self.0@);
        write_raw_bytes(out, &self.0);
    }

    fn consensus_deserialize(buf: &Vec<u8>, pos: usize, end: usize) -> (r: Result<
        (PeerAddress, usize),
        CodecError,
    >) {
        match read_raw_bytes(buf, pos, end, 16) {
            Ok((v, n)) => Ok((PeerAddress(v), n)),
            Err(e) => Err(e),
        }
    }
}

/// A 20-byte consensus hash naming a sortition.
/// The wire form is the 20 bytes themselves.
#[derive(Clone, Debug, PartialEq, Eq)]
pub struct ConsensusHash(pub Vec<u8>);

impl DeepView for ConsensusHash {
    type V = Seq<u8>;

    open spec fn deep_view(&self) -> Seq<u8> {
        self.0@
    }
}

impl ConsensusHash {
    /// The all-zero value.
    pub fn zeroed() -> (r: ConsensusHash)
        ensures
            r.deep_view() == Seq::new(20, |i: int| 0u8),
            <ConsensusHash as StacksMessageCodec>::spec_wf(r.deep_view()),
    {
        let mut v: Vec<u8> = Vec::new();
        let mut i: usize = 0;
        while i < 20
            invariant
                i <= 20,
                v@ =~= Seq::new(i as nat, |j: int| 0u8),
            decreases 20 - i,
        {
            v.push(0u8);
            assert(v@ =~= Seq::new((i + 1) as nat, |j: int| 0u8));
            i = i + 1;
        }
        ConsensusHash(v)
    }
}

impl StacksMessageCodec for ConsensusHash {
    open spec fn spec_wf(m: Seq<u8>) -> bool {
        m.len() == 20
    }

    open spec fn spec_ser(m: Seq<u8>) -> Seq<u8> {
        m
    }

    open spec fn spec_parse(b: Seq<u8>) -> Result<(Seq<u8>, int), CodecError> {
        spec_parse_raw(b, 20)
    }

    proof fn lemma_parse_sound(b: Seq<u8>) {
        if b.len() >= 20 {
            assert(b.take(20) =~= b.subrange(0, 20));
        }
    }

    proof fn lemma_parse_ser(m: Seq<u8>, rest: Seq<u8>) {
        assert((m + rest).take(20) =~= m);
    }

    fn consensus_serialize(&self, out: &mut Vec<u8>) {
        assert(Self::spec_ser(self.deep_view()) == self.0@);
        write_raw_bytes(out, &self.0);
    }

    fn consensus_deserialize(buf: &Vec<u8>, pos: usize, end: usize) -> (r: Result<
        (ConsensusHash, usize),
        CodecError,
    >) {
        match read_raw_bytes(buf, pos, end, 20) {
            Ok((v, n)) => Ok((ConsensusHash(v), n)),
            Err(e) => Err(e),
        }
    }
}

/// A 20-byte RIPEMD-160-over-SHA-256 hash, used for public key fingerprints.
/// The wire form is the 20 bytes themselves.
#[derive(Clone, Debug, PartialEq, Eq)]
pub struct Hash160(pub Vec<u8>);

impl DeepView for Hash160 {
    type V = Seq<u8>;

    open spec fn deep_view(&self) -> Seq<u8> {
        self.0@
    }
}

impl Hash160 {
    /// The all-zero value.
    pub fn zeroed() -> (r: Hash160)
        ensures
            r.deep_view() == Seq::new(20, |i: int| 0u8),
            <Hash160 as StacksMessageCodec>::spec_wf(r.deep_view()),
    {
        let mut v: Vec<u8> = Vec::new();
        let mut i: usize = 0;
        while i < 20
            invariant
                i <= 20,
                v@ =~= Seq::new(i as nat, |j: int| 0u8),
            decreases 20 - i,
        {
            v.push(0u8);
            assert(v@ =~= Seq::new((i + 1) as nat, |j: int| 0u8));
            i = i + 1;
        }
        Hash160(v)
    }
}

impl StacksMessageCodec for Hash160 {
    open spec fn spec_wf(m: Seq<u8>) -> bool {
        m.len() == 20
    }

    open spec fn spec_ser(m: Seq<u8>) -> Seq<u8> {
        m
    }

    open spec fn spec_parse(b: Seq<u8>) -> Result<(Seq<u8>, int), CodecError> {
        spec_parse_raw(b, 20)
    }

    proof fn lemma_parse_sound(b: Seq<u8>) {
        if b.len() >= 20 {
            assert(b.take(20) =~= b.subrange(0, 20));
        }
    }

    proof fn lemma_parse_ser(m: Seq<u8>, rest: Seq<u8>) {
        assert((m + rest).take(20) =~= m);
    }

    fn consensus_serialize(&self, out: &mut Vec<u8>) {
        assert(Self::spec_ser(self.deep_view()) == self.0@);
        write_raw_bytes(out, &self.0);
    }

    fn consensus_deserialize(buf: &Vec<u8>, pos: usize, end: usize) -> (r: Result<
        (Hash160, usize),
        CodecError,
    >) {
        match read_raw_bytes(buf, pos, end, 20) {
            Ok((v, n)) => Ok((Hash160(v), n)),
            Err(e) => Err(e),
        }
    }
}

/// A 32-byte burnchain block header hash.
/// The wire form is the 32 bytes themselves.
#[derive(Clone, Debug, PartialEq, Eq)]
pub struct BurnchainHeaderHash(pub Vec<u8>);

impl DeepView for BurnchainHeaderHash {
    type V = Seq<u8>;

    open spec fn deep_view(&self) -> Seq<u8> {
        self.0@
    }
}

impl BurnchainHeaderHash {
    /// The all-zero value.
    pub fn zeroed() -> (r: BurnchainHeaderHash)
        ensures
            r.deep_view() == Seq::new(32, |i: int| 0u8),
            <BurnchainHeaderHash as StacksMessageCodec>::spec_wf(r.deep_view()),
    {
        let mut v: Vec<u8> = Vec::new();
        let mut i: usize = 0;
        while i < 32
            invariant
                i <= 32,
                v@ =~= Seq::new(i as nat, |j: int| 0u8),
            decreases 32 - i,
        {
            v.push(0u8);
            assert(v@ =~= Seq::new((i + 1) as nat, |j: int| 0u8));
            i = i + 1;
        }
        BurnchainHeaderHash(v)
    }
}

impl StacksMessageCodec for BurnchainHeaderHash {
    open spec fn spec_wf(m: Seq<u8>) -> bool {
        m.len() == 32
    }

    open spec fn spec_ser(m: Seq<u8>) -> Seq<u8> {
        m
    }

    open spec fn spec_parse(b: Seq<u8>) -> Result<(Seq<u8>, int), CodecError> {
        spec_parse_raw(b, 32)
    }

    proof fn lemma_parse_sound(b: Seq<u8>) {
        if b.len() >= 32 {
            assert(b.take(32) =~= b.subrange(0, 32));
        }
    }

    proof fn lemma_parse_ser(m: Seq<u8>, rest: Seq<u8>) {
        assert((m + rest).take(32) =~= m);
    }

    fn consensus_serialize(&self, out: &mut Vec<u8>) {
        assert(Self::spec_ser(self.deep_view()) == self.0@);
        write_raw_bytes(out, &self.0);
    }

    fn consensus_deserialize(buf: &Vec<u8>, pos: usize, end: usize) -> (r: Result<
        (BurnchainHeaderHash, usize),
        CodecError,
    >) {
        match read_raw_bytes(buf, pos, end, 32) {
            Ok((v, n)) => Ok((BurnchainHeaderHash(v), n)),
            Err(e) => Err(e),
        }
    }
}

/// A 32-byte Stacks block header hash.
/// The wire form is the 32 bytes themselves.
#[derive(Clone, Debug, PartialEq, Eq)]
pub struct BlockHeaderHash(pub Vec<u8>);

impl DeepView for BlockHeaderHash {
    type V = Seq<u8>;

    open spec fn deep_view(&self) -> Seq<u8> {
        self.0@
    }
}

impl BlockHeaderHash {
    /// The all-zero value.
    pub fn zeroed() -> (r: BlockHeaderHash)
        ensures
            r.deep_view() == Seq::new(32, |i: int| 0u8),
            <BlockHeaderHash as StacksMessageCodec>::spec_wf(r.deep_view()),
    {
        let mut v: Vec<u8> = Vec::new();
        let mut i: usize = 0;
        while i < 32
            invariant
                i <= 32,
                v@ =~= Seq::new(i as nat, |j: int| 0u8),
            decreases 32 - i,
        {
            v.push(0u8);
            assert(v@ =~= Seq::new((i + 1) as nat, |j: int| 0u8));
            i = i + 1;
        }
        BlockHeaderHash(v)
    }
}

impl StacksMessageCodec for BlockHeaderHash {
    open spec fn spec_wf(m: Seq<u8>) -> bool {
        m.len() == 32
    }

    open spec fn spec_ser(m: Seq<u8>) -> Seq<u8> {
        m
    }

    open spec fn spec_parse(b: Seq<u8>) -> Result<(Seq<u8>, int), CodecError> {
        spec_parse_raw(b, 32)
    }

    proof fn lemma_parse_sound(b: Seq<u8>) {
        if b.len() >= 32 {
            assert(b.take(32) =~= b.subrange(0, 32));
        }
    }

    proof fn lemma_parse_ser(m: Seq<u8>, rest: Seq<u8>) {
        assert((m + rest).take(32) =~= m);
    }

    fn consensus_serialize(&self, out: &mut Vec<u8>) {
        assert(Self::spec_ser(self.deep_view()) == self.0@);
        write_raw_bytes(out, &self.0);
    }

    fn consensus_deserialize(buf: &Vec<u8>, pos: usize, end: usize) -> (r: Result<
        (BlockHeaderHash, usize),
        CodecError,
    >) {
        match read_raw_bytes(buf, pos, end, 32) {
            Ok((v, n)) => Ok((BlockHeaderHash(v), n)),
            Err(e) => Err(e),
        }
    }
}

/// A 32-byte index block hash, binding a block header hash to its consensus hash.
/// The wire form is the 32 bytes themselves.
#[derive(Clone, Debug, PartialEq, Eq)]
pub struct StacksBlockId(pub Vec<u8>);

impl DeepView for StacksBlockId {
    type V = Seq<u8>;

    open spec fn deep_view(&self) -> Seq<u8> {
        self.0@
    }
}

impl StacksBlockId {
    /// The all-zero value.
    pub fn zeroed() -> (r: StacksBlockId)
        ensures
            r.deep_view() == Seq::new(32, |i: int| 0u8),
            <StacksBlockId as StacksMessageCodec>::spec_wf(r.deep_view()),
    {
        let mut v: Vec<u8> = Vec::new();
        let mut i: usize = 0;
        while i < 32
            invariant
                i <= 32,
                v@ =~= Seq::new(i as nat, |j: int| 0u8),
            decreases 32 - i,
        {
            v.push(0u8);
            assert(v@ =~= Seq::new((i + 1) as nat, |j: int| 0u8));
            i = i + 1;
        }
        StacksBlockId(v)
    }
}

impl StacksMessageCodec for StacksBlockId {
    open spec fn spec_wf(m: Seq<u8>) -> bool {
        m.len() == 32
    }

    open spec fn spec_ser(m: Seq<u8>) -> Seq<u8> {
        m
    }

    open spec fn spec_parse(b: Seq<u8>) -> Result<(Seq<u8>, int), CodecError> {
        spec_parse_raw(b, 32)
    }

    proof fn lemma_parse_sound(b: Seq<u8>) {
        if b.len() >= 32 {
            assert(b.take(32) =~= b.subrange(0, 32));
        }
    }

    proof fn lemma_parse_ser(m: Seq<u8>, rest: Seq<u8>) {
        assert((m + rest).take(32) =~= m);
    }

    fn consensus_serialize(&self, out: &mut Vec<u8>) {
        assert(Self::spec_ser(self.deep_view()) == self.0@);
        write_raw_bytes(out, &self.0);
    }

    fn consensus_deserialize(buf: &Vec<u8>, pos: usize, end: usize) -> (r: Result<
        (StacksBlockId, usize),
        CodecError,
    >) {
        match read_raw_bytes(buf, pos, end, 32) {
            Ok((v, n)) => Ok((StacksBlockId(v), n)),
            Err(e) => Err(e),
        }
    }
}

/// A 65-byte recoverable secp256k1 signature: one recovery-id byte, then r and s.
/// The wire form is the 65 bytes themselves.
#[derive(Clone, Debug, PartialEq, Eq)]
pub struct MessageSignature(pub Vec<u8>);

impl DeepView for MessageSignature {
    type V = Seq<u8>;

    open spec fn deep_view(&self) -> Seq<u8> {
        self.0@
    }
}

impl MessageSignature {
    /// The all-zero value.
    pub fn zeroed() -> (r: MessageSignature)
        ensures
            r.deep_view() == Seq::new(65, |i: int| 0u8),
            <MessageSignature as StacksMessageCodec>::spec_wf(r.deep_view()),
    {
        let mut v: Vec<u8> = Vec::new();
        let mut i: usize = 0;
        while i < 65
            invariant
                i <= 65,
                v@ =~= Seq::new(i as nat, |j: int| 0u8),
            decreases 65 - i,
        {
            v.push(0u8);
            assert(v@ =~= Seq::new((i + 1) as nat, |j: int| 0u8));
            i = i + 1;
        }
        MessageSignature(v)
    }
}

impl StacksMessageCodec for MessageSignature {
    open spec fn spec_wf(m: Seq<u8>) -> bool {
        m.len() == 65
    }

    open spec fn spec_ser(m: Seq<u8>) -> Seq<u8> {
        m
    }

    open spec fn spec_parse(b: Seq<u8>) -> Result<(Seq<u8>, int), CodecError> {
        spec_parse_raw(b, 65)
    }

    proof fn lemma_parse_sound(b: Seq<u8>) {
        if b.len() >= 65 {
            assert(b.take(65) =~= b.subrange(0, 65));
        }
    }

    proof fn lemma_parse_ser(m: Seq<u8>, rest: Seq<u8>) {
        assert((m + rest).take(65) =~= m);
    }

    fn consensus_serialize(&self, out: &mut Vec<u8>) {
        assert(Self::spec_ser(self.deep_view()) == self.0@);
        write_raw_bytes(out, &self.0);
    }

    fn consensus_deserialize(buf: &Vec<u8>, pos: usize, end: usize) -> (r: Result<
        (MessageSignature, usize),
        CodecError,
    >) {
        match read_raw_bytes(buf, pos, end, 65) {
            Ok((v, n)) => Ok((MessageSignature(v), n)),
            Err(e) => Err(e),
        }
    }
}

/// A 33-byte SEC1-compressed secp256k1 public key.
/// The wire form is the 33 bytes themselves.
#[derive(Clone, Debug, PartialEq, Eq)]
pub struct StacksPublicKeyBuffer(pub Vec<u8>);

impl DeepView for StacksPublicKeyBuffer {
    type V = Seq<u8>;

    open spec fn deep_view(&self) -> Seq<u8> {
        self.0@
    }
}

impl StacksPublicKeyBuffer {
    /// The all-zero value.
    pub fn zeroed() -> (r: StacksPublicKeyBuffer)
        ensures
            r.deep_view() == Seq::new(33, |i: int| 0u8),
            <StacksPublicKeyBuffer as StacksMessageCodec>::spec_wf(r.deep_view()),
    {
        let mut v: Vec<u8> = Vec::new();
        let mut i: usize = 0;
        while i < 33
            invariant
                i <= 33,
                v@ =~= Seq::new(i as nat, |j: int| 0u8),
            decreases 33 - i,
        {
            v.push(0u8);
            assert(v@ =~= Seq::new((i + 1) as nat, |j: int| 0u8));
            i = i + 1;
        }
        StacksPublicKeyBuffer(v)
    }
}

impl StacksMessageCodec for StacksPublicKeyBuffer {
    open spec fn spec_wf(m: Seq<u8>) -> bool {
        m.len() == 33
    }

    open spec fn spec_ser(m: Seq<u8>) -> Seq<u8> {
        m
    }

    open spec fn spec_parse(b: Seq<u8>) -> Result<(Seq<u8>, int), CodecError> {
        spec_parse_raw(b, 33)
    }

    proof fn lemma_parse_sound(b: Seq<u8>) {
        if b.len() >= 33 {
            assert(b.take(33) =~= b.subrange(0, 33));
        }
    }

    proof fn lemma_parse_ser(m: Seq<u8>, rest: Seq<u8>) {
        assert((m + rest).take(33) =~= m);
    }

    fn consensus_serialize(&self, out: &mut Vec<u8>) {
        assert(Self::spec_ser(self.deep_view()) == self.0@);
        write_raw_bytes(out, &self.0);
    }

    fn consensus_deserialize(buf: &Vec<u8>, pos: usize, end: usize) -> (r: Result<
        (StacksPublicKeyBuffer, usize),
        CodecError,
    >) {
        match read_raw_bytes(buf, pos, end, 33) {
            Ok((v, n)) => Ok((StacksPublicKeyBuffer(v), n)),
            Err(e) => Err(e),
        }
    }
}

/// A URL carried as its bytes.  The wire form is a one-byte length, then
/// that many bytes; the length is capped at 255 by the width of its prefix.
#[derive(Clone, Debug, PartialEq, Eq)]
pub struct UrlString(pub Vec<u8>);

impl DeepView for UrlString {
    type V = Seq<u8>;

    open spec fn deep_view(&self) -> Seq<u8> {
        self.0@
    }
}

impl UrlString {
    /// The empty URL.
    pub fn empty() -> (r: UrlString)
        ensures
            r.deep_view() == Seq::<u8>::empty(),
    {
        let v: Vec<u8> = Vec::new();
        assert(v@ =~= Seq::<u8>::empty());
        UrlString(v)
    }

    /// Wrap URL bytes; fails when they do not fit behind a one-byte length.
    pub fn from_bytes(b: Vec<u8>) -> (r: Result<UrlString, CodecError>)
        ensures
            b@.len() <= 255 ==> r == Ok::<_, CodecError>(UrlString(b)),
            b@.len() > 255 ==> r == Err::<UrlString, _>(CodecError::Deserialize),
    {
        if b.len() > 255 {
            Err(CodecError::Deserialize)
        } else {
            Ok(UrlString(b))
        }
    }

    /// Length of the URL in bytes.
    pub fn len(&self) -> (r: usize)
        ensures
            r == self.deep_view().len(),
    {
        self.0.len()
    }
}

impl StacksMessageCodec for UrlString {
    open spec fn spec_wf(m: Seq<u8>) -> bool {
        m.len() <= 255
    }

    open spec fn spec_ser(m: Seq<u8>) -> Seq<u8> {
        seq![m.len() as u8] + m
    }

    open spec fn spec_parse(b: Seq<u8>) -> Result<(Seq<u8>, int), CodecError> {
        match <u8 as StacksMessageCodec>::spec_parse(b) {
            Ok((len, n)) => match spec_parse_raw(b.skip(n), len as int) {
                Ok((m, k)) => Ok((m, n + k)),
                Err(e) => Err(e),
            },
            Err(e) => Err(e),
        }
    }

    proof fn lemma_parse_sound(b: Seq<u8>) {
        if b.len() >= 1 {
            let len = b[0];
            if b.skip(1).len() >= len {
                let m = b.skip(1).take(len as int);
                assert(m.len() == len);
                assert(Self::spec_ser(m) =~= b.subrange(0, 1 + len));
            }
        }
    }

    proof fn lemma_parse_ser(m: Seq<u8>, rest: Seq<u8>) {
        let b = Self::spec_ser(m) + rest;
        assert(b[0] == m.len() as u8);
        assert(b.skip(1) =~= m + rest);
        assert((m + rest).take(m.len() as int) =~= m);
    }

    fn consensus_serialize(&self, out: &mut Vec<u8>) {
        let len: u8 = self.0.len() as u8;
        out.push(len);
        assert(out@ =~= old(out)@ + seq![self.deep_view().len() as u8]);
        write_raw_bytes(out, &self.0);
        assert(out@ =~= old(out)@ + Self::spec_ser(self.deep_view()));
    }

    fn consensus_deserialize(buf: &Vec<u8>, pos: usize, end: usize) -> (r: Result<
        (UrlString, usize),
        CodecError,
    >) {
        let ghost w = buf@.subrange(pos as int, end as int);
        let (len, body) = match u8::consensus_deserialize(buf, pos, end) {
            Ok(x) => x,
            Err(e) => {
                return Err(e);
            },
        };
        assert(w.skip(body - pos) =~= buf@.subrange(body as int, end as int));
        match read_raw_bytes(buf, body, end, len as usize) {
            Ok((v, n)) => Ok((UrlString(v), n)),
            Err(e) => Err(e),
        }
    }
}

} // verus!

verus! {

/// Truncation of a URL is detected: any strict prefix of an encoded URL
/// fails to parse with an underflow.
pub proof fn lemma_url_truncation(m: Seq<u8>, k: int)
    requires
        <UrlString as StacksMessageCodec>::spec_wf(m),
        0 <= k < <UrlString as StacksMessageCodec>::spec_ser(m).len(),
    ensures
        <UrlString as StacksMessageCodec>::spec_parse(
            <UrlString as StacksMessageCodec>::spec_ser(m).take(k),
        ) == Err::<(Seq<u8>, int), _>(CodecError::Underflow),
{
    let s = <UrlString as StacksMessageCodec>::spec_ser(m);
    let b = s.take(k);
    if k >= 1 {
        assert(b[0] == m.len() as u8);
        assert(b.skip(1).len() == k - 1 < m.len());
    }
}

} // verus!
