use vstd::prelude::*;
use vstd::utf8::{decode_utf8, valid_utf8};
use crate::chunk_type::{valid_type_code, ChunkType};
use crate::error::PngError;
use crate::text::utf8_to_string;

verus! {

/// What a chunk holds: its type code and its data.
pub type ChunkModel = (Seq<u8>, Seq<u8>);

/// The CRC-32/ISO-HDLC checksum of a byte sequence.
pub uninterp spec fn crc32_of(b: Seq<u8>) -> u32;

/// Relies on the crc crate's `Crc::<u32>::checksum` with `CRC_32_ISO_HDLC`: the
/// result is that checksum, a function of the bytes alone.
#[verifier::external_body]
fn crc32(bytes: &[u8]) -> (r: u32)
    ensures
        r == crc32_of(bytes@),
{
    crc::Crc::<u32>::new(&crc::CRC_32_ISO_HDLC).checksum(bytes)
}

/// The four big-endian bytes of `x`.
pub open spec fn be32(x: u32) -> Seq<u8> {
    seq![(x / 0x100_0000) as u8, ((x / 0x1_0000) % 256) as u8, ((x / 256) % 256) as u8, (x % 256) as u8]
}

/// The number that the first four bytes of `s` spell, big-endian.
pub open spec fn be32_value(s: Seq<u8>) -> int {
    s[0] as int * 0x100_0000 + s[1] as int * 0x1_0000 + s[2] as int * 256 + s[3] as int
}

/// The serialized form of a chunk: length, type, data, checksum of type and data.
pub open spec fn chunk_bytes(m: ChunkModel) -> Seq<u8> {
    be32(m.1.len() as u32) + m.0 + m.1 + be32(crc32_of(m.0 + m.1))
}

/// What a chunk must satisfy to be written and read back.
pub open spec fn valid_chunk(m: ChunkModel) -> bool {
    valid_type_code(m.0) && m.1.len() <= u32::MAX
}

/// The chunk that starts a buffer; bytes after it are not looked at.
#[verifier::opaque]
pub open spec fn parse_chunk(s: Seq<u8>) -> Result<ChunkModel, PngError> {
    if s.len() < 12 {
        Err(PngError::TooShort)
    } else {
        let n = be32_value(s);
        if s.len() < 12 + n {
            Err(PngError::TooShort)
        } else {
            let t = s.subrange(4, 8);
            let d = s.subrange(8, 8 + n);
            if !valid_type_code(t) {
                Err(PngError::InvalidTypeCode)
            } else if crc32_of(t + d) != be32_value(s.subrange(8 + n, 12 + n)) {
                Err(PngError::CrcMismatch)
            } else {
                Ok((t, d))
            }
        }
    }
}

/// A serialized chunk reads back as the same chunk, whatever follows it.
pub proof fn lemma_parse_chunk_bytes(m: ChunkModel, rest: Seq<u8>)
    requires
        valid_chunk(m),
    ensures
        parse_chunk(chunk_bytes(m) + rest) == Ok::<ChunkModel, PngError>(m),
        chunk_bytes(m).len() == 12 + m.1.len(),
{
    reveal(parse_chunk);
    let n = m.1.len() as int;
    let s = chunk_bytes(m) + rest;
    lemma_be32_round_trip(n as u32);
    lemma_be32_round_trip(crc32_of(m.0 + m.1));
    assert(s.subrange(0, 4) =~= be32(n as u32));
    assert(be32_value(s) == be32_value(s.subrange(0, 4)));
    assert(s.subrange(4, 8) =~= m.0);
    assert(s.subrange(8, 8 + n) =~= m.1);
    assert(s.subrange(8 + n, 12 + n) =~= be32(crc32_of(m.0 + m.1)));
}

/// A chunk read from a buffer lies within it.
pub proof fn lemma_parse_chunk_size(s: Seq<u8>)
    ensures
        parse_chunk(s) matches Ok(m) ==> 12 + m.1.len() <= s.len(),
{
    reveal(parse_chunk);
}

/// For every byte sequence, a new chunk serialized and read back is that chunk.
pub proof fn lemma_chunk_round_trip(m: ChunkModel)
    requires
        valid_chunk(m),
    ensures
        parse_chunk(chunk_bytes(m)) == Ok::<ChunkModel, PngError>(m),
{
    lemma_parse_chunk_bytes(m, Seq::empty());
    assert(chunk_bytes(m) + Seq::<u8>::empty() =~= chunk_bytes(m));
}

/// Changing one byte of a serialized chunk's type or data is caught unless the
/// changed type and data have the same checksum as the original ones: a chunk
/// read from the changed bytes holds other type and data with that checksum.
pub proof fn lemma_tampered_chunk(m: ChunkModel, k: int, v: u8)
    requires
        valid_chunk(m),
        4 <= k < 8 + m.1.len(),
        chunk_bytes(m)[k] != v,
    ensures
        parse_chunk(chunk_bytes(m).update(k, v)) matches Ok(p) ==> p.0 + p.1 != m.0 + m.1
            && crc32_of(p.0 + p.1) == crc32_of(m.0 + m.1),
{
    reveal(parse_chunk);
    let n = m.1.len() as int;
    let s = chunk_bytes(m);
    let s2 = s.update(k, v);
    lemma_be32_round_trip(n as u32);
    lemma_be32_round_trip(crc32_of(m.0 + m.1));
    assert(s2.subrange(0, 4) =~= s.subrange(0, 4));
    assert(s.subrange(0, 4) =~= be32(n as u32));
    assert(be32_value(s2) == be32_value(s2.subrange(0, 4)));
    assert(s2.subrange(8 + n, 12 + n) =~= be32(crc32_of(m.0 + m.1)));
    if let Ok(p) = parse_chunk(s2) {
        assert(s2.subrange(4, 8) + s2.subrange(8, 8 + n) =~= s2.subrange(4, 8 + n));
        assert(s.subrange(4, 8 + n) =~= m.0 + m.1);
        assert(s2.subrange(4, 8 + n)[k - 4] == v);
        assert(s.subrange(4, 8 + n)[k - 4] != v);
    }
}

/// Reading the four big-endian bytes of a number gives the number back.
pub proof fn lemma_be32_round_trip(x: u32)
    ensures
        be32(x).len() == 4,
        be32_value(be32(x)) == x,
{
    let b = be32(x);
    assert(b[0] as int == x / 0x100_0000);
    assert(b[1] as int == (x / 0x1_0000) % 256);
    assert(b[2] as int == (x / 256) % 256);
    assert(b[3] as int == x % 256);
    assert(be32_value(b) == x) by (nonlinear_arith)
        requires
            b[0] as int == x / 0x100_0000,
            b[1] as int == (x / 0x1_0000) % 256,
            b[2] as int == (x / 256) % 256,
            b[3] as int == x % 256,
            be32_value(b) == b[0] as int * 0x100_0000 + b[1] as int * 0x1_0000 + b[2] as int
                * 256 + b[3] as int,
    ;
}

fn to_be32(x: u32) -> (r: [u8; 4])
    ensures
        r@ == be32(x),
{
    let r = [(x / 0x100_0000) as u8, ((x / 0x1_0000) % 256) as u8, ((x / 256) % 256) as u8, (x % 256) as u8];
    assert(r@ =~= be32(x));
    r
}

fn read_be32(bytes: &[u8], i: usize) -> (r: u32)
    requires
        i + 4 <= bytes@.len(),
    ensures
        r == be32_value(bytes@.subrange(i as int, i + 4)),
{
    (bytes[i] as u32) * 0x100_0000 + (bytes[i + 1] as u32) * 0x1_0000 + (bytes[i + 2] as u32) * 256
        + (bytes[i + 3] as u32)
}

fn checksum_of(t: &ChunkType, data: &Vec<u8>) -> (r: u32)
    ensures
        r == crc32_of(t@ + data@),
{
    let tb = t.bytes();
    let mut to_hash: Vec<u8> = Vec::new();
    let mut i: usize = 0;
    while i < 4
        invariant
            i <= 4,
            tb@.len() == 4,
            to_hash@ == tb@.subrange(0, i as int),
        decreases 4 - i,
    {
        to_hash.push(tb[i]);
        i = i + 1;
        assert(to_hash@ =~= tb@.subrange(0, i as int));
    }
    let mut j: usize = 0;
    while j < data.len()
        invariant
            j <= data@.len(),
            to_hash@ == tb@ + data@.subrange(0, j as int),
        decreases data@.len() - j,
    {
        to_hash.push(data[j]);
        j = j + 1;
        assert(to_hash@ =~= tb@ + data@.subrange(0, j as int));
    }
    assert(data@.subrange(0, data@.len() as int) =~= data@);
    crc32(to_hash.as_slice())
}

/// A chunk: a type code, its data, and the checksum that protects both.
#[derive(Debug)]
pub struct Chunk {
    pub(crate) length: u32,
    pub(crate) chunk_type: ChunkType,
    pub(crate) chunk_data: Vec<u8>,
    pub(crate) crc: u32,
}

impl View for Chunk {
    type V = ChunkModel;

    closed spec fn view(&self) -> ChunkModel {
        (self.chunk_type@, self.chunk_data@)
    }
}

impl Chunk {
    #[verifier::type_invariant]
    pub(crate) open spec fn inv(self) -> bool {
        &&& valid_chunk(self@)
        &&& self.length == self.chunk_data@.len()
        &&& self.crc == crc32_of(self.chunk_type@ + self.chunk_data@)
    }

    /// A chunk of the given type holding `data`; length and checksum follow from them.
    pub fn new(chunk_type: ChunkType, data: Vec<u8>) -> (r: Chunk)
        requires
            data@.len() <= u32::MAX,
        ensures
            r@ == (chunk_type@, data@),
    {
        proof {
            use_type_invariant(&chunk_type);
        }
        let crc_value = checksum_of(&chunk_type, &data);
        Chunk { length: data.len() as u32, chunk_type, chunk_data: data, crc: crc_value }
    }

    /// The number of data bytes.
    pub fn length(&self) -> (r: u32)
        ensures
            r == self@.1.len(),
    {
        proof {
            use_type_invariant(self);
        }
        self.length
    }

    pub fn chunk_type(&self) -> (r: &ChunkType)
        ensures
            r@ == self@.0,
    {
        &self.chunk_type
    }

    pub fn data(&self) -> (r: &[u8])
        ensures
            r@ == self@.1,
    {
        self.chunk_data.as_slice()
    }

    /// The checksum over type code and data.
    pub fn crc(&self) -> (r: u32)
        ensures
            r == crc32_of(self@.0 + self@.1),
    {
        proof {
            use_type_invariant(self);
        }
        self.crc
    }

    /// The data as UTF-8 text; a chunk without data has none.
    pub fn data_as_string(&self) -> (r: Result<String, PngError>)
        ensures
            self@.1.len() == 0 ==> r == Err::<String, PngError>(PngError::EmptyPayload),
            self@.1.len() > 0 && !valid_utf8(self@.1) ==> r == Err::<String, PngError>(
                PngError::InvalidEncoding,
            ),
            self@.1.len() > 0 && valid_utf8(self@.1) ==> (r matches Ok(s) && s@ == decode_utf8(
                self@.1,
            )),
    {
        if self.chunk_data.len() == 0 {
            return Err(PngError::EmptyPayload);
        }
        match utf8_to_string(self.chunk_data.clone()) {
            Some(s) => Ok(s),
            None => Err(PngError::InvalidEncoding),
        }
    }

    /// The chunk as it is laid out in a file.
    pub fn as_bytes(&self) -> (r: Vec<u8>)
        ensures
            r@ == chunk_bytes(self@),
    {
        proof {
            use_type_invariant(self);
        }
        let mut out: Vec<u8> = Vec::new();
        self.write_to(&mut out);
        out
    }

    /// Appends the chunk, as laid out in a file, to `out`.
    pub fn write_to(&self, out: &mut Vec<u8>)
        ensures
            final(out)@ == old(out)@ + chunk_bytes(self@),
    {
        proof {
            use_type_invariant(self);
        }
        let ghost start = out@;
        let len_bytes = to_be32(self.length);
        let type_bytes = self.chunk_type.bytes();
        let crc_bytes = to_be32(self.crc);
        let mut i: usize = 0;
        while i < 4
            invariant
                i <= 4,
                len_bytes@.len() == 4,
                out@ == start + len_bytes@.subrange(0, i as int),
            decreases 4 - i,
        {
            out.push(len_bytes[i]);
            i = i + 1;
            assert(out@ =~= start + len_bytes@.subrange(0, i as int));
        }
        assert(len_bytes@.subrange(0, 4) =~= len_bytes@);
        let ghost s1 = out@;
        let mut i: usize = 0;
        while i < 4
            invariant
                i <= 4,
                type_bytes@.len() == 4,
                out@ == s1 + type_bytes@.subrange(0, i as int),
            decreases 4 - i,
        {
            out.push(type_bytes[i]);
            i = i + 1;
            assert(out@ =~= s1 + type_bytes@.subrange(0, i as int));
        }
        assert(type_bytes@.subrange(0, 4) =~= type_bytes@);
        let ghost s2 = out@;
        let mut j: usize = 0;
        while j < self.chunk_data.len()
            invariant
                j <= self.chunk_data@.len(),
                out@ == s2 + self.chunk_data@.subrange(0, j as int),
            decreases self.chunk_data@.len() - j,
        {
            out.push(self.chunk_data[j]);
            j = j + 1;
            assert(out@ =~= s2 + self.chunk_data@.subrange(0, j as int));
        }
        assert(self.chunk_data@.subrange(0, self.chunk_data@.len() as int) =~= self.chunk_data@);
        let ghost s3 = out@;
        let mut i: usize = 0;
        while i < 4
            invariant
                i <= 4,
                crc_bytes@.len() == 4,
                out@ == s3 + crc_bytes@.subrange(0, i as int),
            decreases 4 - i,
        {
            out.push(crc_bytes[i]);
            i = i + 1;
            assert(out@ =~= s3 + crc_bytes@.subrange(0, i as int));
        }
        assert(crc_bytes@.subrange(0, 4) =~= crc_bytes@);
        assert(out@ =~= start + chunk_bytes(self@));
    }

    /// Reads the chunk that starts at `pos`; bytes after it are not looked at.
    pub fn parse_at(bytes: &[u8], pos: usize) -> (r: Result<Chunk, PngError>)
        requires
            pos <= bytes@.len(),
        ensures
            ({
                let expected = parse_chunk(bytes@.subrange(pos as int, bytes@.len() as int));
                match r {
                    Ok(c) => expected == Ok::<ChunkModel, PngError>(c@),
                    Err(e) => expected == Err::<ChunkModel, PngError>(e),
                }
            }),
    {
        proof {
            reveal(parse_chunk);
        }
        let ghost s = bytes@.subrange(pos as int, bytes@.len() as int);
        let avail = bytes.len() - pos;
        if avail < 12 {
            return Err(PngError::TooShort);
        }
        let n = read_be32(bytes, pos);
        assert(bytes@.subrange(pos as int, pos + 4) =~= s.subrange(0, 4));
        assert(n == be32_value(s));
        if avail - 12 < n as usize {
            return Err(PngError::TooShort);
        }
        let n = n as usize;
        let tb: [u8; 4] = [bytes[pos + 4], bytes[pos + 5], bytes[pos + 6], bytes[pos + 7]];
        assert(tb@ =~= s.subrange(4, 8));
        let chunk_type = match ChunkType::construct(tb) {
            Ok(t) => t,
            Err(e) => {
                return Err(e);
            },
        };
        let mut data: Vec<u8> = Vec::new();
        let mut j: usize = 0;
        while j < n
            invariant
                j <= n,
                pos + 12 + n <= bytes.len(),
                s == bytes@.subrange(pos as int, bytes@.len() as int),
                data@ == s.subrange(8, 8 + j),
            decreases n - j,
        {
            data.push(bytes[pos + 8 + j]);
            j = j + 1;
            assert(data@ =~= s.subrange(8, 8 + j));
        }
        let stored = read_be32(bytes, pos + 8 + n);
        assert(bytes@.subrange(pos + 8 + n, pos + 12 + n) =~= s.subrange(8 + n, 12 + n));
        let computed = checksum_of(&chunk_type, &data);
        if computed != stored {
            return Err(PngError::CrcMismatch);
        }
        Ok(Chunk { length: n as u32, chunk_type, chunk_data: data, crc: computed })
    }

    /// Reads the chunk at the start of `bytes`.
    pub fn parse(bytes: &[u8]) -> (r: Result<Chunk, PngError>)
        ensures
            r matches Ok(c) ==> parse_chunk(bytes@) == Ok::<ChunkModel, PngError>(c@),
            r matches Err(e) ==> parse_chunk(bytes@) == Err::<ChunkModel, PngError>(e),
    {
        assert(bytes@.subrange(0, bytes@.len() as int) =~= bytes@);
        Chunk::parse_at(bytes, 0)
    }
}

impl<'a> TryFrom<&'a [u8]> for Chunk {
    type Error = PngError;

    fn try_from(value: &'a [u8]) -> Result<Chunk, PngError> {
        Chunk::parse(value)
    }
}

/// What `try_from` returns is stated by `Chunk::parse`, over views; no value of
/// `Chunk` can be written down in a spec function.
impl<'a> vstd::std_specs::convert::TryFromSpecImpl<&'a [u8]> for Chunk {
    open spec fn obeys_try_from_spec() -> bool {
        false
    }

    open spec fn try_from_spec(value: &'a [u8]) -> Result<Chunk, PngError> {
        arbitrary()
    }
}

} // verus!
