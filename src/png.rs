use vstd::prelude::*;
use crate::chunk::{
    chunk_bytes, lemma_parse_chunk_bytes, lemma_parse_chunk_size, parse_chunk, valid_chunk, Chunk,
    ChunkModel,
};
use crate::chunk_type::ChunkType;
use crate::error::PngError;

verus! {

/// The eight bytes that open every PNG file.
pub open spec fn signature() -> Seq<u8> {
    seq![0x89u8, 0x50u8, 0x4Eu8, 0x47u8, 0x0Du8, 0x0Au8, 0x1Au8, 0x0Au8]
}

/// The chunks one after another, as laid out in a file.
pub open spec fn chunks_bytes(cs: Seq<ChunkModel>) -> Seq<u8>
    decreases cs.len(),
{
    if cs.len() == 0 {
        Seq::empty()
    } else {
        chunk_bytes(cs[0]) + chunks_bytes(cs.drop_first())
    }
}

/// The whole file: signature, then the chunks.
pub open spec fn png_bytes(cs: Seq<ChunkModel>) -> Seq<u8> {
    signature() + chunks_bytes(cs)
}

/// One chunk inside a stream: a header that claims more than is left is a
/// truncated chunk, and every other failure is that of the chunk itself.
pub open spec fn stream_chunk(s: Seq<u8>) -> Result<ChunkModel, PngError> {
    if s.len() >= 8 && parse_chunk(s) == Err::<ChunkModel, PngError>(PngError::TooShort) {
        Err(PngError::TruncatedChunk)
    } else {
        parse_chunk(s)
    }
}

/// `r` with `prefix` put in front of its chunks.
pub open spec fn prepend(
    prefix: Seq<ChunkModel>,
    r: Result<Seq<ChunkModel>, PngError>,
) -> Result<Seq<ChunkModel>, PngError> {
    match r {
        Ok(cs) => Ok(prefix + cs),
        Err(e) => Err(e),
    }
}

/// Chunks read one after another until the bytes run out.
#[verifier::opaque]
pub open spec fn parse_chunks(s: Seq<u8>) -> Result<Seq<ChunkModel>, PngError>
    decreases s.len(),
{
    if s.len() == 0 {
        Ok(Seq::empty())
    } else {
        match stream_chunk(s) {
            Err(e) => Err(e),
            // A chunk read from `s` always fits in it; the test only makes the
            // recursion visibly shrink `s`.
            Ok(m) => if 12 + m.1.len() <= s.len() {
                prepend(seq![m], parse_chunks(s.subrange(12 + m.1.len() as int, s.len() as int)))
            } else {
                Err(PngError::TruncatedChunk)
            },
        }
    }
}

/// A file: the signature, then chunks up to the end.
pub open spec fn parse_png(s: Seq<u8>) -> Result<Seq<ChunkModel>, PngError> {
    if s.len() < 8 || s.subrange(0, 8) != signature() {
        Err(PngError::BadSignature)
    } else {
        parse_chunks(s.subrange(8, s.len() as int))
    }
}

/// `cs[i]` is the first chunk of type `t`.
pub open spec fn is_first_of_type(cs: Seq<ChunkModel>, t: Seq<u8>, i: int) -> bool {
    &&& 0 <= i < cs.len()
    &&& cs[i].0 == t
    &&& forall|j: int| 0 <= j < i ==> (#[trigger] cs[j]).0 != t
}

/// Some chunk has type `t`.
pub open spec fn has_type(cs: Seq<ChunkModel>, t: Seq<u8>) -> bool {
    exists|i: int| 0 <= i < cs.len() && (#[trigger] cs[i]).0 == t
}

/// How many chunks have type `t`.
pub open spec fn count_type(cs: Seq<ChunkModel>, t: Seq<u8>) -> nat
    decreases cs.len(),
{
    if cs.len() == 0 {
        0
    } else {
        count_type(cs.drop_last(), t) + if cs.last().0 == t {
            1nat
        } else {
            0nat
        }
    }
}

/// A PNG image as the ordered sequence of its chunks.
#[derive(Debug)]
pub struct Png {
    chunks: Vec<Chunk>,
}

impl View for Png {
    type V = Seq<ChunkModel>;

    closed spec fn view(&self) -> Seq<ChunkModel> {
        self.chunks@.map_values(|c: Chunk| c@)
    }
}

impl Png {
    /// Every chunk held can be written and read back.
    pub open spec fn wf(&self) -> bool {
        forall|i: int| 0 <= i < self@.len() ==> valid_chunk(#[trigger] self@[i])
    }

    /// An image with no chunks.
    pub fn new() -> (r: Png)
        ensures
            r.wf(),
            r@ == Seq::<ChunkModel>::empty(),
    {
        let r = Png { chunks: Vec::new() };
        assert(r@ =~= Seq::<ChunkModel>::empty());
        r
    }

    /// The chunks, in file order.
    pub fn chunks(&self) -> (r: &[Chunk])
        ensures
            r@.map_values(|c: Chunk| c@) == self@,
    {
        self.chunks.as_slice()
    }

    /// Adds a chunk after the last one.
    pub fn append_chunk(&mut self, chunk: Chunk)
        requires
            old(self).wf(),
        ensures
            final(self).wf(),
            final(self)@ == old(self)@.push(chunk@),
    {
        proof {
            use_type_invariant(&chunk);
        }
        let ghost before = self@;
        let ghost c = chunk@;
        self.chunks.push(chunk);
        assert(self.chunks@.map_values(|c: Chunk| c@) =~= before.push(c));
    }

    fn position_of(&self, chunk_type: &ChunkType) -> (r: Option<usize>)
        ensures
            r matches Some(i) ==> is_first_of_type(self@, chunk_type@, i as int),
            r is None ==> !has_type(self@, chunk_type@),
    {
        let mut i: usize = 0;
        while i < self.chunks.len()
            invariant
                i <= self@.len(),
                self@.len() == self.chunks@.len(),
                forall|j: int| 0 <= j < i ==> (#[trigger] self@[j]).0 != chunk_type@,
            decreases self@.len() - i,
        {
            if self.chunks[i].chunk_type().same_code(chunk_type) {
                return Some(i);
            }
            i = i + 1;
        }
        None
    }

    /// The first chunk of the given type.
    pub fn chunk_by_type(&self, chunk_type: &ChunkType) -> (r: Result<&Chunk, PngError>)
        ensures
            has_type(self@, chunk_type@) <==> r is Ok,
            r matches Ok(c) ==> exists|i: int|
                is_first_of_type(self@, chunk_type@, i) && c@ == #[trigger] self@[i],
            r matches Err(e) ==> e == PngError::NotFound,
    {
        match self.position_of(chunk_type) {
            Some(i) => Ok(&self.chunks[i]),
            None => Err(PngError::NotFound),
        }
    }

    /// Takes out the first chunk of the given type; the others stay in order.
    pub fn remove_first_chunk(&mut self, chunk_type: &ChunkType) -> (r: Result<Chunk, PngError>)
        requires
            old(self).wf(),
        ensures
            final(self).wf(),
            has_type(old(self)@, chunk_type@) <==> r is Ok,
            r matches Ok(c) ==> exists|i: int|
                is_first_of_type(old(self)@, chunk_type@, i) && c@ == #[trigger] old(self)@[i]
                    && final(self)@ == old(self)@.remove(i),
            r matches Err(e) ==> e == PngError::NotFound && final(self)@ == old(self)@,
    {
        match self.position_of(chunk_type) {
            Some(i) => {
                let ghost before = self@;
                let c = self.chunks.remove(i);
                assert(self@ =~= before.remove(i as int));
                Ok(c)
            },
            None => Err(PngError::NotFound),
        }
    }

    /// The file: the signature, then every chunk in order.
    pub fn as_bytes(&self) -> (r: Vec<u8>)
        ensures
            r@ == png_bytes(self@),
    {
        let mut out: Vec<u8> = vec![0x89u8, 0x50u8, 0x4Eu8, 0x47u8, 0x0Du8, 0x0Au8, 0x1Au8, 0x0Au8];
        assert(out@ =~= signature() + chunks_bytes(self@.take(0)));
        let mut i: usize = 0;
        while i < self.chunks.len()
            invariant
                i <= self@.len(),
                self@.len() == self.chunks@.len(),
                out@ == signature() + chunks_bytes(self@.take(i as int)),
            decreases self@.len() - i,
        {
            let ghost prev = out@;
            self.chunks[i].write_to(&mut out);
            proof {
                lemma_chunks_bytes_push(self@.take(i as int), self@[i as int]);
                assert(self@.take(i as int).push(self@[i as int]) =~= self@.take(i + 1));
            }
            i = i + 1;
        }
        assert(self@.take(self@.len() as int) =~= self@);
        out
    }

    /// Reads a file: the signature, then chunks until the bytes run out.
    pub fn parse(bytes: &[u8]) -> (r: Result<Png, PngError>)
        ensures
            r matches Ok(p) ==> p.wf() && parse_png(bytes@) == Ok::<Seq<ChunkModel>, PngError>(
                p@,
            ),
            r matches Err(e) ==> parse_png(bytes@) == Err::<Seq<ChunkModel>, PngError>(e),
    {
        if bytes.len() < 8 {
            return Err(PngError::BadSignature);
        }
        let sig: [u8; 8] = [0x89u8, 0x50u8, 0x4Eu8, 0x47u8, 0x0Du8, 0x0Au8, 0x1Au8, 0x0Au8];
        assert(sig@ =~= signature());
        let mut k: usize = 0;
        while k < 8
            invariant
                k <= 8 <= bytes@.len(),
                sig@ == signature(),
                forall|j: int| 0 <= j < k ==> bytes@[j] == #[trigger] signature()[j],
            decreases 8 - k,
        {
            if bytes[k] != sig[k] {
                assert(bytes@.subrange(0, 8)[k as int] != signature()[k as int]);
                return Err(PngError::BadSignature);
            }
            k = k + 1;
        }
        assert(bytes@.subrange(0, 8) =~= signature());
        let ghost whole = bytes@.subrange(8, bytes@.len() as int);
        let mut png = Png::new();
        let mut pos: usize = 8;
        proof {
            lemma_prepend_empty(parse_chunks(whole));
        }
        while pos < bytes.len()
            invariant
                8 <= pos <= bytes@.len(),
                png.wf(),
                whole == bytes@.subrange(8, bytes@.len() as int),
                bytes@.subrange(0, 8) == signature(),
                parse_chunks(whole) == prepend(
                    png@,
                    parse_chunks(bytes@.subrange(pos as int, bytes@.len() as int)),
                ),
            decreases bytes@.len() - pos,
        {
            let ghost rest = bytes@.subrange(pos as int, bytes@.len() as int);
            match Chunk::parse_at(bytes, pos) {
                Err(e) => {
                    let e2 = if e == PngError::TooShort && bytes.len() - pos >= 8 {
                        PngError::TruncatedChunk
                    } else {
                        e
                    };
                    assert(stream_chunk(rest) == Err::<ChunkModel, PngError>(e2));
                    assert(parse_chunks(rest) == Err::<Seq<ChunkModel>, PngError>(e2)) by {
                        reveal(parse_chunks);
                    }
                    return Err(e2);
                },
                Ok(c) => {
                    let n = c.length() as usize;
                    let ghost m = c@;
                    proof {
                        lemma_parse_chunk_size(rest);
                    }
                    assert(stream_chunk(rest) == Ok::<ChunkModel, PngError>(m));
                    let ghost p = png@;
                    png.append_chunk(c);
                    proof {
                        assert(rest.subrange(12 + n as int, rest.len() as int) =~= bytes@.subrange(
                            pos + 12 + n,
                            bytes@.len() as int,
                        ));
                        lemma_prepend_concat(
                            p,
                            seq![m],
                            parse_chunks(bytes@.subrange(pos + 12 + n, bytes@.len() as int)),
                        );
                        assert(p + seq![m] =~= p.push(m));
                        reveal(parse_chunks);
                    }
                    pos = pos + 12 + n;
                },
            }
        }
        proof {
            reveal(parse_chunks);
            assert(png@ + Seq::<ChunkModel>::empty() =~= png@);
        }
        Ok(png)
    }
}

impl<'a> TryFrom<&'a [u8]> for Png {
    type Error = PngError;

    fn try_from(value: &'a [u8]) -> Result<Png, PngError> {
        Png::parse(value)
    }
}

/// What `try_from` returns is stated by `Png::parse`, over views; no value of
/// `Png` can be written down in a spec function.
impl<'a> vstd::std_specs::convert::TryFromSpecImpl<&'a [u8]> for Png {
    open spec fn obeys_try_from_spec() -> bool {
        false
    }

    open spec fn try_from_spec(value: &'a [u8]) -> Result<Png, PngError> {
        arbitrary()
    }
}

proof fn lemma_prepend_empty(r: Result<Seq<ChunkModel>, PngError>)
    ensures
        prepend(Seq::empty(), r) == r,
{
    if let Ok(cs) = r {
        assert(Seq::<ChunkModel>::empty() + cs =~= cs);
    }
}

proof fn lemma_prepend_concat(
    a: Seq<ChunkModel>,
    b: Seq<ChunkModel>,
    r: Result<Seq<ChunkModel>, PngError>,
)
    ensures
        prepend(a, prepend(b, r)) == prepend(a + b, r),
{
    if let Ok(cs) = r {
        assert(a + (b + cs) =~= (a + b) + cs);
    }
}

proof fn lemma_chunks_bytes_push(cs: Seq<ChunkModel>, m: ChunkModel)
    ensures
        chunks_bytes(cs.push(m)) == chunks_bytes(cs) + chunk_bytes(m),
    decreases cs.len(),
{
    if cs.len() == 0 {
        assert(cs.push(m).drop_first() =~= Seq::<ChunkModel>::empty());
        assert(cs.push(m)[0] == m);
        assert(chunks_bytes(Seq::<ChunkModel>::empty()) == Seq::<u8>::empty());
        assert(cs =~= Seq::<ChunkModel>::empty());
        assert(chunk_bytes(m) + Seq::<u8>::empty() =~= Seq::<u8>::empty() + chunk_bytes(m));
    } else {
        assert(cs.push(m).drop_first() =~= cs.drop_first().push(m));
        assert(cs.push(m)[0] == cs[0]);
        lemma_chunks_bytes_push(cs.drop_first(), m);
        assert(chunk_bytes(cs[0]) + (chunks_bytes(cs.drop_first()) + chunk_bytes(m))
            =~= (chunk_bytes(cs[0]) + chunks_bytes(cs.drop_first())) + chunk_bytes(m));
    }
}

proof fn lemma_parse_chunks_step(s: Seq<u8>, m: ChunkModel)
    requires
        s.len() > 0,
        parse_chunk(s) == Ok::<ChunkModel, PngError>(m),
        12 + m.1.len() <= s.len(),
    ensures
        parse_chunks(s) == prepend(
            seq![m],
            parse_chunks(s.subrange(12 + m.1.len() as int, s.len() as int)),
        ),
{
    assert(stream_chunk(s) == Ok::<ChunkModel, PngError>(m));
    reveal(parse_chunks);
}

/// Chunks laid out one after another read back as the same chunks.
pub proof fn lemma_parse_chunks_bytes(cs: Seq<ChunkModel>)
    requires
        forall|i: int| 0 <= i < cs.len() ==> valid_chunk(#[trigger] cs[i]),
    ensures
        parse_chunks(chunks_bytes(cs)) == Ok::<Seq<ChunkModel>, PngError>(cs),
    decreases cs.len(),
{
    if cs.len() == 0 {
        assert(cs =~= Seq::<ChunkModel>::empty());
        reveal(parse_chunks);
    } else {
        let m = cs[0];
        let rest = cs.drop_first();
        let s = chunks_bytes(cs);
        assert(valid_chunk(m));
        assert forall|i: int| 0 <= i < rest.len() implies valid_chunk(#[trigger] rest[i]) by {
            assert(rest[i] == cs[i + 1]);
        }
        assert(s == chunk_bytes(m) + chunks_bytes(rest));
        lemma_parse_chunk_bytes(m, chunks_bytes(rest));
        lemma_parse_chunks_bytes(rest);
        let k = 12 + m.1.len() as int;
        assert(s.subrange(k, s.len() as int) =~= chunks_bytes(rest));
        lemma_parse_chunks_step(s, m);
        assert(seq![m] + rest =~= cs);
    }
}

/// Serializing an image and reading it back gives the same chunks, so
/// serializing the result gives the same bytes.
pub proof fn lemma_png_round_trip(cs: Seq<ChunkModel>)
    requires
        forall|i: int| 0 <= i < cs.len() ==> valid_chunk(#[trigger] cs[i]),
    ensures
        parse_png(png_bytes(cs)) == Ok::<Seq<ChunkModel>, PngError>(cs),
        parse_png(png_bytes(cs)) matches Ok(d) && png_bytes(d) == png_bytes(cs),
{
    let s = png_bytes(cs);
    let body = chunks_bytes(cs);
    lemma_parse_chunks_bytes(cs);
    assert(signature().len() == 8);
    assert(s == signature() + body);
    assert(s.subrange(0, 8) =~= signature());
    assert(s.subrange(8, s.len() as int) =~= body);
    assert(parse_png(s) == parse_chunks(body));
}

/// After appending a chunk whose type no earlier chunk has, the first chunk of
/// that type is the appended one, at the end.
pub proof fn lemma_append_then_lookup(cs: Seq<ChunkModel>, m: ChunkModel)
    requires
        !has_type(cs, m.0),
    ensures
        is_first_of_type(cs.push(m), m.0, cs.len() as int),
        cs.push(m)[cs.len() as int] == m,
        forall|i: int| is_first_of_type(cs.push(m), m.0, i) ==> i == cs.len(),
{
    let c2 = cs.push(m);
    assert forall|j: int| 0 <= j < cs.len() implies (#[trigger] c2[j]).0 != m.0 by {
        assert(c2[j] == cs[j]);
    }
    assert forall|i: int| is_first_of_type(c2, m.0, i) implies i == cs.len() by {
        if i < cs.len() {
            assert(c2[i] == cs[i]);
        }
    }
}

/// The first chunk of a type is at one place only.
pub proof fn lemma_first_of_type_unique(cs: Seq<ChunkModel>, t: Seq<u8>, i: int, k: int)
    requires
        is_first_of_type(cs, t, i),
        is_first_of_type(cs, t, k),
    ensures
        i == k,
{
    if i < k {
        assert(cs[i].0 != t);
    } else if k < i {
        assert(cs[k].0 != t);
    }
}

proof fn lemma_count_concat(a: Seq<ChunkModel>, b: Seq<ChunkModel>, t: Seq<u8>)
    ensures
        count_type(a + b, t) == count_type(a, t) + count_type(b, t),
    decreases b.len(),
{
    if b.len() == 0 {
        assert(a + b =~= a);
    } else {
        assert((a + b).drop_last() =~= a + b.drop_last());
        assert((a + b).last() == b.last());
        lemma_count_concat(a, b.drop_last(), t);
    }
}

/// Removing the first chunk of a type removes that one, keeps every other chunk
/// in order, and leaves one chunk of that type fewer.
pub proof fn lemma_remove_first(cs: Seq<ChunkModel>, t: Seq<u8>, i: int)
    requires
        is_first_of_type(cs, t, i),
    ensures
        count_type(cs.remove(i), t) + 1 == count_type(cs, t),
        forall|j: int| 0 <= j < i ==> #[trigger] cs.remove(i)[j] == cs[j],
        forall|j: int| i <= j < cs.len() - 1 ==> #[trigger] cs.remove(i)[j] == cs[j + 1],
{
    let a = cs.subrange(0, i);
    let b = cs.subrange(i + 1, cs.len() as int);
    let one = seq![cs[i]];
    assert(cs =~= (a + one) + b);
    assert(cs.remove(i) =~= a + b);
    lemma_count_concat(a + one, b, t);
    lemma_count_concat(a, one, t);
    lemma_count_concat(a, b, t);
    assert(one.drop_last() =~= Seq::<ChunkModel>::empty());
    assert(one.last() == cs[i]);
    assert(count_type(Seq::<ChunkModel>::empty(), t) == 0);
    assert(count_type(one, t) == 1);
}

} // verus!
