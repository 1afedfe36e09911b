use crate::chunk::{
    read_be, be_value, decode_chunk, encode_chunk, lemma_decode_encode, lemma_encode_decode, Chunk,
    ChunkView,
};
use crate::chunk_type::{
    all_ascii, lemma_ascii_utf8, lemma_text_injective, lemma_text_letters, string_from_utf8,
    text_of, ChunkType,
};
use crate::render::{chunk_lines, hex_text, push_chunk_line, push_hex};
use crate::error::PngError;
use vstd::prelude::*;

verus! {

/// The eight bytes that open every PNG file.
pub open spec fn signature() -> Seq<u8> {
    seq![137u8, 80u8, 78u8, 71u8, 13u8, 10u8, 26u8, 10u8]
}

/// The bytes of a sequence of chunks, one after the other.
pub open spec fn encode_all(cs: Seq<ChunkView>) -> Seq<u8>
    decreases cs.len(),
{
    if cs.len() == 0 {
        Seq::empty()
    } else {
        encode_chunk(cs[0]) + encode_all(cs.drop_first())
    }
}

/// The chunks that fill `b` exactly, each one found by the length field at
/// its start, or the first error met on the way.
pub open spec fn parse_chunks(b: Seq<u8>) -> Result<Seq<ChunkView>, PngError>
    decreases b.len(),
{
    if b.len() == 0 {
        Ok(Seq::empty())
    } else if b.len() < 12 {
        Err(PngError::Truncated)
    } else {
        let end = 12 + be_value(b.subrange(0, 4)) as int;
        if b.len() < end {
            Err(PngError::Truncated)
        } else {
            match decode_chunk(b.subrange(0, end)) {
                Err(e) => Err(e),
                Ok(c) => match parse_chunks(b.subrange(end, b.len() as int)) {
                    Err(e) => Err(e),
                    Ok(rest) => Ok(seq![c] + rest),
                },
            }
        }
    }
}

/// The chunks of a whole PNG file: the signature, then chunks to the end.
pub open spec fn parse_png(b: Seq<u8>) -> Result<Seq<ChunkView>, PngError> {
    if b.len() < 8 || b.subrange(0, 8) != signature() {
        Err(PngError::BadSignature)
    } else {
        parse_chunks(b.subrange(8, b.len() as int))
    }
}

/// `acc` put in front of the chunks of `r`, or the error of `r`.
pub open spec fn prepend(acc: Seq<ChunkView>, r: Result<Seq<ChunkView>, PngError>) -> Result<
    Seq<ChunkView>,
    PngError,
> {
    match r {
        Ok(rest) => Ok(acc + rest),
        Err(e) => Err(e),
    }
}

/// The views of a sequence of chunks.
pub open spec fn views(cs: Seq<Chunk>) -> Seq<ChunkView> {
    cs.map_values(|c: Chunk| c@)
}

/// Whether every chunk of the sequence is valid.
pub open spec fn all_wf(cs: Seq<ChunkView>) -> bool {
    forall|i: int| 0 <= i < cs.len() ==> (#[trigger] cs[i]).wf()
}

proof fn lemma_encode_all_push(cs: Seq<ChunkView>, c: ChunkView)
    ensures
        encode_all(cs.push(c)) == encode_all(cs) + encode_chunk(c),
    decreases cs.len(),
{
    if cs.len() == 0 {
        reveal_with_fuel(encode_all, 2);
        assert(cs.push(c).drop_first() =~= Seq::<ChunkView>::empty());
        assert(encode_all(cs.push(c)) =~= encode_chunk(c));
    } else {
        assert(cs.push(c).drop_first() =~= cs.drop_first().push(c));
        lemma_encode_all_push(cs.drop_first(), c);
        assert(encode_all(cs.push(c)) =~= encode_all(cs) + encode_chunk(c));
    }
}

/// The chunks read from a buffer give, written out again, that very buffer.
pub proof fn lemma_chunks_reencode(b: Seq<u8>)
    requires
        parse_chunks(b) is Ok,
    ensures
        parse_chunks(b) matches Ok(cs) && encode_all(cs) == b && all_wf(cs),
    decreases b.len(),
{
    if b.len() > 0 {
        let end = 12 + be_value(b.subrange(0, 4)) as int;
        let rest = b.subrange(end, b.len() as int);
        lemma_encode_decode(b.subrange(0, end));
        lemma_chunks_reencode(rest);
        let cs = parse_chunks(b)->Ok_0;
        assert(cs.drop_first() =~= parse_chunks(rest)->Ok_0);
        assert(b =~= b.subrange(0, end) + rest);
        assert forall|i: int| 0 <= i < cs.len() implies (#[trigger] cs[i]).wf() by {
            if i > 0 {
                assert(cs[i] == cs.drop_first()[i - 1]);
            }
        }
    }
}

/// Valid chunks, written out one after the other, read back as themselves.
pub proof fn lemma_chunks_reparse(cs: Seq<ChunkView>)
    requires
        all_wf(cs),
    ensures
        parse_chunks(encode_all(cs)) == Ok::<Seq<ChunkView>, PngError>(cs),
    decreases cs.len(),
{
    if cs.len() == 0 {
        assert(cs =~= Seq::<ChunkView>::empty());
    } else {
        let b = encode_all(cs);
        let first = encode_chunk(cs[0]);
        let tail = cs.drop_first();
        assert(all_wf(tail)) by {
            assert forall|i: int| 0 <= i < tail.len() implies (#[trigger] tail[i]).wf() by {
                assert(tail[i] == cs[i + 1]);
            }
        }
        lemma_chunks_reparse(tail);
        lemma_decode_encode(cs[0]);
        crate::chunk::lemma_be_value_of_bytes(cs[0].length);
        assert(b.subrange(0, 4) =~= first.subrange(0, 4));
        assert(first.subrange(0, 4) =~= crate::chunk::be_bytes(cs[0].length));
        let end = 12 + be_value(b.subrange(0, 4)) as int;
        assert(end == first.len());
        assert(b.subrange(0, end) =~= first);
        assert(b.subrange(end, b.len() as int) =~= encode_all(tail));
        assert(seq![cs[0]] + tail =~= cs);
    }
}

/// Parsing a PNG file and writing the result out again gives the same bytes.
pub proof fn law_parse_then_serialize(b: Seq<u8>)
    requires
        parse_png(b) is Ok,
    ensures
        parse_png(b) matches Ok(cs) && signature() + encode_all(cs) == b,
{
    lemma_chunks_reencode(b.subrange(8, b.len() as int));
    assert(b =~= b.subrange(0, 8) + b.subrange(8, b.len() as int));
}

/// Writing out valid chunks and parsing the result gives the same chunks.
pub proof fn law_serialize_then_parse(cs: Seq<ChunkView>)
    requires
        all_wf(cs),
    ensures
        parse_png(signature() + encode_all(cs)) == Ok::<Seq<ChunkView>, PngError>(cs),
{
    let b = signature() + encode_all(cs);
    assert(b.subrange(0, 8) =~= signature());
    assert(b.subrange(8, b.len() as int) =~= encode_all(cs));
    lemma_chunks_reparse(cs);
}

/// Whether a chunk's type reads as `code`.
pub open spec fn type_matches(c: ChunkView, code: Seq<char>) -> bool {
    c.chunk_type.text() == code
}

/// Whether some chunk of `cs` has the type `code`.
pub open spec fn has_match(cs: Seq<ChunkView>, code: Seq<char>) -> bool {
    exists|i: int| 0 <= i < cs.len() && type_matches(#[trigger] cs[i], code)
}

/// Whether `i` is the first position in `cs` of a chunk of type `code`.
pub open spec fn is_first_match(cs: Seq<ChunkView>, code: Seq<char>, i: int) -> bool {
    &&& 0 <= i < cs.len()
    &&& type_matches(cs[i], code)
    &&& forall|j: int| 0 <= j < i ==> !type_matches(#[trigger] cs[j], code)
}

/// The number of chunks of type `code` in `cs`.
pub open spec fn count_matches(cs: Seq<ChunkView>, code: Seq<char>) -> nat
    decreases cs.len(),
{
    if cs.len() == 0 {
        0
    } else {
        (if type_matches(cs[0], code) {
            1nat
        } else {
            0nat
        }) + count_matches(cs.drop_first(), code)
    }
}

/// A PNG document: the signature, implied, and its chunks in order.
#[derive(Debug)]
pub struct Png {
    pub chunks: Vec<Chunk>,
}

impl View for Png {
    type V = Seq<ChunkView>;

    open spec fn view(&self) -> Seq<ChunkView> {
        views(self.chunks@)
    }
}

fn has_signature(bytes: &[u8]) -> (r: bool)
    requires
        bytes@.len() >= 8,
    ensures
        r == (bytes@.subrange(0, 8) == signature()),
{
    let r = bytes[0] == 137 && bytes[1] == 80 && bytes[2] == 78 && bytes[3] == 71 && bytes[4] == 13
        && bytes[5] == 10 && bytes[6] == 26 && bytes[7] == 10;
    if r {
        assert(bytes@.subrange(0, 8) =~= signature());
    } else {
        assert(bytes@.subrange(0, 8) != signature()) by {
            if bytes@.subrange(0, 8) == signature() {
                assert(bytes@.subrange(0, 8)[0] == 137u8 && bytes@.subrange(0, 8)[1] == 80u8);
            }
        }
    }
    r
}

impl Png {
    /// Every chunk of the document is valid.
    pub open spec fn wf(&self) -> bool {
        all_wf(self@)
    }

    /// The eight signature bytes.
    pub fn header() -> (r: [u8; 8])
        ensures
            r@ == signature(),
    {
        let r = [137u8, 80u8, 78u8, 71u8, 13u8, 10u8, 26u8, 10u8];
        assert(r@ =~= signature());
        r
    }

    /// A document made of the given chunks, in order.
    pub fn from_chunks(chunks: Vec<Chunk>) -> (r: Png)
        ensures
            r@ == views(chunks@),
    {
        Png { chunks }
    }

    /// The chunks of the document.
    pub fn chunks(&self) -> (r: &[Chunk])
        ensures
            r@ == self.chunks@,
    {
        self.chunks.as_slice()
    }

    /// Reads a whole PNG file: the signature, then chunks until the buffer
    /// ends, each one as long as its own length field says.
    pub fn parse(bytes: &[u8]) -> (r: Result<Png, PngError>)
        ensures
            match r {
                Ok(p) => parse_png(bytes@) == Ok::<Seq<ChunkView>, PngError>(p@) && p.wf(),
                Err(e) => parse_png(bytes@) == Err::<Seq<ChunkView>, PngError>(e),
            },
    {
        let len = bytes.len();
        if len < 8 || !has_signature(bytes) {
            return Err(PngError::BadSignature);
        }
        let ghost whole = bytes@.subrange(8, len as int);
        let mut chunks: Vec<Chunk> = Vec::new();
        let mut pos: usize = 8;
        while pos < len
            invariant
                8 <= pos <= len,
                len == bytes@.len(),
                whole == bytes@.subrange(8, len as int),
                parse_png(bytes@) == parse_chunks(whole),
                all_wf(views(chunks@)),
                parse_chunks(whole) == prepend(
                    views(chunks@),
                    parse_chunks(bytes@.subrange(pos as int, len as int)),
                ),
            decreases len - pos,
        {
            let ghost rest = bytes@.subrange(pos as int, len as int);
            if len - pos < 12 {
                assert(parse_chunks(rest) == Err::<Seq<ChunkView>, PngError>(PngError::Truncated));
                return Err(PngError::Truncated);
            }
            let n = read_be(bytes, pos) as usize;
            assert(rest.subrange(0, 4) =~= bytes@.subrange(pos as int, pos + 4));
            if len - pos - 12 < n {
                assert(parse_chunks(rest) == Err::<Seq<ChunkView>, PngError>(PngError::Truncated));
                return Err(PngError::Truncated);
            }
            let end = pos + 12 + n;
            let slice = &bytes[pos..end];
            assert(rest.subrange(0, 12 + n) =~= slice@);
            assert(rest.subrange(12 + n, rest.len() as int) =~= bytes@.subrange(
                end as int,
                len as int,
            ));
            match Chunk::decode(slice) {
                Ok(c) => {
                    proof {
                        let vs = views(chunks@);
                        assert(views(chunks@.push(c)) =~= vs.push(c@));
                        assert(vs.push(c@) + parse_chunks(
                            bytes@.subrange(end as int, len as int),
                        )->Ok_0 =~= vs + (seq![c@] + parse_chunks(
                            bytes@.subrange(end as int, len as int),
                        )->Ok_0));
                    }
                    chunks.push(c);
                    pos = end;
                },
                Err(e) => {
                    return Err(e);
                },
            }
        }
        assert(bytes@.subrange(pos as int, len as int) =~= Seq::<u8>::empty());
        assert(views(chunks@) + Seq::<ChunkView>::empty() =~= views(chunks@));
        Ok(Png { chunks })
    }

    /// The whole file: the signature, then every chunk's bytes in order.
    pub fn as_bytes(&self) -> (r: Vec<u8>)
        ensures
            r@ == signature() + encode_all(self@),
    {
        let header = Png::header();
        let mut r: Vec<u8> = Vec::new();
        r.extend_from_slice(header.as_slice());
        let mut i: usize = 0;
        while i < self.chunks.len()
            invariant
                0 <= i <= self.chunks@.len(),
                r@ == signature() + encode_all(self@.take(i as int)),
            decreases self.chunks@.len() - i,
        {
            let b = self.chunks[i].as_bytes();
            proof {
                assert(self@.take(i + 1) =~= self@.take(i as int).push(self@[i as int]));
                lemma_encode_all_push(self@.take(i as int), self@[i as int]);
            }
            r.extend_from_slice(b.as_slice());
            assert(r@ =~= signature() + encode_all(self@.take(i + 1)));
            i += 1;
        }
        assert(self@.take(i as int) =~= self@);
        r
    }

    /// A readable dump: the signature in hexadecimal on the first line, then
    /// one line per chunk with its type, length, CRC and data in hexadecimal.
    pub fn render(&self) -> (r: String)
        requires
            self.wf(),
        ensures
            r@ == text_of(hex_text(signature()) + seq![10u8] + chunk_lines(self@)),
    {
        let header = Png::header();
        let mut out: Vec<u8> = Vec::new();
        push_hex(&mut out, header.as_slice());
        out.push(10u8);
        let ghost head = hex_text(signature()) + seq![10u8];
        assert(out@ =~= head + chunk_lines(self@.take(0)));
        let mut i: usize = 0;
        while i < self.chunks.len()
            invariant
                0 <= i <= self.chunks@.len(),
                all_wf(self@),
                out@ == head + chunk_lines(self@.take(i as int)),
                all_ascii(out@),
            decreases self.chunks@.len() - i,
        {
            assert(self@[i as int].wf());
            push_chunk_line(&mut out, &self.chunks[i]);
            assert(self@.take(i + 1).drop_last() =~= self@.take(i as int));
            assert(out@ =~= head + chunk_lines(self@.take(i + 1)));
            i += 1;
        }
        assert(self@.take(i as int) =~= self@);
        proof {
            lemma_ascii_utf8(out@);
        }
        match string_from_utf8(out) {
            Some(s) => s,
            None => String::new(),
        }
    }

    /// The position of the first chunk of type `t`.
    fn position_of(&self, t: &ChunkType) -> (r: Option<usize>)
        requires
            t.wf(),
        ensures
            match r {
                Some(i) => is_first_match(self@, t.text(), i as int),
                None => !has_match(self@, t.text()),
            },
    {
        let mut i: usize = 0;
        while i < self.chunks.len()
            invariant
                0 <= i <= self.chunks@.len(),
                forall|j: int| 0 <= j < i ==> !type_matches(#[trigger] self@[j], t.text()),
            decreases self.chunks@.len() - i,
        {
            if self.chunks[i].chunk_type == *t {
                return Some(i);
            }
            assert(!type_matches(self@[i as int], t.text())) by {
                if type_matches(self@[i as int], t.text()) {
                    lemma_text_injective(self@[i as int].chunk_type, *t);
                }
            }
            i += 1;
        }
        None
    }

    /// The position of the first chunk whose type reads as `code`.
    fn position_of_code(&self, code: &str) -> (r: Option<usize>)
        requires
            self.wf(),
        ensures
            match r {
                Some(i) => is_first_match(self@, code@, i as int),
                None => !has_match(self@, code@),
            },
    {
        match ChunkType::from_text(code) {
            Ok(t) => self.position_of(&t),
            Err(_) => {
                assert(!has_match(self@, code@)) by {
                    assert forall|i: int| 0 <= i < self@.len() implies !type_matches(
                        #[trigger] self@[i],
                        code@,
                    ) by {
                        lemma_text_letters(self@[i].chunk_type);
                    }
                }
                None
            },
        }
    }

    /// The first chunk whose type reads as `code`, if there is one.
    pub fn chunk_by_type(&self, code: &str) -> (r: Option<&Chunk>)
        requires
            self.wf(),
        ensures
            match r {
                Some(c) => exists|i: int| is_first_match(self@, code@, i) && c@ == self@[i],
                None => !has_match(self@, code@),
            },
    {
        match self.position_of_code(code) {
            Some(i) => Some(&self.chunks[i]),
            None => None,
        }
    }

    /// Puts a chunk at the end of the document.
    pub fn append_chunk(&mut self, chunk: Chunk)
        ensures
            final(self)@ == old(self)@.push(chunk@),
            old(self).wf() && chunk.wf() ==> final(self).wf(),
    {
        let ghost c = chunk@;
        self.chunks.push(chunk);
        assert(views(self.chunks@) =~= views(old(self).chunks@).push(c));
    }

    /// Takes out the first chunk whose type reads as `code` and returns it.
    pub fn remove_chunk(&mut self, code: &str) -> (r: Result<Chunk, PngError>)
        requires
            old(self).wf(),
        ensures
            final(self).wf(),
            match r {
                Ok(c) => exists|i: int|
                    is_first_match(old(self)@, code@, i) && c@ == old(self)@[i] && final(self)@
                        == old(self)@.remove(i),
                Err(e) => e == PngError::ChunkNotFound && !has_match(old(self)@, code@)
                    && final(self)@ == old(self)@,
            },
    {
        match self.position_of_code(code) {
            Some(i) => {
                let c = self.chunks.remove(i);
                assert(views(self.chunks@) =~= views(old(self).chunks@).remove(i as int));
                assert(all_wf(self@)) by {
                    assert forall|j: int| 0 <= j < self@.len() implies (#[trigger] self@[j]).wf() by {
                        if j < i {
                            assert(self@[j] == old(self)@[j]);
                        } else {
                            assert(self@[j] == old(self)@[j + 1]);
                        }
                    }
                }
                Ok(c)
            },
            None => Err(PngError::ChunkNotFound),
        }
    }

    /// Adds a chunk to the document. When the document is to be written back
    /// in place, a chunk of the same type already present is refused, and the
    /// document stays as it was.
    pub fn embed(&mut self, chunk: Chunk, in_place: bool) -> (r: Result<(), PngError>)
        requires
            old(self).wf(),
            chunk.wf(),
        ensures
            final(self).wf(),
            r is Err <==> in_place && has_match(old(self)@, chunk.chunk_type.text()),
            r matches Err(e) ==> e == PngError::DuplicateChunk && final(self)@ == old(self)@,
            r is Ok ==> final(self)@ == old(self)@.push(chunk@),
    {
        if in_place {
            if self.position_of(&chunk.chunk_type).is_some() {
                return Err(PngError::DuplicateChunk);
            }
        }
        self.append_chunk(chunk);
        Ok(())
    }
}

/// Appending a chunk and looking up its type finds the new chunk, unless an
/// earlier chunk already has that type, in which case the lookup finds what it
/// found before.
pub proof fn law_append_then_lookup(cs: Seq<ChunkView>, c: ChunkView)
    ensures
        !has_match(cs, c.chunk_type.text()) ==> is_first_match(
            cs.push(c),
            c.chunk_type.text(),
            cs.len() as int,
        ),
        forall|i: int|
            is_first_match(cs, c.chunk_type.text(), i) ==> #[trigger] is_first_match(
                cs.push(c),
                c.chunk_type.text(),
                i,
            ),
{
    let code = c.chunk_type.text();
    let ds = cs.push(c);
    assert forall|j: int| 0 <= j < cs.len() implies #[trigger] ds[j] == cs[j] by {}
    if !has_match(cs, code) {
        assert forall|j: int| 0 <= j < cs.len() implies !type_matches(#[trigger] ds[j], code) by {
            assert(ds[j] == cs[j]);
        }
    }
}

/// There is at most one first match.
pub proof fn lemma_first_match_unique(cs: Seq<ChunkView>, code: Seq<char>, i: int, j: int)
    requires
        is_first_match(cs, code, i),
        is_first_match(cs, code, j),
    ensures
        i == j,
{
    if i < j {
        assert(!type_matches(cs[i], code));
    } else if j < i {
        assert(!type_matches(cs[j], code));
    }
}

/// Removing a chunk of type `code` leaves one chunk fewer of that type.
pub proof fn lemma_count_after_remove(cs: Seq<ChunkView>, code: Seq<char>, i: int)
    requires
        0 <= i < cs.len(),
        type_matches(cs[i], code),
    ensures
        count_matches(cs.remove(i), code) + 1 == count_matches(cs, code),
    decreases cs.len(),
{
    if i == 0 {
        assert(cs.remove(0) =~= cs.drop_first());
    } else {
        assert(cs.remove(i).drop_first() =~= cs.drop_first().remove(i - 1));
        lemma_count_after_remove(cs.drop_first(), code, i - 1);
    }
}

/// A chunk of type `code` counts as present exactly when the count is not zero.
pub proof fn lemma_count_has_match(cs: Seq<ChunkView>, code: Seq<char>)
    ensures
        has_match(cs, code) <==> count_matches(cs, code) > 0,
    decreases cs.len(),
{
    if cs.len() > 0 {
        lemma_count_has_match(cs.drop_first(), code);
        if has_match(cs, code) && !type_matches(cs[0], code) {
            let i = choose|i: int| 0 <= i < cs.len() && type_matches(#[trigger] cs[i], code);
            assert(cs.drop_first()[i - 1] == cs[i]);
        }
        if has_match(cs.drop_first(), code) {
            let i = choose|i: int|
                0 <= i < cs.drop_first().len() && type_matches(#[trigger] cs.drop_first()[i], code);
            assert(cs[i + 1] == cs.drop_first()[i]);
        }
    }
}

/// Removing by type, when it succeeds, leaves exactly one chunk fewer of that
/// type; when no chunk has the type, the document is left as it was.
pub proof fn law_remove_by_type(cs: Seq<ChunkView>, code: Seq<char>)
    ensures
        forall|i: int|
            is_first_match(cs, code, i) ==> count_matches(#[trigger] cs.remove(i), code) + 1
                == count_matches(cs, code),
        !has_match(cs, code) ==> count_matches(cs, code) == 0,
{
    assert forall|i: int| is_first_match(cs, code, i) implies count_matches(
        #[trigger] cs.remove(i),
        code,
    ) + 1 == count_matches(cs, code) by {
        lemma_count_after_remove(cs, code, i);
    }
    lemma_count_has_match(cs, code);
}

} // verus!
