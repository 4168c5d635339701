//! The container decoder: validate the magic, read the checksum, total
//! size and chunk directory, and hand back each chunk's tag and raw byte
//! range. A tag outside the modeled set is not an error: the chunk is
//! preserved as an opaque byte range, and the chunks after it decode from
//! their own directory entries, so nothing desynchronizes.

use vstd::prelude::*;

use crate::builder::DXBC_MAGIC;
use crate::bytes::le_u32_at;
use crate::cursor::Cursor;
use crate::DecodeError;

verus! {

/// One chunk as stored: its tag and its raw payload bytes. The payload of
/// a recognized tag is decoded by the matching chunk codec; an unknown
/// tag's payload is retained untouched.
#[derive(Debug, PartialEq, Eq, Clone)]
pub struct DxbcChunk {
    pub tag: u32,
    pub payload: Vec<u8>,
}

/// The mathematical value of a stored chunk.
#[verifier::ext_equal]
pub struct ChunkView {
    pub tag: u32,
    pub payload: Seq<u8>,
}

impl View for DxbcChunk {
    type V = ChunkView;

    open spec fn view(&self) -> ChunkView {
        ChunkView { tag: self.tag, payload: self.payload@ }
    }
}

/// A decoded container envelope: the stored checksum, the total-size
/// word, and the chunks in directory order.
#[derive(Debug, PartialEq, Eq, Clone)]
pub struct DxbcContainer {
    pub checksum: Vec<u32>,
    pub total_size: u32,
    pub chunks: Vec<DxbcChunk>,
}

/// The mathematical value of a decoded container.
#[verifier::ext_equal]
pub struct ContainerView {
    pub checksum: Seq<u32>,
    pub total_size: u32,
    pub chunks: Seq<ChunkView>,
}

impl View for DxbcContainer {
    type V = ContainerView;

    open spec fn view(&self) -> ContainerView {
        ContainerView {
            checksum: self.checksum@,
            total_size: self.total_size,
            chunks: self.chunks@.map_values(|c: DxbcChunk| c@),
        }
    }
}

// --- spec parser ------------------------------------------------------------
/// The chunk named by the directory word at `dirpos`: its tag, and the
/// byte range its length word declares. A directory offset outside the
/// buffer is out of bounds; a chunk running past the end of the buffer is
/// an end-of-buffer failure. The tag is never examined.
pub open spec fn chunk_at(b: Seq<u8>, dirpos: int) -> Result<ChunkView, DecodeError> {
    if !(0 <= dirpos && dirpos + 4 <= b.len()) {
        Err(DecodeError::UnexpectedEof)
    } else {
        let off = le_u32_at(b, dirpos) as int;
        if off > b.len() {
            Err(DecodeError::OutOfBounds)
        } else if off + 8 > b.len() {
            Err(DecodeError::UnexpectedEof)
        } else {
            let tag = le_u32_at(b, off);
            let len = le_u32_at(b, off + 4) as int;
            if off + 8 + len > b.len() {
                Err(DecodeError::UnexpectedEof)
            } else {
                Ok(ChunkView { tag: tag, payload: b.subrange(off + 8, off + 8 + len) })
            }
        }
    }
}

/// Parse `n` chunks through their directory words starting at `dirpos`.
pub open spec fn parse_chunks(b: Seq<u8>, n: nat, dirpos: int) -> Result<
    Seq<ChunkView>,
    DecodeError,
>
    decreases n,
{
    if n == 0 {
        Ok(Seq::empty())
    } else {
        match chunk_at(b, dirpos) {
            Ok(c) => match parse_chunks(b, (n - 1) as nat, dirpos + 4) {
                Ok(rest) => Ok(seq![c] + rest),
                Err(e) => Err(e),
            },
            Err(e) => Err(e),
        }
    }
}

/// Parse a whole container: magic, checksum, total size, chunk count,
/// then each directory entry's chunk.
pub open spec fn parse_container(b: Seq<u8>) -> Result<ContainerView, DecodeError> {
    if b.len() < 4 {
        Err(DecodeError::UnexpectedEof)
    } else if le_u32_at(b, 0) != DXBC_MAGIC {
        Err(DecodeError::InvalidMagic)
    } else if b.len() < 28 {
        Err(DecodeError::UnexpectedEof)
    } else {
        let count = le_u32_at(b, 24) as int;
        if 28 + 4 * count > b.len() {
            Err(DecodeError::UnexpectedEof)
        } else {
            match parse_chunks(b, count as nat, 28) {
                Ok(cs) => Ok(
                    ContainerView {
                        checksum: seq![
                            le_u32_at(b, 4),
                            le_u32_at(b, 8),
                            le_u32_at(b, 12),
                            le_u32_at(b, 16),
                        ],
                        total_size: le_u32_at(b, 20),
                        chunks: cs,
                    },
                ),
                Err(e) => Err(e),
            }
        }
    }
}

// --- unknown-data tolerance ---------------------------------------------------
/// Every chunk of a parsed directory comes from its own directory entry.
pub proof fn lemma_parse_chunks_index(b: Seq<u8>, n: nat, dirpos: int, j: int)
    requires
        parse_chunks(b, n, dirpos) matches Ok(cs),
        0 <= j < n,
    ensures
        parse_chunks(b, n, dirpos) matches Ok(cs) ==> cs.len() == n && chunk_at(b, dirpos + 4 * j)
            == Ok::<ChunkView, DecodeError>(cs[j]),
    decreases n,
{
    match parse_chunks(b, n, dirpos) {
        Ok(cs) => {
            lemma_parse_chunks_len(b, (n - 1) as nat, dirpos + 4);
            if j > 0 {
                lemma_parse_chunks_index(b, (n - 1) as nat, dirpos + 4, j - 1);
            }
            match parse_chunks(b, (n - 1) as nat, dirpos + 4) {
                Ok(rest) => {
                    assert(cs =~= seq![cs[0]] + rest);
                },
                Err(_) => {},
            }
        },
        Err(_) => {},
    }
}

/// A successful directory parse returns one chunk per entry.
pub proof fn lemma_parse_chunks_len(b: Seq<u8>, n: nat, dirpos: int)
    ensures
        parse_chunks(b, n, dirpos) matches Ok(cs) ==> cs.len() == n,
    decreases n,
{
    if n > 0 {
        lemma_parse_chunks_len(b, (n - 1) as nat, dirpos + 4);
    }
}

/// Unknown-data tolerance, the chunk half: decoding never rejects a chunk
/// for its tag. A chunk whose tag lies outside the modeled set — RDEF,
/// ISGN, OSGN, SHEX — is preserved as its exact raw byte range, and every
/// other chunk still decodes from its own directory entry, so an unknown
/// chunk never desynchronizes the rest of the container.
pub proof fn lemma_unknown_chunk_preserved(b: Seq<u8>, j: int)
    requires
        parse_container(b) matches Ok(c),
        parse_container(b) matches Ok(c) && 0 <= j < c.chunks.len(),
    ensures
        parse_container(b) matches Ok(c) ==> {
            let off = le_u32_at(b, 28 + 4 * j) as int;
            c.chunks[j].tag == le_u32_at(b, off) && c.chunks[j].payload == b.subrange(
                off + 8,
                off + 8 + le_u32_at(b, off + 4) as int,
            )
        },
{
    match parse_container(b) {
        Ok(c) => {
            let count = le_u32_at(b, 24) as int;
            lemma_parse_chunks_len(b, count as nat, 28);
            lemma_parse_chunks_index(b, count as nat, 28, j);
        },
        Err(_) => {},
    }
}

// --- executable decoder ---------------------------------------------------------
/// Copy `len` bytes starting at `start`.
fn read_bytes(b: &Vec<u8>, start: usize, len: usize) -> (r: Vec<u8>)
    requires
        start + len <= b@.len(),
    ensures
        r@ == b@.subrange(start as int, start as int + len as int),
{
    let n: usize = b.len();
    let mut out: Vec<u8> = Vec::new();
    let mut i: usize = 0;
    while i < len
        invariant
            start + len <= b@.len(),
            b@.len() <= usize::MAX,
            i <= len,
            out@ == b@.subrange(start as int, start as int + i as int),
        decreases len - i,
    {
        out.push(b[start + i]);
        proof {
            assert(out@ =~= b@.subrange(start as int, start as int + i as int + 1));
        }
        i = i + 1;
    }
    out
}

/// Decode one chunk through its directory word at `dirpos`.
fn decode_chunk(b: &Vec<u8>, dirpos: usize) -> (r: Result<DxbcChunk, DecodeError>)
    ensures
        match r {
            Ok(c) => chunk_at(b@, dirpos as int) == Ok::<ChunkView, DecodeError>(c@),
            Err(e) => chunk_at(b@, dirpos as int) == Err::<ChunkView, DecodeError>(e),
        },
{
    let mut dir_cur = Cursor { data: b, pos: dirpos };
    let off = match dir_cur.read_u32() {
        Ok(v) => v,
        Err(e) => {
            return Err(e);
        },
    };
    if off as usize > b.len() {
        return Err(DecodeError::OutOfBounds);
    }
    let mut cur = Cursor { data: b, pos: off as usize };
    let tag = match cur.read_u32() {
        Ok(v) => v,
        Err(_) => {
            return Err(DecodeError::UnexpectedEof);
        },
    };
    let len = match cur.read_u32() {
        Ok(v) => v,
        Err(_) => {
            return Err(DecodeError::UnexpectedEof);
        },
    };
    if len as usize > b.len() - (off as usize + 8) {
        return Err(DecodeError::UnexpectedEof);
    }
    let payload = read_bytes(b, off as usize + 8, len as usize);
    Ok(DxbcChunk { tag: tag, payload: payload })
}

/// Decode a whole container. The result is exactly the spec parse of the
/// buffer.
pub fn decode_container(b: &Vec<u8>) -> (r: Result<DxbcContainer, DecodeError>)
    ensures
        match r {
            Ok(c) => parse_container(b@) == Ok::<ContainerView, DecodeError>(c@),
            Err(e) => parse_container(b@) == Err::<ContainerView, DecodeError>(e),
        },
{
    let mut cur = Cursor::new(b);
    let magic = match cur.read_u32() {
        Ok(v) => v,
        Err(e) => {
            return Err(e);
        },
    };
    if magic != DXBC_MAGIC {
        return Err(DecodeError::InvalidMagic);
    }
    let mut checksum: Vec<u32> = Vec::new();
    let mut w: usize = 0;
    while w < 4
        invariant
            cur.data == b,
            b@.len() >= 4,
            le_u32_at(b@, 0) == DXBC_MAGIC,
            w <= 4,
            cur.pos == 4 + 4 * w,
            checksum@.len() == w,
            forall|j: int| 0 <= j < w ==> checksum@[j] == le_u32_at(b@, 4 + 4 * j),
        decreases 4 - w,
    {
        let v = match cur.read_u32() {
            Ok(v) => v,
            Err(e) => {
                return Err(e);
            },
        };
        checksum.push(v);
        w = w + 1;
    }
    let total_size = match cur.read_u32() {
        Ok(v) => v,
        Err(e) => {
            return Err(e);
        },
    };
    let count = match cur.read_u32() {
        Ok(v) => v,
        Err(e) => {
            return Err(e);
        },
    };
    if count as usize > (b.len() - 28) / 4 {
        return Err(DecodeError::UnexpectedEof);
    }
    proof {
        assert(28 + 4 * (count as int) <= b@.len());
    }
    let mut chunks: Vec<DxbcChunk> = Vec::new();
    let mut k: u32 = 0;
    while k < count
        invariant
            k <= count,
            b@.len() >= 28,
            b@.len() <= usize::MAX,
            le_u32_at(b@, 0) == DXBC_MAGIC,
            count == le_u32_at(b@, 24),
            total_size == le_u32_at(b@, 20),
            checksum@.len() == 4,
            forall|j: int| 0 <= j < 4 ==> checksum@[j] == le_u32_at(b@, 4 + 4 * j),
            28 + 4 * (count as int) <= b@.len(),
            chunks@.len() == k as int,
            parse_chunks(b@, count as nat, 28) == (match parse_chunks(
                b@,
                (count - k) as nat,
                28 + 4 * (k as int),
            ) {
                Ok(rest) => Ok::<Seq<ChunkView>, DecodeError>(
                    chunks@.map_values(|c: DxbcChunk| c@) + rest,
                ),
                Err(err) => Err::<Seq<ChunkView>, DecodeError>(err),
            }),
        decreases count - k,
    {
        let ghost pre = chunks@;
        let ghost dirpos = 28 + 4 * (k as int);
        let c = match decode_chunk(b, 28 + 4 * (k as usize)) {
            Ok(c) => c,
            Err(e) => {
                proof {
                    assert(parse_chunks(b@, (count - k) as nat, dirpos) == Err::<
                        Seq<ChunkView>,
                        DecodeError,
                    >(e));
                }
                return Err(e);
            },
        };
        proof {
            match parse_chunks(b@, (count - k - 1) as nat, dirpos + 4) {
                Ok(rest2) => {
                    assert(parse_chunks(b@, (count - k) as nat, dirpos) == Ok::<
                        Seq<ChunkView>,
                        DecodeError,
                    >(seq![c@] + rest2));
                    assert(pre.map_values(|x: DxbcChunk| x@) + (seq![c@] + rest2) =~= pre.push(
                        c,
                    ).map_values(|x: DxbcChunk| x@) + rest2);
                },
                Err(_) => {},
            }
        }
        chunks.push(c);
        k = k + 1;
    }
    proof {
        assert(parse_chunks(b@, (count - k) as nat, 28 + 4 * (k as int)) == Ok::<
            Seq<ChunkView>,
            DecodeError,
        >(Seq::empty()));
        assert(chunks@.map_values(|c: DxbcChunk| c@) + Seq::<ChunkView>::empty()
            =~= chunks@.map_values(|c: DxbcChunk| c@));
        assert(checksum@ =~= seq![
            le_u32_at(b@, 4),
            le_u32_at(b@, 8),
            le_u32_at(b@, 12),
            le_u32_at(b@, 16),
        ]);
    }
    Ok(DxbcContainer { checksum: checksum, total_size: total_size, chunks: chunks })
}

} // verus!
