//! The container builder: an append-only word buffer, the chunk encoders,
//! and the envelope assembly with checksum placement.

use vstd::prelude::*;

use crate::bytes::{
    lemma_words_to_bytes_push, to_bytes, to_words, word_bytes, words_to_bytes,
};
use crate::isgn::{
    enc_iosgn_payload, enc_name, name_offset, names_block, records_block, IOsgnChunk,
    SIG_RESERVED,
};
use crate::rdef::RdefChunk;
use crate::shex::{enc_instruction, enc_program, Instruction};
use crate::BuildError;

verus! {

/// The container magic, the ASCII bytes "DXBC" read as a little-endian
/// word.
pub const DXBC_MAGIC: u32 = 0x43425844;

/// The ISGN chunk tag as a little-endian word.
pub const ISGN_MAGIC: u32 = 0x4e475349;

/// The OSGN chunk tag as a little-endian word.
pub const OSGN_MAGIC: u32 = 0x4e47534f;

/// The RDEF chunk tag as a little-endian word.
pub const RDEF_MAGIC: u32 = 0x46454452;

/// The SHEX chunk tag as a little-endian word.
pub const SHEX_MAGIC: u32 = 0x58454853;

/// The words a checksum digest names. Relies on nothing but the bytes:
/// the digest is a function of its input alone.
pub uninterp spec fn digest_words(b: Seq<u8>) -> Seq<u32>;

/// Relies on md5::compute: the digest of the bytes, sixteen bytes read as
/// four little-endian words, a function of the input bytes alone.
#[verifier::external_body]
fn md5_digest(bytes: &Vec<u8>) -> (r: [u32; 4])
    ensures
        r@ == digest_words(bytes@),
{
    let d = md5::compute(bytes.as_slice());
    [
        u32::from_le_bytes([d.0[0], d.0[1], d.0[2], d.0[3]]),
        u32::from_le_bytes([d.0[4], d.0[5], d.0[6], d.0[7]]),
        u32::from_le_bytes([d.0[8], d.0[9], d.0[10], d.0[11]]),
        u32::from_le_bytes([d.0[12], d.0[13], d.0[14], d.0[15]]),
    ]
}

/// The buffer with its four checksum words cleared: the digest convention
/// of this builder computes the checksum over the buffer with those words
/// zero.
pub open spec fn zero_checksum(ws: Seq<u32>) -> Seq<u32> {
    Seq::new(
        ws.len(),
        |i: int|
            if 1 <= i < 5 {
                0u32
            } else {
                ws[i]
            },
    )
}

/// The stored checksum equals the digest of the buffer with the checksum
/// words cleared.
pub open spec fn checksum_verifies(ws: Seq<u32>) -> bool {
    ws.len() >= 5 && forall|i: int|
        0 <= i < 4 ==> ws[1 + i] == digest_words(words_to_bytes(zero_checksum(ws)))[i]
}

/// Recompute the checksum of a finished buffer and compare it with the
/// stored field.
pub fn verify_checksum(m: &DxbcModule) -> (r: bool)
    ensures
        r == checksum_verifies(m.dwords@),
{
    if m.dwords.len() < 5 {
        return false;
    }
    let mut zs: Vec<u32> = Vec::new();
    let mut i: usize = 0;
    while i < m.dwords.len()
        invariant
            i <= m.dwords@.len(),
            zs@.len() == i,
            forall|j: int|
                0 <= j < i ==> zs@[j] == (if 1 <= j < 5 {
                    0u32
                } else {
                    m.dwords@[j]
                }),
        decreases m.dwords@.len() - i,
    {
        if 1 <= i && i < 5 {
            zs.push(0);
        } else {
            zs.push(m.dwords[i]);
        }
        i = i + 1;
    }
    proof {
        assert(zs@ =~= zero_checksum(m.dwords@));
    }
    let bytes = to_bytes(&zs);
    let d = md5_digest(&bytes);
    let ok = m.dwords[1] == d[0] && m.dwords[2] == d[1] && m.dwords[3] == d[2] && m.dwords[4]
        == d[3];
    proof {
        assert(words_to_bytes(zero_checksum(m.dwords@)) =~= bytes@);
        if ok {
            assert forall|j: int| 0 <= j < 4 implies m.dwords@[1 + j] == digest_words(
                words_to_bytes(zero_checksum(m.dwords@)),
            )[j] by {
                assert(d@[j] == digest_words(bytes@)[j]);
            }
        } else {
            assert(!checksum_verifies(m.dwords@));
        }
    }
    ok
}

/// An append-only buffer of 32-bit words being assembled into a container.
pub struct DxbcModule {
    pub dwords: Vec<u32>,
}

impl DxbcModule {
    /// An empty module buffer.
    pub fn new() -> (r: DxbcModule)
        ensures
            r.dwords@ == Seq::<u32>::empty(),
    {
        DxbcModule { dwords: Vec::new() }
    }

    /// The current write position, in words.
    pub fn position(&self) -> (r: usize)
        ensures
            r == self.dwords@.len(),
    {
        self.dwords.len()
    }

    /// Append one word.
    pub fn write_u32(&mut self, val: u32)
        ensures
            final(self).dwords@ == old(self).dwords@.push(val),
    {
        self.dwords.push(val);
    }

    /// Overwrite the word at `offset`, a hole reserved earlier.
    pub fn set_u32(&mut self, offset: usize, val: u32)
        requires
            offset < old(self).dwords@.len(),
        ensures
            final(self).dwords@ == old(self).dwords@.update(offset as int, val),
    {
        self.dwords.set(offset, val);
    }

    /// Overwrite the words from `offset` to the end with `val`, whose
    /// length must match the tail exactly.
    pub fn set_u32_slice(&mut self, offset: usize, val: &Vec<u32>)
        requires
            offset + val@.len() == old(self).dwords@.len(),
        ensures
            final(self).dwords@ == old(self).dwords@.subrange(0, offset as int) + val@,
    {
        let len_now: usize = self.dwords.len();
        proof {
            assert(len_now == self.dwords@.len());
        }
        let mut i: usize = 0;
        while i < val.len()
            invariant
                offset + val@.len() == self.dwords@.len(),
                self.dwords@.len() <= usize::MAX,
                i <= val@.len(),
                self.dwords@.subrange(0, offset as int) == old(self).dwords@.subrange(
                    0,
                    offset as int,
                ),
                forall|j: int| 0 <= j < i ==> self.dwords@[offset + j] == val@[j],
                forall|j: int|
                    offset + i <= j < self.dwords@.len() ==> self.dwords@[j] == old(
                        self,
                    ).dwords@[j],
            decreases val@.len() - i,
        {
            let ghost pre = self.dwords@;
            self.dwords.set(offset + i, val[i]);
            proof {
                assert(self.dwords@.subrange(0, offset as int) =~= pre.subrange(0, offset as int));
            }
            i = i + 1;
        }
        proof {
            assert(final(self).dwords@ =~= old(self).dwords@.subrange(0, offset as int) + val@);
        }
    }

    /// Append a name packed four bytes to a little-endian word, with an
    /// all-zero terminator word exactly when the name length is already a
    /// multiple of four. Returns the byte length written.
    pub fn write_str(&mut self, text: &Vec<u8>) -> (r: u32)
        requires
            text@.len() + 4 <= 0xffffffff,
        ensures
            final(self).dwords@.len() > old(self).dwords@.len(),
            words_to_bytes(
                final(self).dwords@.subrange(
                    old(self).dwords@.len() as int,
                    final(self).dwords@.len() as int,
                ),
            ) == enc_name(text@),
            final(self).dwords@.subrange(0, old(self).dwords@.len() as int) == old(self).dwords@,
            r == enc_name(text@).len(),
    {
        let ghost base = self.dwords@;
        let mut padded: Vec<u8> = Vec::new();
        let mut i: usize = 0;
        while i < text.len()
            invariant
                i <= text@.len(),
                padded@ == text@.subrange(0, i as int),
            decreases text@.len() - i,
        {
            padded.push(text[i]);
            proof {
                assert(padded@ =~= text@.subrange(0, i + 1 as int));
            }
            i = i + 1;
        }
        proof {
            assert(padded@ =~= text@);
        }
        let rem: usize = text.len() % 4;
        let pad: usize = if rem == 0 {
            4
        } else {
            4 - rem
        };
        let mut p: usize = 0;
        while p < pad
            invariant
                p <= pad,
                padded@ == text@ + Seq::new(p as nat, |j: int| 0u8),
            decreases pad - p,
        {
            padded.push(0);
            proof {
                assert(padded@ =~= text@ + Seq::new((p + 1) as nat, |j: int| 0u8));
            }
            p = p + 1;
        }
        proof {
            assert(padded@ =~= enc_name(text@));
            assert(padded@.len() % 4 == 0);
        }
        let ws = to_words(&padded);
        let mut k: usize = 0;
        while k < ws.len()
            invariant
                k <= ws@.len(),
                self.dwords@.len() == base.len() + k,
                self.dwords@.subrange(0, base.len() as int) == base,
                self.dwords@.subrange(base.len() as int, self.dwords@.len() as int)
                    == ws@.subrange(0, k as int),
            decreases ws@.len() - k,
        {
            let ghost pre = self.dwords@;
            self.dwords.push(ws[k]);
            proof {
                assert(self.dwords@.subrange(0, base.len() as int) =~= base);
                assert(self.dwords@.subrange(base.len() as int, self.dwords@.len() as int)
                    =~= ws@.subrange(0, k + 1 as int));
            }
            k = k + 1;
        }
        proof {
            assert(ws@.subrange(0, ws@.len() as int) =~= ws@);
            assert(words_to_bytes(
                self.dwords@.subrange(base.len() as int, self.dwords@.len() as int),
            ) =~= enc_name(text@));
            assert(ws@.len() > 0) by {
                crate::bytes::lemma_words_to_bytes_len(ws@);
            }
        }
        (4 * ws.len()) as u32
    }

    /// Append a whole signature chunk: its tag, its byte length, and its
    /// payload. Fails, leaving the buffer unchanged, when the payload
    /// would not fit the format's 32-bit offsets.
    pub fn write_iosgn(&mut self, chunk: &IOsgnChunk, magic: u32) -> (r: Result<(), BuildError>)
        ensures
            r is Ok <==> crate::isgn::iosgn_fits(chunk@),
            r is Ok ==> final(self).dwords@.len() > old(self).dwords@.len() + 2 && final(self).dwords@.subrange(0, old(self).dwords@.len() as int) == old(self).dwords@ && final(self).dwords@[old(self).dwords@.len() as int] == magic && words_to_bytes(
                final(self).dwords@.subrange(
                    old(self).dwords@.len() as int + 2,
                    final(self).dwords@.len() as int,
                ),
            ) == enc_iosgn_payload(chunk@) && final(self).dwords@[old(self).dwords@.len() as int + 1]
                == enc_iosgn_payload(chunk@).len() as u32,
            r is Err ==> *final(self) == *old(self),
    {
        let payload = match encode_iosgn_payload_words(chunk) {
            Ok(ws) => ws,
            Err(e) => {
                return Err(e);
            },
        };
        proof {
            crate::bytes::lemma_words_to_bytes_len(payload@);
        }
        let ghost base = self.dwords@;
        self.dwords.push(magic);
        self.dwords.push((4 * payload.len()) as u32);
        let mut k: usize = 0;
        while k < payload.len()
            invariant
                k <= payload@.len(),
                self.dwords@.len() == base.len() + 2 + k,
                self.dwords@.subrange(0, base.len() as int) == base,
                self.dwords@[base.len() as int] == magic,
                self.dwords@[base.len() as int + 1] == (4 * payload@.len()) as u32,
                self.dwords@.subrange(base.len() as int + 2, self.dwords@.len() as int)
                    == payload@.subrange(0, k as int),
            decreases payload@.len() - k,
        {
            let ghost pre = self.dwords@;
            self.dwords.push(payload[k]);
            proof {
                assert(self.dwords@.subrange(0, base.len() as int) =~= base);
                assert(self.dwords@.subrange(base.len() as int + 2, self.dwords@.len() as int)
                    =~= payload@.subrange(0, k + 1 as int));
            }
            k = k + 1;
        }
        proof {
            assert(payload@.subrange(0, payload@.len() as int) =~= payload@);
            crate::bytes::lemma_words_to_bytes_len(payload@);
        }
        Ok(())
    }

    /// Append an input-signature chunk.
    pub fn write_isgn(&mut self, chunk: &IOsgnChunk) -> (r: Result<(), BuildError>)
        ensures
            r is Ok <==> crate::isgn::iosgn_fits(chunk@),
            r is Ok ==> final(self).dwords@.len() > old(self).dwords@.len() + 2 && final(self).dwords@.subrange(0, old(self).dwords@.len() as int) == old(self).dwords@ && final(self).dwords@[old(self).dwords@.len() as int] == ISGN_MAGIC && words_to_bytes(
                final(self).dwords@.subrange(
                    old(self).dwords@.len() as int + 2,
                    final(self).dwords@.len() as int,
                ),
            ) == enc_iosgn_payload(chunk@) && final(self).dwords@[old(self).dwords@.len() as int
                + 1] == enc_iosgn_payload(chunk@).len() as u32,
            r is Err ==> *final(self) == *old(self),
    {
        self.write_iosgn(chunk, ISGN_MAGIC)
    }

    /// Append an output-signature chunk.
    pub fn write_osgn(&mut self, chunk: &IOsgnChunk) -> (r: Result<(), BuildError>)
        ensures
            r is Ok <==> crate::isgn::iosgn_fits(chunk@),
            r is Ok ==> final(self).dwords@.len() > old(self).dwords@.len() + 2 && final(self).dwords@.subrange(0, old(self).dwords@.len() as int) == old(self).dwords@ && final(self).dwords@[old(self).dwords@.len() as int] == OSGN_MAGIC && words_to_bytes(
                final(self).dwords@.subrange(
                    old(self).dwords@.len() as int + 2,
                    final(self).dwords@.len() as int,
                ),
            ) == enc_iosgn_payload(chunk@) && final(self).dwords@[old(self).dwords@.len() as int
                + 1] == enc_iosgn_payload(chunk@).len() as u32,
            r is Err ==> *final(self) == *old(self),
    {
        self.write_iosgn(chunk, OSGN_MAGIC)
    }

    /// The little-endian byte image of the buffer.
    pub fn as_bytes(&self) -> (r: Vec<u8>)
        ensures
            r@ == words_to_bytes(self.dwords@),
    {
        to_bytes(&self.dwords)
    }
}

/// Encode a signature payload as words: the element count, the reserved
/// word, the six-word records with their name offsets, then the packed
/// names. Fails exactly when the signature does not fit the format's
/// 32-bit fields.
pub fn encode_iosgn_payload_words(chunk: &IOsgnChunk) -> (r: Result<Vec<u32>, BuildError>)
    ensures
        r matches Ok(ws) ==> words_to_bytes(ws@) == enc_iosgn_payload(chunk@) && ws@.len()
            <= 0x3fffffff && 4 * ws@.len() == enc_iosgn_payload(chunk@).len(),
        r is Ok <==> crate::isgn::iosgn_fits(chunk@),
{
    let ghost ev = chunk@;
    let es = &chunk.elements;
    let n = es.len();
    proof {
        assert(ev.len() == n) by {
            assert(ev.len() == es@.map_values(|e: crate::isgn::InputOutputElement| e@).len());
        }
    }
    if n > 0xffffff {
        return Err(BuildError::TooLarge);
    }
    let mut ws: Vec<u32> = Vec::new();
    ws.push(n as u32);
    ws.push(SIG_RESERVED);
    proof {
        assert(ev.len() == n) by {
            assert(ev.len() == es@.map_values(|e: crate::isgn::InputOutputElement| e@).len());
        }
        lemma_words_to_bytes_push(seq![n as u32], SIG_RESERVED);
        lemma_words_to_bytes_push(Seq::<u32>::empty(), n as u32);
        assert(words_to_bytes(Seq::<u32>::empty()) =~= Seq::<u8>::empty());
        assert(Seq::<u32>::empty().push(n as u32) =~= seq![n as u32]);
        assert(seq![n as u32].push(SIG_RESERVED) =~= ws@);
        assert(words_to_bytes(ws@) =~= word_bytes(n as u32) + word_bytes(SIG_RESERVED)
            + records_block(ev, 0));
    }
    let mut next_off: usize = 8 + 24 * n;
    let mut k: usize = 0;
    while k < n
        invariant
            k <= n,
            n <= 0xffffff,
            n == ev.len(),
            n == es@.len(),
            ev == chunk@,
            ev == es@.map_values(|e: crate::isgn::InputOutputElement| e@),
            next_off == name_offset(ev, k as int),
            next_off <= 0xfffffff0,
            words_to_bytes(ws@) =~= word_bytes(n as u32) + word_bytes(SIG_RESERVED)
                + records_block(ev, k as int),
        decreases n - k,
    {
        let e = &es[k];
        if e.name.len() > 0xfffffff0 - next_off {
            proof {
                assert(ev[k as int] == es@[k as int]@);
                crate::isgn::lemma_enc_iosgn_payload_len(ev);
                crate::isgn::lemma_names_block_mono(ev, k + 1, n as int);
                assert(names_block(ev, k + 1 as int) =~= names_block(ev, k as int) + enc_name(
                    ev[k as int].name,
                ));
                assert(enc_name(ev[k as int].name).len() >= ev[k as int].name.len());
                assert(name_offset(ev, k + 1) > 0xfffffff0);
                assert(enc_iosgn_payload(ev).len() > 0xfffffff0);
            }
            return Err(BuildError::TooLarge);
        }
        let ghost pre = ws@;
        ws.push(next_off as u32);
        ws.push(e.semantic_index);
        ws.push(e.semantic_type);
        ws.push(e.component_type);
        ws.push(e.register);
        ws.push((e.component_mask as u32) | ((e.rw_mask as u32) << 8));
        proof {
            lemma_words_to_bytes_push(pre, next_off as u32);
            lemma_words_to_bytes_push(pre.push(next_off as u32), ev[k as int].semantic_index);
            lemma_words_to_bytes_push(
                pre.push(next_off as u32).push(ev[k as int].semantic_index),
                ev[k as int].semantic_type,
            );
            lemma_words_to_bytes_push(
                pre.push(next_off as u32).push(ev[k as int].semantic_index).push(
                    ev[k as int].semantic_type,
                ),
                ev[k as int].component_type,
            );
            lemma_words_to_bytes_push(
                pre.push(next_off as u32).push(ev[k as int].semantic_index).push(
                    ev[k as int].semantic_type,
                ).push(ev[k as int].component_type),
                ev[k as int].register,
            );
            lemma_words_to_bytes_push(
                pre.push(next_off as u32).push(ev[k as int].semantic_index).push(
                    ev[k as int].semantic_type,
                ).push(ev[k as int].component_type).push(ev[k as int].register),
                crate::isgn::mask_word(ev[k as int]),
            );
            assert(ws@ =~= pre.push(next_off as u32).push(ev[k as int].semantic_index).push(
                ev[k as int].semantic_type,
            ).push(ev[k as int].component_type).push(ev[k as int].register).push(
                crate::isgn::mask_word(ev[k as int]),
            ));
            assert(words_to_bytes(ws@) =~= word_bytes(n as u32) + word_bytes(SIG_RESERVED)
                + records_block(ev, k + 1 as int));
        }
        let rem: usize = e.name.len() % 4;
        let pad: usize = if rem == 0 {
            4
        } else {
            4 - rem
        };
        next_off = next_off + e.name.len() + pad;
        proof {
            assert(enc_name(ev[k as int].name).len() == ev[k as int].name.len()
                + crate::isgn::pad_len(ev[k as int].name.len()));
            assert(names_block(ev, k + 1 as int) =~= names_block(ev, k as int) + enc_name(
                ev[k as int].name,
            ));
        }
        if next_off > 0xfffffff0 {
            proof {
                crate::isgn::lemma_enc_iosgn_payload_len(ev);
                crate::isgn::lemma_names_block_mono(ev, k + 1, n as int);
                assert(enc_iosgn_payload(ev).len() > 0xfffffff0);
            }
            return Err(BuildError::TooLarge);
        }
        k = k + 1;
    }
    proof {
        crate::isgn::lemma_enc_iosgn_payload_len(ev);
    }
    // second pass: the string table, each name at its recorded offset
    let mut k2: usize = 0;
    while k2 < n
        invariant
            k2 <= n,
            n == ev.len(),
            n == es@.len(),
            ev == es@.map_values(|e: crate::isgn::InputOutputElement| e@),
            words_to_bytes(ws@) =~= word_bytes(n as u32) + word_bytes(SIG_RESERVED)
                + records_block(ev, n as int) + names_block(ev, k2 as int),
        decreases n - k2,
    {
        let e = &es[k2];
        let ghost pre = ws@;
        let mut padded: Vec<u8> = Vec::new();
        let mut i: usize = 0;
        while i < e.name.len()
            invariant
                i <= e.name@.len(),
                padded@ == e.name@.subrange(0, i as int),
            decreases e.name@.len() - i,
        {
            padded.push(e.name[i]);
            proof {
                assert(padded@ =~= e.name@.subrange(0, i + 1 as int));
            }
            i = i + 1;
        }
        proof {
            assert(padded@ =~= e.name@);
        }
        let rem: usize = e.name.len() % 4;
        let pad: usize = if rem == 0 {
            4
        } else {
            4 - rem
        };
        let mut p: usize = 0;
        while p < pad
            invariant
                p <= pad,
                padded@ == e.name@ + Seq::new(p as nat, |j: int| 0u8),
            decreases pad - p,
        {
            padded.push(0);
            proof {
                assert(padded@ =~= e.name@ + Seq::new((p + 1) as nat, |j: int| 0u8));
            }
            p = p + 1;
        }
        proof {
            assert(padded@ =~= enc_name(ev[k2 as int].name));
            assert(padded@.len() % 4 == 0);
        }
        let nws = to_words(&padded);
        let mut q: usize = 0;
        while q < nws.len()
            invariant
                q <= nws@.len(),
                ws@ == pre + nws@.subrange(0, q as int),
            decreases nws@.len() - q,
        {
            ws.push(nws[q]);
            proof {
                assert(pre + nws@.subrange(0, q + 1 as int) =~= (pre + nws@.subrange(
                    0,
                    q as int,
                )).push(nws@[q as int]));
            }
            q = q + 1;
        }
        proof {
            assert(nws@.subrange(0, nws@.len() as int) =~= nws@);
            assert(ws@ =~= pre + nws@);
            crate::bytes::lemma_words_to_bytes_concat(pre, nws@);
            assert(names_block(ev, k2 + 1 as int) =~= names_block(ev, k2 as int) + enc_name(
                ev[k2 as int].name,
            ));
            assert(words_to_bytes(ws@) =~= word_bytes(n as u32) + word_bytes(SIG_RESERVED)
                + records_block(ev, n as int) + names_block(ev, k2 + 1 as int));
        }
        k2 = k2 + 1;
    }
    proof {
        assert(words_to_bytes(ws@) =~= enc_iosgn_payload(ev));
        crate::bytes::lemma_words_to_bytes_len(ws@);
    }
    Ok(ws)
}

/// A tokenized-program chunk being assembled: the shader version and the
/// instruction list.
#[derive(Debug, PartialEq, Eq)]
pub struct ShexChunk {
    pub major: u8,
    pub minor: u8,
    pub program_type: u16,
    pub instructions: Vec<Instruction>,
}

impl ShexChunk {
    /// An empty pixel-shader program chunk.
    pub fn new() -> (r: ShexChunk)
        ensures
            r.instructions@ == Seq::<Instruction>::empty(),
    {
        ShexChunk { major: 5, minor: 0, program_type: 0, instructions: Vec::new() }
    }

    /// Append one instruction in stream order.
    pub fn add_instruction(&mut self, i: Instruction)
        ensures
            final(self).instructions@ == old(self).instructions@.push(i),
            final(self).major == old(self).major,
            final(self).minor == old(self).minor,
            final(self).program_type == old(self).program_type,
    {
        self.instructions.push(i);
    }
}

/// Accumulates the chunks of a container and assembles the final module.
pub struct Builder {
    pub rdef: Option<RdefChunk>,
    pub isgn: Option<IOsgnChunk>,
    pub osgn: Option<IOsgnChunk>,
    pub shex: Option<ShexChunk>,
}

impl Builder {
    /// A builder with no chunks.
    pub fn new() -> (r: Builder)
        ensures
            r.rdef is None,
            r.isgn is None,
            r.osgn is None,
            r.shex is None,
    {
        Builder { rdef: None, isgn: None, osgn: None, shex: None }
    }

    /// Set the resource-definition chunk.
    pub fn set_rdef(&mut self, rdef: RdefChunk)
        ensures
            final(self).rdef == Some(rdef),
            final(self).isgn == old(self).isgn,
            final(self).osgn == old(self).osgn,
            final(self).shex == old(self).shex,
    {
        self.rdef = Some(rdef);
    }

    /// Set the input-signature chunk.
    pub fn set_isgn(&mut self, isgn: IOsgnChunk)
        ensures
            final(self).isgn == Some(isgn),
            final(self).rdef == old(self).rdef,
            final(self).osgn == old(self).osgn,
            final(self).shex == old(self).shex,
    {
        self.isgn = Some(isgn);
    }

    /// Set the output-signature chunk.
    pub fn set_osgn(&mut self, osgn: IOsgnChunk)
        ensures
            final(self).osgn == Some(osgn),
            final(self).rdef == old(self).rdef,
            final(self).isgn == old(self).isgn,
            final(self).shex == old(self).shex,
    {
        self.osgn = Some(osgn);
    }

    /// Set the tokenized-program chunk.
    pub fn set_shex(&mut self, shex: ShexChunk)
        ensures
            final(self).shex == Some(shex),
            final(self).rdef == old(self).rdef,
            final(self).isgn == old(self).isgn,
            final(self).osgn == old(self).osgn,
    {
        self.shex = Some(shex);
    }

    /// Choose the shader profile. The envelope carries no profile of its
    /// own; the version fields of the chunks already fix it, so there is
    /// nothing to record.
    pub fn set_profile(&mut self)
        ensures
            *final(self) == *old(self),
    {
    }

    /// Assemble the container: magic, checksum, total size, chunk count,
    /// directory, the present chunks in the fixed order RDEF, ISGN, OSGN,
    /// SHEX, and finally the digest over the completed buffer patched into
    /// the reserved words. The checksum is computed with its own four
    /// words held at zero; the verify step uses the same convention, so
    /// the finished buffer always passes `verify_checksum`. The build
    /// fails exactly when a chunk exceeds its format limits or the module
    /// exceeds the size-word range.
    #[verifier::rlimit(100)]
    #[verifier::spinoff_prover]
    pub fn module(&self) -> (r: Result<DxbcModule, BuildError>)
        ensures
            r is Ok <==> module_fits(*self),
            r matches Ok(m) ==> m.dwords@ == with_checksum(
                enc_container_words(
                    rdef_words_of(*self),
                    isgn_words_of(*self),
                    osgn_words_of(*self),
                    shex_words_of(*self),
                ),
            ),
            r matches Ok(m) ==> m.dwords@.len() >= 7 && m.dwords@[0] == DXBC_MAGIC && m.dwords@[5]
                == (m.dwords@.len() - 5) as u32 && m.dwords@[6] as int == opt_count(
                rdef_words_of(*self),
            ) + opt_count(isgn_words_of(*self)) + opt_count(osgn_words_of(*self)) + opt_count(
                shex_words_of(*self),
            ) && checksum_verifies(m.dwords@),
    {
        let ghost gpr = rdef_words_of(*self);
        let ghost gpi = isgn_words_of(*self);
        let ghost gpo = osgn_words_of(*self);
        let ghost gps = shex_words_of(*self);
        // encode each present chunk's payload
        let p_rdef: Option<Vec<u32>> = match prep_rdef(&self.rdef) {
            Ok(p) => p,
            Err(e) => {
                return Err(e);
            },
        };
        let p_isgn: Option<Vec<u32>> = match prep_iosgn(&self.isgn) {
            Ok(p) => p,
            Err(e) => {
                return Err(e);
            },
        };
        let p_osgn: Option<Vec<u32>> = match prep_iosgn(&self.osgn) {
            Ok(p) => p,
            Err(e) => {
                return Err(e);
            },
        };
        let p_shex: Option<Vec<u32>> = match prep_shex(&self.shex) {
            Ok(p) => p,
            Err(e) => {
                return Err(e);
            },
        };
        proof {
            assert(gpr == opt_view(p_rdef));
            assert(gpi == opt_view(p_isgn));
            assert(gpo == opt_view(p_osgn));
            assert(gps == opt_view(p_shex));
        }
        // chunk count and total size
        let nc: usize = opt_count_of(&p_rdef) + opt_count_of(&p_isgn) + opt_count_of(&p_osgn)
            + opt_count_of(&p_shex);
        let l_r: usize = opt_len_of(&p_rdef);
        let l_i: usize = opt_len_of(&p_isgn);
        let l_o: usize = opt_len_of(&p_osgn);
        let l_s: usize = opt_len_of(&p_shex);
        let total64: u64 = 7 + nc as u64 + l_r as u64 + l_i as u64 + l_o as u64 + l_s as u64;
        proof {
            assert(total64 as int == container_total(gpr, gpi, gpo, gps));
        }
        if total64 > 0x0fffffff {
            return Err(BuildError::TooLarge);
        }
        let m = assemble_container(&p_rdef, &p_isgn, &p_osgn, &p_shex, nc, l_r, l_i, l_o);
        proof {
            assert(gpr == opt_view(p_rdef) && gpi == opt_view(p_isgn) && gpo == opt_view(p_osgn)
                && gps == opt_view(p_shex));
        }
        Ok(m)
    }
}

/// The payload view of an optional chunk.
pub open spec fn opt_view(p: Option<Vec<u32>>) -> Option<Seq<u32>> {
    match p {
        Some(v) => Some(v@),
        None => None,
    }
}

/// Encode the payload words of a resource-definition chunk. Fails exactly
/// when the author string exceeds its stated bound.
fn encode_rdef_payload_words(rdef: &RdefChunk) -> (r: Result<Vec<u32>, BuildError>)
    ensures
        r is Ok <==> rdef.author@.len() <= 0xffff0000,
        r matches Ok(ws) ==> ws@ == rdef_payload_words(*rdef),
{
    if rdef.author.len() > 0xffff0000 {
        return Err(BuildError::TooLarge);
    }
    let mut md = DxbcModule::new();
    md.write_u32(rdef.constant_buffer_count);
    md.write_u32(28);
    md.write_u32(rdef.resource_binding_count);
    md.write_u32(28);
    md.write_u32(rdef.version_token());
    md.write_u32(rdef.flags);
    md.write_u32(28);
    let ghost seven = md.dwords@;
    let _ = md.write_str(&rdef.author);
    proof {
        let appended = md.dwords@.subrange(7, md.dwords@.len() as int);
        lemma_bytes_to_words_of(appended, enc_name(rdef.author@));
        assert(md.dwords@ =~= seven + appended);
        assert(seven =~= rdef_payload_words(*rdef).subrange(0, 7));
        assert(md.dwords@ =~= rdef_payload_words(*rdef));
    }
    Ok(md.dwords)
}

/// Encode the payload words of a tokenized-program chunk. Fails exactly
/// when an instruction cannot be encoded or the payload exceeds the size
/// bound.
fn encode_shex_payload_words(shex: &ShexChunk) -> (r: Result<Vec<u32>, BuildError>)
    ensures
        r is Ok <==> shex_fits(*shex),
        r matches Ok(ws) ==> ws@ == shex_payload_words(*shex),
{
    let mut ws: Vec<u32> = Vec::new();
    let ver: u32 = ((shex.minor as u32) & 0xf) | (((shex.major as u32) & 0xf) << 4) | ((
    shex.program_type as u32) << 16);
    ws.push(ver);
    ws.push(0);
    match crate::shex::encode_program(&mut ws, &shex.instructions) {
        Ok(()) => {},
        Err(e) => {
            return Err(e);
        },
    }
    if ws.len() > 0x0fffffff {
        return Err(BuildError::TooLarge);
    }
    let total_dwords: u32 = ws.len() as u32;
    ws.set(1, total_dwords);
    proof {
        assert(ws@ =~= shex_payload_words(*shex));
    }
    Ok(ws)
}

/// Prepare the optional resource-definition payload.
fn prep_rdef(o: &Option<RdefChunk>) -> (r: Result<Option<Vec<u32>>, BuildError>)
    ensures
        r is Ok <==> (o matches Some(c) ==> c.author@.len() <= 0xffff0000),
        r matches Ok(p) ==> opt_view(p) == (match o {
            Some(c) => Some(rdef_payload_words(*c)),
            None => None,
        }) && (p matches Some(v) ==> v@.len() <= 0x3fffffff),
{
    match o {
        Some(c) => match encode_rdef_payload_words(c) {
            Ok(ws) => {
                proof {
                    assert(ws@.len() <= 0x3fffffff) by {
                        crate::bytes::lemma_words_to_bytes_len(
                            bytes_to_words(enc_name(c.author@)),
                        );
                    }
                }
                Ok(Some(ws))
            },
            Err(e) => Err(e),
        },
        None => Ok(None),
    }
}

/// Prepare an optional signature payload.
fn prep_iosgn(o: &Option<IOsgnChunk>) -> (r: Result<Option<Vec<u32>>, BuildError>)
    ensures
        r is Ok <==> (o matches Some(c) ==> crate::isgn::iosgn_fits(c@)),
        r matches Ok(p) ==> opt_view(p) == (match o {
            Some(c) => Some(bytes_to_words(enc_iosgn_payload(c@))),
            None => None,
        }) && (p matches Some(v) ==> v@.len() <= 0x3fffffff),
{
    match o {
        Some(c) => match encode_iosgn_payload_words(c) {
            Ok(ws) => {
                proof {
                    lemma_bytes_to_words_of(ws@, enc_iosgn_payload(c@));
                }
                Ok(Some(ws))
            },
            Err(e) => Err(e),
        },
        None => Ok(None),
    }
}

/// Prepare the optional tokenized-program payload.
fn prep_shex(o: &Option<ShexChunk>) -> (r: Result<Option<Vec<u32>>, BuildError>)
    ensures
        r is Ok <==> (o matches Some(c) ==> shex_fits(*c)),
        r matches Ok(p) ==> opt_view(p) == (match o {
            Some(c) => Some(shex_payload_words(*c)),
            None => None,
        }) && (p matches Some(v) ==> v@.len() <= 0x3fffffff),
{
    match o {
        Some(c) => match encode_shex_payload_words(c) {
            Ok(ws) => Ok(Some(ws)),
            Err(e) => Err(e),
        },
        None => Ok(None),
    }
}

/// One for a present payload, zero for an absent one.
fn opt_count_of(p: &Option<Vec<u32>>) -> (r: usize)
    ensures
        r as int == opt_count(opt_view(*p)),
        r <= 1,
{
    match p {
        Some(_) => 1,
        None => 0,
    }
}

/// The words an optional chunk occupies in the container.
fn opt_len_of(p: &Option<Vec<u32>>) -> (r: usize)
    requires
        p matches Some(v) ==> v@.len() <= 0x3fffffff,
    ensures
        r as int == opt_len(opt_view(*p)),
        r <= 0x3fffffff + 2,
{
    match p {
        Some(v) => 2 + v.len(),
        None => 0,
    }
}

/// Append the directory entry of an optional chunk.
fn write_dir_entry(m: &mut DxbcModule, p: &Option<Vec<u32>>, start: usize)
    requires
        start <= 0x0fffffff,
    ensures
        final(m).dwords@ == old(m).dwords@ + opt_dir(opt_view(*p), start as int),
{
    match p {
        Some(_) => {
            m.write_u32((4 * start) as u32);
            proof {
                assert(final(m).dwords@ =~= old(m).dwords@ + opt_dir(
                    opt_view(*p),
                    start as int,
                ));
            }
        },
        None => {
            proof {
                assert(final(m).dwords@ =~= old(m).dwords@ + opt_dir(
                    opt_view(*p),
                    start as int,
                ));
            }
        },
    }
}

/// Append an optional chunk: its tag, byte length, and payload.
fn write_opt_chunk(m: &mut DxbcModule, tag: u32, p: &Option<Vec<u32>>)
    requires
        p matches Some(v) ==> v@.len() <= 0x3fffffff,
    ensures
        final(m).dwords@ == old(m).dwords@ + opt_chunk(tag, opt_view(*p)),
{
    match p {
        Some(v) => {
            write_chunk(m, tag, v);
            proof {
                assert(final(m).dwords@ =~= old(m).dwords@ + opt_chunk(tag, opt_view(*p)));
            }
        },
        None => {
            proof {
                assert(final(m).dwords@ =~= old(m).dwords@ + opt_chunk(tag, opt_view(*p)));
            }
        },
    }
}

/// Patch the checksum: the digest over the buffer, whose checksum words
/// are zero, placed into words one to four.
fn patch_checksum(m: &mut DxbcModule)
    requires
        old(m).dwords@.len() >= 7,
        old(m).dwords@[1] == 0,
        old(m).dwords@[2] == 0,
        old(m).dwords@[3] == 0,
        old(m).dwords@[4] == 0,
    ensures
        final(m).dwords@ == with_checksum(old(m).dwords@),
        final(m).dwords@.len() == old(m).dwords@.len(),
        final(m).dwords@[0] == old(m).dwords@[0],
        final(m).dwords@[5] == old(m).dwords@[5],
        final(m).dwords@[6] == old(m).dwords@[6],
        checksum_verifies(final(m).dwords@),
{
    let ghost pre_patch = m.dwords@;
    let bytes0 = m.as_bytes();
    let d = md5_digest(&bytes0);
    m.set_u32(1, d[0]);
    m.set_u32(2, d[1]);
    m.set_u32(3, d[2]);
    m.set_u32(4, d[3]);
    proof {
        reveal(with_checksum);
        assert(m.dwords@ == with_checksum(pre_patch));
        assert(zero_checksum(m.dwords@) =~= pre_patch);
        assert(words_to_bytes(zero_checksum(m.dwords@)) =~= bytes0@);
        assert forall|j: int| 0 <= j < 4 implies m.dwords@[1 + j] == digest_words(
            words_to_bytes(zero_checksum(m.dwords@)),
        )[j] by {
            assert(d@[j] == digest_words(bytes0@)[j]);
        }
    }
}

/// Assemble the container words from the encoded payloads: header,
/// directory, chunks, and the patched checksum. The caller has already
/// checked the size bound, so assembly cannot fail.
#[verifier::rlimit(100)]
#[verifier::spinoff_prover]
fn assemble_container(
    p_rdef: &Option<Vec<u32>>,
    p_isgn: &Option<Vec<u32>>,
    p_osgn: &Option<Vec<u32>>,
    p_shex: &Option<Vec<u32>>,
    nc: usize,
    l_r: usize,
    l_i: usize,
    l_o: usize,
) -> (m: DxbcModule)
    requires
        container_total(opt_view(*p_rdef), opt_view(*p_isgn), opt_view(*p_osgn), opt_view(*p_shex))
            <= 0x0fffffff,
        p_rdef matches Some(v) ==> v@.len() <= 0x3fffffff,
        p_isgn matches Some(v) ==> v@.len() <= 0x3fffffff,
        p_osgn matches Some(v) ==> v@.len() <= 0x3fffffff,
        p_shex matches Some(v) ==> v@.len() <= 0x3fffffff,
        nc as int == opt_count(opt_view(*p_rdef)) + opt_count(opt_view(*p_isgn)) + opt_count(
            opt_view(*p_osgn),
        ) + opt_count(opt_view(*p_shex)),
        l_r as int == opt_len(opt_view(*p_rdef)),
        l_i as int == opt_len(opt_view(*p_isgn)),
        l_o as int == opt_len(opt_view(*p_osgn)),
    ensures
        m.dwords@ == with_checksum(
            enc_container_words(
                opt_view(*p_rdef),
                opt_view(*p_isgn),
                opt_view(*p_osgn),
                opt_view(*p_shex),
            ),
        ),
        m.dwords@.len() >= 7,
        m.dwords@[0] == DXBC_MAGIC,
        m.dwords@[5] == (m.dwords@.len() - 5) as u32,
        m.dwords@[6] as int == opt_count(opt_view(*p_rdef)) + opt_count(opt_view(*p_isgn))
            + opt_count(opt_view(*p_osgn)) + opt_count(opt_view(*p_shex)),
        checksum_verifies(m.dwords@),
{
    let ghost gpr = opt_view(*p_rdef);
    let ghost gpi = opt_view(*p_isgn);
    let ghost gpo = opt_view(*p_osgn);
    let ghost gps = opt_view(*p_shex);
    let ghost total = container_total(gpr, gpi, gpo, gps);
    let l_s: usize = opt_len_of(p_shex);
    let total64: u64 = 7 + nc as u64 + l_r as u64 + l_i as u64 + l_o as u64 + l_s as u64;
    proof {
        assert(total64 as int == total);
    }
    let mut m = DxbcModule::new();
    m.write_u32(DXBC_MAGIC);
    m.write_u32(0);
    m.write_u32(0);
    m.write_u32(0);
    m.write_u32(0);
    m.write_u32((total64 - 5) as u32);
    m.write_u32(nc as u32);
    let ghost hdr = m.dwords@;
    proof {
        assert(hdr =~= seq![
            DXBC_MAGIC,
            0u32,
            0u32,
            0u32,
            0u32,
            (total - 5) as u32,
            (opt_count(gpr) + opt_count(gpi) + opt_count(gpo) + opt_count(gps)) as u32,
        ]);
    }
    // directory: one absolute byte offset per present chunk
    let s0: usize = 7 + nc;
    let s1: usize = s0 + l_r;
    let s2: usize = s1 + l_i;
    let s3: usize = s2 + l_o;
    write_dir_entry(&mut m, p_rdef, s0);
    write_dir_entry(&mut m, p_isgn, s1);
    write_dir_entry(&mut m, p_osgn, s2);
    write_dir_entry(&mut m, p_shex, s3);
    proof {
        assert(m.dwords@ =~= hdr + opt_dir(gpr, s0 as int) + opt_dir(gpi, s1 as int) + opt_dir(
            gpo,
            s2 as int,
        ) + opt_dir(gps, s3 as int));
    }
    // the chunks, in format order
    write_opt_chunk(&mut m, RDEF_MAGIC, p_rdef);
    write_opt_chunk(&mut m, ISGN_MAGIC, p_isgn);
    write_opt_chunk(&mut m, OSGN_MAGIC, p_osgn);
    write_opt_chunk(&mut m, SHEX_MAGIC, p_shex);
    proof {
        reveal(enc_container_words);
        assert(m.dwords@ =~= hdr + opt_dir(gpr, s0 as int) + opt_dir(gpi, s1 as int) + opt_dir(
            gpo,
            s2 as int,
        ) + opt_dir(gps, s3 as int) + opt_chunk(RDEF_MAGIC, gpr) + opt_chunk(ISGN_MAGIC, gpi)
            + opt_chunk(OSGN_MAGIC, gpo) + opt_chunk(SHEX_MAGIC, gps));
        assert(m.dwords@ =~= enc_container_words(gpr, gpi, gpo, gps));
    }
    let ghost pre_patch2 = m.dwords@;
    patch_checksum(&mut m);
    proof {
        assert(m.dwords@[0] == pre_patch2[0]);
        assert(m.dwords@[5] == pre_patch2[5]);
        assert(m.dwords@[6] == pre_patch2[6]);
    }
    m
}

// --- container layout, in spec --------------------------------------------
/// The words stored little-endian in a byte sequence whose length is a
/// multiple of four.
pub open spec fn bytes_to_words(b: Seq<u8>) -> Seq<u32> {
    Seq::new(b.len() / 4, |i: int| crate::bytes::le_u32_at(b, 4 * i))
}

/// A word sequence is recovered from its own byte image.
pub proof fn lemma_bytes_to_words_of(ws: Seq<u32>, b: Seq<u8>)
    requires
        words_to_bytes(ws) == b,
    ensures
        ws =~= bytes_to_words(b),
{
    crate::bytes::lemma_words_to_bytes_len(ws);
    assert forall|i: int| 0 <= i < ws.len() implies ws[i] == bytes_to_words(b)[i] by {
        crate::bytes::lemma_le_u32_at_words(ws, i);
    }
}

/// The payload words of a resource-definition chunk: the two catalog
/// counts with their chunk-relative byte offsets, the version word, the
/// flags, the author's byte offset, then the packed author string. The
/// catalogs are empty, so all three offsets point just past the
/// seven-word envelope.
pub open spec fn rdef_payload_words(r: RdefChunk) -> Seq<u32> {
    seq![
        r.constant_buffer_count,
        28u32,
        r.resource_binding_count,
        28u32,
        crate::rdef::rdef_version_token(r.shader_ty, r.major, r.minor),
        r.flags,
        28u32,
    ] + bytes_to_words(enc_name(r.author@))
}

/// The version word of a tokenized-program chunk.
pub open spec fn shex_version_word(s: ShexChunk) -> u32 {
    ((s.minor as u32) & 0xf) | (((s.major as u32) & 0xf) << 4) | ((s.program_type as u32) << 16)
}

/// The payload words of a tokenized-program chunk: the version word, the
/// payload's own dword count, then the instruction stream.
pub open spec fn shex_payload_words(s: ShexChunk) -> Seq<u32> {
    seq![shex_version_word(s), (2 + enc_program(s.instructions@).len()) as u32] + enc_program(
        s.instructions@,
    )
}

/// The payload words of each present chunk of a builder.
pub open spec fn rdef_words_of(b: Builder) -> Option<Seq<u32>> {
    match b.rdef {
        Some(r) => Some(rdef_payload_words(r)),
        None => None,
    }
}

pub open spec fn isgn_words_of(b: Builder) -> Option<Seq<u32>> {
    match b.isgn {
        Some(c) => Some(bytes_to_words(enc_iosgn_payload(c@))),
        None => None,
    }
}

pub open spec fn osgn_words_of(b: Builder) -> Option<Seq<u32>> {
    match b.osgn {
        Some(c) => Some(bytes_to_words(enc_iosgn_payload(c@))),
        None => None,
    }
}

pub open spec fn shex_words_of(b: Builder) -> Option<Seq<u32>> {
    match b.shex {
        Some(s) => Some(shex_payload_words(s)),
        None => None,
    }
}

/// One for a present chunk, zero for an absent one.
pub open spec fn opt_count(p: Option<Seq<u32>>) -> int {
    if p is Some {
        1
    } else {
        0
    }
}

/// The words a chunk occupies: its tag, its byte-length word, and its
/// payload; zero for an absent chunk.
pub open spec fn opt_len(p: Option<Seq<u32>>) -> int {
    match p {
        Some(w) => 2 + w.len() as int,
        None => 0,
    }
}

/// The directory entry of a chunk: its absolute byte offset; empty for an
/// absent chunk.
pub open spec fn opt_dir(p: Option<Seq<u32>>, start: int) -> Seq<u32> {
    if p is Some {
        seq![(4 * start) as u32]
    } else {
        Seq::empty()
    }
}

/// The stored words of a chunk: tag, byte length, payload; empty for an
/// absent chunk.
pub open spec fn opt_chunk(tag: u32, p: Option<Seq<u32>>) -> Seq<u32> {
    match p {
        Some(w) => seq![tag, (4 * w.len()) as u32] + w,
        None => Seq::empty(),
    }
}

/// The container's total word count: the seven header words, one
/// directory word per present chunk, and the chunks.
pub open spec fn container_total(
    pr: Option<Seq<u32>>,
    pi: Option<Seq<u32>>,
    po: Option<Seq<u32>>,
    ps: Option<Seq<u32>>,
) -> int {
    7 + opt_count(pr) + opt_count(pi) + opt_count(po) + opt_count(ps) + opt_len(pr) + opt_len(pi)
        + opt_len(po) + opt_len(ps)
}

/// The whole container image before the checksum is patched in: magic,
/// four zero checksum words, the total-size word (the word count past the
/// five-word prefix), the chunk count, the directory of absolute byte
/// offsets, then the chunks in the fixed order RDEF, ISGN, OSGN, SHEX.
#[verifier::opaque]
pub open spec fn enc_container_words(
    pr: Option<Seq<u32>>,
    pi: Option<Seq<u32>>,
    po: Option<Seq<u32>>,
    ps: Option<Seq<u32>>,
) -> Seq<u32> {
    let nc = opt_count(pr) + opt_count(pi) + opt_count(po) + opt_count(ps);
    let s0 = 7 + nc;
    let s1 = s0 + opt_len(pr);
    let s2 = s1 + opt_len(pi);
    let s3 = s2 + opt_len(po);
    let total = s3 + opt_len(ps);
    seq![DXBC_MAGIC, 0u32, 0u32, 0u32, 0u32, (total - 5) as u32, nc as u32] + opt_dir(pr, s0)
        + opt_dir(pi, s1) + opt_dir(po, s2) + opt_dir(ps, s3) + opt_chunk(RDEF_MAGIC, pr)
        + opt_chunk(ISGN_MAGIC, pi) + opt_chunk(OSGN_MAGIC, po) + opt_chunk(SHEX_MAGIC, ps)
}

/// A buffer with the checksum digest of its zero-checksum image patched
/// into words one to four.
#[verifier::opaque]
pub open spec fn with_checksum(ws: Seq<u32>) -> Seq<u32> {
    let d = digest_words(words_to_bytes(ws));
    ws.update(1, d[0]).update(2, d[1]).update(3, d[2]).update(4, d[3])
}

/// Whether a tokenized-program chunk fits: every instruction is a modeled
/// one whose encoding fits the declared-length field, and the payload
/// fits the size bound.
pub open spec fn shex_fits(s: ShexChunk) -> bool {
    (forall|k: int|
        0 <= k < s.instructions@.len() ==> !(#[trigger] s.instructions@[k] is Unknown)
            && enc_instruction(s.instructions@[k]).len() < 128) && 2 + enc_program(
        s.instructions@,
    ).len() <= 0x0fffffff
}

/// Whether a builder's chunks fit the container's size bounds: each
/// present chunk fits its own format limits and the whole module stays
/// within the size-word range.
pub open spec fn module_fits(b: Builder) -> bool {
    &&& (b.rdef matches Some(r) ==> r.author@.len() <= 0xffff0000)
    &&& (b.isgn matches Some(c) ==> crate::isgn::iosgn_fits(c@))
    &&& (b.osgn matches Some(c) ==> crate::isgn::iosgn_fits(c@))
    &&& (b.shex matches Some(s) ==> shex_fits(s))
    &&& container_total(rdef_words_of(b), isgn_words_of(b), osgn_words_of(b), shex_words_of(b))
        <= 0x0fffffff
}

/// Append one whole chunk: its tag, its byte length, and its payload.
fn write_chunk(m: &mut DxbcModule, tag: u32, payload: &Vec<u32>)
    requires
        payload@.len() <= 0x3fffffff,
    ensures
        final(m).dwords@ == old(m).dwords@ + seq![tag, (4 * payload@.len()) as u32] + payload@,
{
    let ghost base = m.dwords@;
    m.write_u32(tag);
    m.write_u32((4 * payload.len()) as u32);
    let mut k: usize = 0;
    while k < payload.len()
        invariant
            k <= payload@.len(),
            m.dwords@ == base + seq![tag, (4 * payload@.len()) as u32] + payload@.subrange(
                0,
                k as int,
            ),
        decreases payload@.len() - k,
    {
        let ghost pre = m.dwords@;
        m.write_u32(payload[k]);
        proof {
            assert(m.dwords@ =~= base + seq![tag, (4 * payload@.len()) as u32]
                + payload@.subrange(0, k + 1 as int));
        }
        k = k + 1;
    }
    proof {
        assert(base.push(tag).push((4 * payload@.len()) as u32) =~= base + seq![
            tag,
            (4 * payload@.len()) as u32,
        ] + payload@.subrange(0, 0));
        assert(payload@.subrange(0, payload@.len() as int) =~= payload@);
    }
}

} // verus!
