//! The input/output signature chunk codec (the ISGN and OSGN payloads).
//!
//! A signature is an element count, a reserved word, one fixed six-word
//! record per element, and an out-of-line string table. Each record's
//! first word is the byte offset of the element's zero-terminated name,
//! relative to the start of the chunk payload. The encoder packs each
//! name into whole words and appends an all-zero terminator word exactly
//! when the name's byte length is a multiple of four — shorter names are
//! terminated by the zero padding of their last word.

use vstd::prelude::*;

use crate::bytes::{le_u32_at, word_bytes};
use crate::cursor::{scan_name, Cursor};
use crate::DecodeError;

verus! {

/// The reserved word written after the element count.
pub const SIG_RESERVED: u32 = 8;

/// One entry of the input/output parameter table. The semantic name is
/// held as its raw bytes; a valid name contains no zero byte.
#[derive(Debug, PartialEq, Eq, Clone)]
pub struct InputOutputElement {
    pub name: Vec<u8>,
    pub semantic_index: u32,
    pub semantic_type: u32,
    pub component_type: u32,
    pub register: u32,
    pub component_mask: u8,
    pub rw_mask: u8,
}

/// The mathematical value of a signature element.
#[verifier::ext_equal]
pub struct ElemView {
    pub name: Seq<u8>,
    pub semantic_index: u32,
    pub semantic_type: u32,
    pub component_type: u32,
    pub register: u32,
    pub component_mask: u8,
    pub rw_mask: u8,
}

impl View for InputOutputElement {
    type V = ElemView;

    open spec fn view(&self) -> ElemView {
        ElemView {
            name: self.name@,
            semantic_index: self.semantic_index,
            semantic_type: self.semantic_type,
            component_type: self.component_type,
            register: self.register,
            component_mask: self.component_mask,
            rw_mask: self.rw_mask,
        }
    }
}

/// A decoded input or output signature table.
#[derive(Debug, PartialEq, Eq, Clone)]
pub struct IOsgnChunk {
    pub elements: Vec<InputOutputElement>,
}

impl View for IOsgnChunk {
    type V = Seq<ElemView>;

    open spec fn view(&self) -> Seq<ElemView> {
        self.elements@.map_values(|e: InputOutputElement| e@)
    }
}

/// A valid element name holds no zero byte.
pub open spec fn wf_elem(e: ElemView) -> bool {
    forall|k: int| 0 <= k < e.name.len() ==> e.name[k] != 0
}

pub open spec fn wf_sig(es: Seq<ElemView>) -> bool {
    forall|j: int| 0 <= j < es.len() ==> wf_elem(#[trigger] es[j])
}

// --- spec encoder -----------------------------------------------------------
/// The count of zero bytes that follow a stored name: up to the next word
/// boundary, or one whole zero word when the name already ends on one.
pub open spec fn pad_len(n: nat) -> nat {
    if n % 4 == 0 {
        4
    } else {
        (4 - n % 4) as nat
    }
}

/// The stored bytes of one name: the name then its zero padding.
pub open spec fn enc_name(name: Seq<u8>) -> Seq<u8> {
    name + Seq::new(pad_len(name.len()), |i: int| 0u8)
}

/// The string table of the first `k` elements.
pub open spec fn names_block(es: Seq<ElemView>, k: int) -> Seq<u8>
    decreases k,
{
    if k <= 0 {
        Seq::empty()
    } else {
        names_block(es, k - 1) + enc_name(es[k - 1].name)
    }
}

/// The payload byte offset of element `k`'s name.
pub open spec fn name_offset(es: Seq<ElemView>, k: int) -> int {
    8 + 24 * (es.len() as int) + (names_block(es, k).len() as int)
}

/// The packed mask word of an element: the component mask in the low
/// byte, the read/write mask in the next.
pub open spec fn mask_word(e: ElemView) -> u32 {
    (e.component_mask as u32) | ((e.rw_mask as u32) << 8)
}

/// The six-word record of element `k`.
pub open spec fn record_bytes(es: Seq<ElemView>, k: int) -> Seq<u8> {
    word_bytes(name_offset(es, k) as u32) + word_bytes(es[k].semantic_index) + word_bytes(
        es[k].semantic_type,
    ) + word_bytes(es[k].component_type) + word_bytes(es[k].register) + word_bytes(
        mask_word(es[k]),
    )
}

/// The record table of the first `k` elements.
pub open spec fn records_block(es: Seq<ElemView>, k: int) -> Seq<u8>
    decreases k,
{
    if k <= 0 {
        Seq::empty()
    } else {
        records_block(es, k - 1) + record_bytes(es, k - 1)
    }
}

/// The whole signature payload: count, reserved word, records, names.
pub open spec fn enc_iosgn_payload(es: Seq<ElemView>) -> Seq<u8> {
    word_bytes(es.len() as u32) + word_bytes(SIG_RESERVED) + records_block(es, es.len() as int)
        + names_block(es, es.len() as int)
}

// --- spec parser ------------------------------------------------------------
/// Parse one six-word element record at `pos` and resolve its name.
pub open spec fn parse_element(b: Seq<u8>, pos: int) -> Result<ElemView, DecodeError> {
    if pos + 24 <= b.len() {
        let name_off = le_u32_at(b, pos);
        if name_off <= b.len() {
            match scan_name(b, name_off as int) {
                Ok(name) => Ok(
                    ElemView {
                        name: name,
                        semantic_index: le_u32_at(b, pos + 4),
                        semantic_type: le_u32_at(b, pos + 8),
                        component_type: le_u32_at(b, pos + 12),
                        register: le_u32_at(b, pos + 16),
                        component_mask: b[pos + 20],
                        rw_mask: b[pos + 21],
                    },
                ),
                Err(e) => Err(e),
            }
        } else {
            Err(DecodeError::OutOfBounds)
        }
    } else {
        Err(DecodeError::UnexpectedEof)
    }
}

/// Parse `n` element records starting at `pos`.
pub open spec fn parse_elements(b: Seq<u8>, n: nat, pos: int) -> Result<Seq<ElemView>, DecodeError>
    decreases n,
{
    if n == 0 {
        Ok(Seq::empty())
    } else {
        match parse_element(b, pos) {
            Ok(e) => match parse_elements(b, (n - 1) as nat, pos + 24) {
                Ok(rest) => Ok(seq![e] + rest),
                Err(err) => Err(err),
            },
            Err(err) => Err(err),
        }
    }
}

/// Parse a whole signature payload.
pub open spec fn parse_iosgn(b: Seq<u8>) -> Result<Seq<ElemView>, DecodeError> {
    if b.len() >= 8 {
        parse_elements(b, le_u32_at(b, 0) as nat, 8)
    } else {
        Err(DecodeError::UnexpectedEof)
    }
}

// --- executable decoder -------------------------------------------------------
/// Decode one element record through a cursor positioned on it, resolving
/// the name through a seek into the same payload.
fn decode_element(cur: &mut Cursor<'_>) -> (r: Result<InputOutputElement, DecodeError>)
    ensures
        final(cur).data == old(cur).data,
        match r {
            Ok(e) => parse_element(old(cur).data@, old(cur).pos as int) == Ok::<
                ElemView,
                DecodeError,
            >(e@) && final(cur).pos == old(cur).pos + 24,
            Err(err) => parse_element(old(cur).data@, old(cur).pos as int) == Err::<
                ElemView,
                DecodeError,
            >(err),
        },
{
    let name_off = match cur.read_u32() {
        Ok(v) => v,
        Err(e) => {
            return Err(e);
        },
    };
    let semantic_index = match cur.read_u32() {
        Ok(v) => v,
        Err(e) => {
            return Err(DecodeError::UnexpectedEof);
        },
    };
    let semantic_type = match cur.read_u32() {
        Ok(v) => v,
        Err(e) => {
            return Err(DecodeError::UnexpectedEof);
        },
    };
    let component_type = match cur.read_u32() {
        Ok(v) => v,
        Err(e) => {
            return Err(DecodeError::UnexpectedEof);
        },
    };
    let register = match cur.read_u32() {
        Ok(v) => v,
        Err(e) => {
            return Err(DecodeError::UnexpectedEof);
        },
    };
    let component_mask = match cur.read_u8() {
        Ok(v) => v,
        Err(e) => {
            return Err(DecodeError::UnexpectedEof);
        },
    };
    let rw_mask = match cur.read_u8() {
        Ok(v) => v,
        Err(e) => {
            return Err(DecodeError::UnexpectedEof);
        },
    };
    match cur.skip(2) {
        Ok(()) => {},
        Err(e) => {
            return Err(DecodeError::UnexpectedEof);
        },
    }
    let mut name_cur = match cur.seek(name_off as usize) {
        Ok(c) => c,
        Err(e) => {
            return Err(e);
        },
    };
    let name = match name_cur.str() {
        Ok(v) => v,
        Err(e) => {
            return Err(e);
        },
    };
    Ok(
        InputOutputElement {
            name: name,
            semantic_index: semantic_index,
            semantic_type: semantic_type,
            component_type: component_type,
            register: register,
            component_mask: component_mask,
            rw_mask: rw_mask,
        },
    )
}

/// Decode a whole signature payload. The result is exactly the spec parse
/// of the payload bytes.
pub fn decode_iosgn(b: &Vec<u8>) -> (r: Result<IOsgnChunk, DecodeError>)
    ensures
        match r {
            Ok(chunk) => parse_iosgn(b@) == Ok::<Seq<ElemView>, DecodeError>(chunk@),
            Err(e) => parse_iosgn(b@) == Err::<Seq<ElemView>, DecodeError>(e),
        },
{
    let mut cur = Cursor::new(b);
    let count = match cur.read_u32() {
        Ok(v) => v,
        Err(e) => {
            return Err(e);
        },
    };
    match cur.read_u32() {
        Ok(_) => {},
        Err(e) => {
            return Err(e);
        },
    }
    let mut elements: Vec<InputOutputElement> = Vec::new();
    let mut k: u32 = 0;
    proof {
        match parse_elements(b@, count as nat, 8) {
            Ok(rest) => {
                assert(elements@.map_values(|e: InputOutputElement| e@) + rest =~= rest);
            },
            Err(_) => {},
        }
    }
    while k < count
        invariant
            k <= count,
            b@.len() >= 8,
            count == le_u32_at(b@, 0),
            cur.data == b,
            cur.pos == 8 + 24 * (k as int),
            cur.pos <= usize::MAX,
            elements@.len() == k as int,
            parse_elements(b@, count as nat, 8) == (match parse_elements(
                b@,
                (count - k) as nat,
                cur.pos as int,
            ) {
                Ok(rest) => Ok::<Seq<ElemView>, DecodeError>(
                    elements@.map_values(|e: InputOutputElement| e@) + rest,
                ),
                Err(err) => Err::<Seq<ElemView>, DecodeError>(err),
            }),
        decreases count - k,
    {
        let ghost pre = elements@;
        let ghost pre_pos = cur.pos as int;
        let e = match decode_element(&mut cur) {
            Ok(e) => e,
            Err(err) => {
                proof {
                    assert(parse_elements(b@, (count - k) as nat, pre_pos) == Err::<
                        Seq<ElemView>,
                        DecodeError,
                    >(err));
                }
                return Err(err);
            },
        };
        proof {
            match parse_elements(b@, (count - k - 1) as nat, pre_pos + 24) {
                Ok(rest2) => {
                    assert(parse_elements(b@, (count - k) as nat, pre_pos) == Ok::<
                        Seq<ElemView>,
                        DecodeError,
                    >(seq![e@] + rest2));
                    assert(pre.map_values(|x: InputOutputElement| x@) + (seq![e@] + rest2)
                        =~= pre.push(e).map_values(|x: InputOutputElement| x@) + rest2);
                },
                Err(_) => {},
            }
        }
        elements.push(e);
        k = k + 1;
    }
    proof {
        assert(parse_elements(b@, (count - k) as nat, cur.pos as int) == Ok::<
            Seq<ElemView>,
            DecodeError,
        >(Seq::empty()));
        assert(elements@.map_values(|e: InputOutputElement| e@) + Seq::<ElemView>::empty()
            =~= elements@.map_values(|e: InputOutputElement| e@));
    }
    Ok(IOsgnChunk { elements: elements })
}

// --- round trip ---------------------------------------------------------------
/// Reading a word from a subrange known to be its byte image.
pub proof fn lemma_le_u32_at_of(b: Seq<u8>, off: int, x: u32)
    requires
        0 <= off,
        off + 4 <= b.len(),
        b.subrange(off, off + 4) == word_bytes(x),
    ensures
        le_u32_at(b, off) == x,
{
    crate::bytes::lemma_word_bytes_round_trip(x);
    assert(b[off] == word_bytes(x)[0]);
    assert(b[off + 1] == word_bytes(x)[1]);
    assert(b[off + 2] == word_bytes(x)[2]);
    assert(b[off + 3] == word_bytes(x)[3]);
}

/// The two mask bytes of the packed mask word.
pub proof fn lemma_mask_word_bytes(cm: u8, rw: u8)
    ensures
        word_bytes((cm as u32) | ((rw as u32) << 8))[0] == cm,
        word_bytes((cm as u32) | ((rw as u32) << 8))[1] == rw,
{
    assert({
        let v = (cm as u32) | ((rw as u32) << 8);
        (v & 0xff) as u8 == cm && ((v >> 8) & 0xff) as u8 == rw
    }) by (bit_vector);
}

/// Scanning at the position of a stored zero-free name yields the name.
pub proof fn lemma_scan_enc_name(b: Seq<u8>, pos: int, name: Seq<u8>)
    requires
        0 <= pos,
        pos + name.len() < b.len(),
        forall|k: int| 0 <= k < name.len() ==> name[k] != 0,
        b.subrange(pos, pos + name.len() as int) == name,
        b[pos + name.len() as int] == 0,
    ensures
        scan_name(b, pos) == Ok::<Seq<u8>, DecodeError>(name),
    decreases name.len(),
{
    if name.len() == 0 {
        assert(name =~= Seq::<u8>::empty());
    } else {
        assert(b[pos] == name[0]);
        assert(b.subrange(pos + 1, pos + 1 + (name.drop_first().len()) as int) =~= name.drop_first());
        lemma_scan_enc_name(b, pos + 1, name.drop_first());
        assert(seq![name[0]] + name.drop_first() =~= name);
    }
}

/// The record table of `k` elements takes twenty-four bytes per record.
pub proof fn lemma_records_block_len(es: Seq<ElemView>, k: int)
    requires
        0 <= k,
    ensures
        records_block(es, k).len() == 24 * k,
    decreases k,
{
    if k > 0 {
        lemma_records_block_len(es, k - 1);
    }
}

/// Record `k` lies at byte offset `24 k` of the record table.
pub proof fn lemma_records_block_index(es: Seq<ElemView>, n: int, k: int)
    requires
        0 <= k < n,
    ensures
        records_block(es, n).subrange(24 * k, 24 * k + 24) =~= record_bytes(es, k),
    decreases n,
{
    lemma_records_block_len(es, n - 1);
    if k < n - 1 {
        lemma_records_block_index(es, n - 1, k);
        assert(records_block(es, n).subrange(24 * k, 24 * k + 24) =~= records_block(
            es,
            n - 1,
        ).subrange(24 * k, 24 * k + 24));
    } else {
        assert(records_block(es, n).subrange(24 * k, 24 * k + 24) =~= record_bytes(es, k));
    }
}

/// The name-table prefix lengths grow with the element index.
pub proof fn lemma_names_block_mono(es: Seq<ElemView>, k1: int, k2: int)
    requires
        0 <= k1 <= k2,
    ensures
        names_block(es, k1).len() <= names_block(es, k2).len(),
    decreases k2 - k1,
{
    if k1 < k2 {
        lemma_names_block_mono(es, k1, k2 - 1);
    }
}

/// The stored name of element `k` lies at its name offset within the name
/// table.
pub proof fn lemma_names_block_index(es: Seq<ElemView>, n: int, k: int)
    requires
        0 <= k < n,
    ensures
        names_block(es, k).len() + enc_name(es[k].name).len() <= names_block(es, n).len(),
        names_block(es, n).subrange(
            names_block(es, k).len() as int,
            (names_block(es, k).len() + enc_name(es[k].name).len()) as int,
        ) =~= enc_name(es[k].name),
    decreases n,
{
    if k < n - 1 {
        lemma_names_block_index(es, n - 1, k);
        assert(names_block(es, n).subrange(
            names_block(es, k).len() as int,
            (names_block(es, k).len() + enc_name(es[k].name).len()) as int,
        ) =~= names_block(es, n - 1).subrange(
            names_block(es, k).len() as int,
            (names_block(es, k).len() + enc_name(es[k].name).len()) as int,
        ));
    } else {
        assert(names_block(es, n).subrange(
            names_block(es, k).len() as int,
            (names_block(es, k).len() + enc_name(es[k].name).len()) as int,
        ) =~= enc_name(es[k].name));
    }
}

/// The six words of a record, by their byte ranges.
pub proof fn lemma_record_bytes_parts(es: Seq<ElemView>, k: int)
    requires
        0 <= k < es.len(),
    ensures
        record_bytes(es, k).len() == 24,
        record_bytes(es, k).subrange(0, 4) =~= word_bytes(name_offset(es, k) as u32),
        record_bytes(es, k).subrange(4, 8) =~= word_bytes(es[k].semantic_index),
        record_bytes(es, k).subrange(8, 12) =~= word_bytes(es[k].semantic_type),
        record_bytes(es, k).subrange(12, 16) =~= word_bytes(es[k].component_type),
        record_bytes(es, k).subrange(16, 20) =~= word_bytes(es[k].register),
        record_bytes(es, k).subrange(20, 24) =~= word_bytes(mask_word(es[k])),
{
}

/// Parsing the record of element `k` out of the whole encoded payload
/// yields element `k`.
#[verifier::rlimit(100)]
#[verifier::spinoff_prover]
pub proof fn lemma_element_round_trip(es: Seq<ElemView>, k: int)
    requires
        wf_sig(es),
        0 <= k < es.len(),
        enc_iosgn_payload(es).len() <= 0xffffffff,
    ensures
        parse_element(enc_iosgn_payload(es), 8 + 24 * k) == Ok::<ElemView, DecodeError>(es[k]),
{
    let b = enc_iosgn_payload(es);
    let n = es.len() as int;
    let head = word_bytes(n as u32) + word_bytes(SIG_RESERVED);
    let recs = records_block(es, n);
    let names = names_block(es, n);
    lemma_records_block_len(es, n);
    let pos = 8 + 24 * k;
    // the record of element k sits at pos
    lemma_records_block_index(es, n, k);
    assert(b =~= head + recs + names);
    lemma_record_bytes_parts(es, k);
    assert forall|j: int| 0 <= j < 24 implies b[pos + j] == record_bytes(es, k)[j] by {
        assert(b[pos + j] == recs[24 * k + j]);
        assert(recs.subrange(24 * k, 24 * k + 24)[j] == recs[24 * k + j]);
    }
    assert(b.subrange(pos, pos + 4) =~= record_bytes(es, k).subrange(0, 4));
    assert(b.subrange(pos + 4, pos + 8) =~= record_bytes(es, k).subrange(4, 8));
    assert(b.subrange(pos + 8, pos + 12) =~= record_bytes(es, k).subrange(8, 12));
    assert(b.subrange(pos + 12, pos + 16) =~= record_bytes(es, k).subrange(12, 16));
    assert(b.subrange(pos + 16, pos + 20) =~= record_bytes(es, k).subrange(16, 20));
    lemma_le_u32_at_of(b, pos, name_offset(es, k) as u32);
    lemma_le_u32_at_of(b, pos + 4, es[k].semantic_index);
    lemma_le_u32_at_of(b, pos + 8, es[k].semantic_type);
    lemma_le_u32_at_of(b, pos + 12, es[k].component_type);
    lemma_le_u32_at_of(b, pos + 16, es[k].register);
    lemma_mask_word_bytes(es[k].component_mask, es[k].rw_mask);
    assert(b[pos + 20] == record_bytes(es, k)[20]);
    assert(b[pos + 21] == record_bytes(es, k)[21]);
    // the name offset fits in its word
    lemma_names_block_mono(es, k, n);
    lemma_names_block_index(es, n, k);
    let off = name_offset(es, k);
    assert(0 <= off <= b.len());
    assert(off as u32 as int == off);
    // the stored name sits at the offset
    let name = es[k].name;
    assert forall|j: int| 0 <= j < enc_name(name).len() implies b[off + j] == enc_name(name)[j] by {
        assert(b[off + j] == names[names_block(es, k).len() + j]);
        assert(names.subrange(
            names_block(es, k).len() as int,
            (names_block(es, k).len() + enc_name(name).len()) as int,
        )[j] == names[names_block(es, k).len() + j]);
    }
    assert forall|j: int| 0 <= j < name.len() implies b.subrange(off, off + name.len() as int)[j]
        == name[j] by {
        assert(b[off + j] == enc_name(name)[j]);
        assert(enc_name(name)[j] == name[j]);
    }
    assert(b.subrange(off, off + name.len() as int) =~= name);
    assert(b[off + name.len() as int] == enc_name(name)[name.len() as int]);
    assert(enc_name(name)[name.len() as int] == 0);
    assert(wf_elem(es[k]));
    lemma_scan_enc_name(b, off, name);
    assert(parse_element(b, pos) == Ok::<ElemView, DecodeError>(
        ElemView {
            name: name,
            semantic_index: es[k].semantic_index,
            semantic_type: es[k].semantic_type,
            component_type: es[k].component_type,
            register: es[k].register,
            component_mask: es[k].component_mask,
            rw_mask: es[k].rw_mask,
        },
    ));
    assert(ElemView {
        name: name,
        semantic_index: es[k].semantic_index,
        semantic_type: es[k].semantic_type,
        component_type: es[k].component_type,
        register: es[k].register,
        component_mask: es[k].component_mask,
        rw_mask: es[k].rw_mask,
    } =~= es[k]);
}

/// Parsing the records from element `k` on yields the elements from `k`
/// on.
pub proof fn lemma_elements_round_trip(es: Seq<ElemView>, k: int)
    requires
        wf_sig(es),
        0 <= k <= es.len(),
        enc_iosgn_payload(es).len() <= 0xffffffff,
    ensures
        parse_elements(enc_iosgn_payload(es), (es.len() - k) as nat, 8 + 24 * k) == Ok::<
            Seq<ElemView>,
            DecodeError,
        >(es.subrange(k, es.len() as int)),
    decreases es.len() - k,
{
    let b = enc_iosgn_payload(es);
    let n = es.len() as int;
    if k == n {
        assert(es.subrange(k, n) =~= Seq::<ElemView>::empty());
    } else {
        lemma_element_round_trip(es, k);
        lemma_elements_round_trip(es, k + 1);
        assert(seq![es[k]] + es.subrange(k + 1, n) =~= es.subrange(k, n));
    }
}

/// Round trip: parsing the encoding of any valid signature element list
/// yields that list — names, indices, and masks all preserved.
pub proof fn lemma_iosgn_round_trip(es: Seq<ElemView>)
    requires
        wf_sig(es),
        enc_iosgn_payload(es).len() <= 0xffffffff,
    ensures
        parse_iosgn(enc_iosgn_payload(es)) == Ok::<Seq<ElemView>, DecodeError>(es),
{
    let b = enc_iosgn_payload(es);
    let n = es.len() as int;
    lemma_records_block_len(es, n);
    assert(b.len() >= 8);
    assert(b.subrange(0, 4) =~= word_bytes(n as u32));
    lemma_le_u32_at_of(b, 0, n as u32);
    assert(n as u32 as int == n) by {
        assert(8 + 24 * n <= b.len());
    }
    lemma_elements_round_trip(es, 0);
    assert(es.subrange(0, n) =~= es);
}

/// Whether a signature fits the format's 32-bit fields: the element count
/// fits the record table, and the whole payload stays clear of the
/// offset range's top.
pub open spec fn iosgn_fits(es: Seq<ElemView>) -> bool {
    es.len() <= 0xffffff && enc_iosgn_payload(es).len() <= 0xfffffff0
}

/// The payload's byte length: the two header words, twenty-four bytes per
/// record, and the string table.
pub proof fn lemma_enc_iosgn_payload_len(es: Seq<ElemView>)
    ensures
        enc_iosgn_payload(es).len() == name_offset(es, es.len() as int),
{
    lemma_records_block_len(es, es.len() as int);
}

} // verus!
