//! The token bitfield layer: pure field extraction and packing for the two
//! 32-bit token kinds of the instruction stream.
//!
//! An opcode token holds the opcode type in its low eleven bits, an
//! opcode-specific payload in bits 11..24 (saturate flag, test-boolean
//! field, global flags, constant-buffer access pattern), the declared
//! instruction length in dwords in bits 24..31, and an "extended" flag in
//! bit 31.
//!
//! An operand token holds the component-count class in bits 0..2, the
//! component-selection mode in bits 2..4, the mode-specific payload (mask,
//! swizzle, or select index) in bits 4..12, the operand type in bits
//! 12..20, the index dimension in bits 20..22, one three-bit index
//! representation selector per dimension starting at bit 22, and an
//! "extended" flag in bit 31.
//!
//! Packing and extraction are exact inverses; the lemmas at the bottom
//! state this per field.

use vstd::prelude::*;

verus! {

// --- opcode token fields -------------------------------------------------
/// Opcode type: low eleven bits.
pub open spec fn sp_opcode_type(w: u32) -> u32 {
    w & 0x7ff
}

/// Opcode-specific payload bits 11..24 (unshifted, as stored).
pub open spec fn sp_opcode_extra(w: u32) -> u32 {
    w & 0xfff800
}

/// Declared instruction length in dwords, including the opcode token.
pub open spec fn sp_instruction_length(w: u32) -> u32 {
    (w >> 24) & 0x7f
}

/// The opcode token is followed by an extended-opcode token.
pub open spec fn sp_opcode_extended(w: u32) -> bool {
    (w >> 31) & 1 == 1
}

/// Saturate flag, bit 13 of the opcode-specific payload.
pub open spec fn sp_saturate(w: u32) -> bool {
    w & 0x2000 != 0
}

/// Test-boolean polarity of conditional opcodes, bit 18.
pub open spec fn sp_test_boolean(w: u32) -> u32 {
    (w >> 18) & 1
}

/// Global flags of a global-flags declaration, bits 11..24 unshifted.
pub open spec fn sp_global_flags(w: u32) -> u32 {
    w & 0xfff800
}

/// Constant-buffer access pattern, bit 11.
pub open spec fn sp_cb_access(w: u32) -> u32 {
    (w >> 11) & 1
}

/// System-name field of a name token: low sixteen bits.
pub open spec fn sp_name_bits(w: u32) -> u32 {
    w & 0xffff
}

/// Pack an opcode token from its fields. `extra` carries the
/// opcode-specific payload already placed at bits 11..24.
pub open spec fn pack_opcode_token(ty: u32, extra: u32, len: u32, extb: u32) -> u32 {
    (ty & 0x7ff) | (extra & 0xfff800) | ((len & 0x7f) << 24) | ((extb & 1) << 31)
}

// --- operand token fields ------------------------------------------------
/// Component-count class: bits 0..2.
pub open spec fn sp_operand_nc(w: u32) -> u32 {
    w & 3
}

/// Component-selection mode: bits 2..4.
pub open spec fn sp_operand_selm(w: u32) -> u32 {
    (w >> 2) & 3
}

/// Mode-specific selection payload: bits 4..12.
pub open spec fn sp_operand_sel(w: u32) -> u32 {
    (w >> 4) & 0xff
}

/// Operand type: bits 12..20.
pub open spec fn sp_operand_type(w: u32) -> u32 {
    (w >> 12) & 0xff
}

/// Index dimension: bits 20..22.
pub open spec fn sp_operand_dim(w: u32) -> u32 {
    (w >> 20) & 3
}

/// Index representation selector of dimension `d`: three bits at 22 + 3d.
pub open spec fn sp_operand_repr(w: u32, d: u32) -> u32
    recommends
        d < 3,
{
    if d == 0 {
        (w >> 22) & 7
    } else if d == 1 {
        (w >> 25) & 7
    } else {
        (w >> 28) & 7
    }
}

/// The operand token is followed by an extended-operand token.
pub open spec fn sp_operand_extended(w: u32) -> bool {
    (w >> 31) & 1 == 1
}

/// Pack an operand token from its fields.
pub open spec fn pack_operand_token(
    nc: u32,
    selm: u32,
    sel: u32,
    ty: u32,
    dim: u32,
    r0: u32,
    r1: u32,
    r2: u32,
    extb: u32,
) -> u32 {
    (nc & 3) | ((selm & 3) << 2) | ((sel & 0xff) << 4) | ((ty & 0xff) << 12) | ((dim & 3) << 20)
        | ((r0 & 7) << 22) | ((r1 & 7) << 25) | ((r2 & 7) << 28) | ((extb & 1) << 31)
}

// --- extended operand token ----------------------------------------------
/// Numeric modifier field of an extended-operand token: bits 6..14.
pub open spec fn sp_ext_operand_modifier(w: u32) -> u32 {
    (w >> 6) & 0xff
}

/// Pack an extended-operand token carrying a numeric modifier. The low six
/// bits hold the extended-operand kind, which is one for a modifier.
pub open spec fn pack_ext_operand_token(m: u32) -> u32 {
    1u32 | ((m & 0xff) << 6)
}

// --- swizzle payload -----------------------------------------------------
/// Pack four two-bit lane sources into a swizzle payload.
pub open spec fn pack_swizzle(x: u32, y: u32, z: u32, w: u32) -> u32 {
    (x & 3) | ((y & 3) << 2) | ((z & 3) << 4) | ((w & 3) << 6)
}

/// Lane source `i` of a swizzle payload.
pub open spec fn sp_swizzle_lane(sel: u32, i: u32) -> u32
    recommends
        i < 4,
{
    if i == 0 {
        sel & 3
    } else if i == 1 {
        (sel >> 2) & 3
    } else if i == 2 {
        (sel >> 4) & 3
    } else {
        (sel >> 6) & 3
    }
}

// --- inverse lemmas ------------------------------------------------------
/// Every opcode-token field is recovered from the packed token.
pub proof fn lemma_opcode_token_fields(ty: u32, extra: u32, len: u32, extb: u32)
    requires
        ty < 0x800,
        extra == extra & 0xfff800,
        len < 0x80,
        extb < 2,
    ensures
        sp_opcode_type(pack_opcode_token(ty, extra, len, extb)) == ty,
        sp_opcode_extra(pack_opcode_token(ty, extra, len, extb)) == extra,
        sp_instruction_length(pack_opcode_token(ty, extra, len, extb)) == len,
        sp_opcode_extended(pack_opcode_token(ty, extra, len, extb)) == (extb == 1),
        sp_saturate(pack_opcode_token(ty, extra, len, extb)) == (extra & 0x2000 != 0),
        sp_cb_access(pack_opcode_token(ty, extra, len, extb)) == (extra >> 11) & 1,
        sp_global_flags(pack_opcode_token(ty, extra, len, extb)) == extra,
{
    let w = pack_opcode_token(ty, extra, len, extb);
    assert({
        let p = (ty & 0x7ff) | (extra & 0xfff800) | ((len & 0x7f) << 24) | ((extb & 1) << 31);
        (p & 0x7ff) == ty && (p & 0xfff800) == extra && ((p >> 24) & 0x7f) == len && (((p >> 31)
            & 1 == 1) <==> extb == 1) && ((p & 0x2000 != 0) <==> (extra & 0x2000 != 0)) && ((p
            >> 11) & 1 == (extra >> 11) & 1)
    }) by (bit_vector)
        requires
            ty < 0x800,
            extra == extra & 0xfff800,
            len < 0x80,
            extb < 2,
    ;
}

/// Every operand-token field is recovered from the packed token.
pub proof fn lemma_operand_token_fields(
    nc: u32,
    selm: u32,
    sel: u32,
    ty: u32,
    dim: u32,
    r0: u32,
    r1: u32,
    r2: u32,
    extb: u32,
)
    requires
        nc < 4,
        selm < 4,
        sel < 256,
        ty < 256,
        dim < 4,
        r0 < 8,
        r1 < 8,
        r2 < 8,
        extb < 2,
    ensures
        sp_operand_nc(pack_operand_token(nc, selm, sel, ty, dim, r0, r1, r2, extb)) == nc,
        sp_operand_selm(pack_operand_token(nc, selm, sel, ty, dim, r0, r1, r2, extb)) == selm,
        sp_operand_sel(pack_operand_token(nc, selm, sel, ty, dim, r0, r1, r2, extb)) == sel,
        sp_operand_type(pack_operand_token(nc, selm, sel, ty, dim, r0, r1, r2, extb)) == ty,
        sp_operand_dim(pack_operand_token(nc, selm, sel, ty, dim, r0, r1, r2, extb)) == dim,
        sp_operand_repr(pack_operand_token(nc, selm, sel, ty, dim, r0, r1, r2, extb), 0) == r0,
        sp_operand_repr(pack_operand_token(nc, selm, sel, ty, dim, r0, r1, r2, extb), 1) == r1,
        sp_operand_repr(pack_operand_token(nc, selm, sel, ty, dim, r0, r1, r2, extb), 2) == r2,
        sp_operand_extended(pack_operand_token(nc, selm, sel, ty, dim, r0, r1, r2, extb)) == (extb
            == 1),
{
    assert({
        let p = (nc & 3) | ((selm & 3) << 2) | ((sel & 0xff) << 4) | ((ty & 0xff) << 12) | ((dim
            & 3) << 20) | ((r0 & 7) << 22) | ((r1 & 7) << 25) | ((r2 & 7) << 28) | ((extb & 1)
            << 31);
        (p & 3) == nc && ((p >> 2) & 3) == selm && ((p >> 4) & 0xff) == sel && ((p >> 12) & 0xff)
            == ty && ((p >> 20) & 3) == dim && ((p >> 22) & 7) == r0 && ((p >> 25) & 7) == r1 && ((
        p >> 28) & 7) == r2 && (((p >> 31) & 1 == 1) <==> extb == 1)
    }) by (bit_vector)
        requires
            nc < 4,
            selm < 4,
            sel < 256,
            ty < 256,
            dim < 4,
            r0 < 8,
            r1 < 8,
            r2 < 8,
            extb < 2,
    ;
}

/// The modifier field is recovered from a packed extended-operand token.
pub proof fn lemma_ext_operand_token_fields(m: u32)
    requires
        m < 256,
    ensures
        sp_ext_operand_modifier(pack_ext_operand_token(m)) == m,
{
    assert(((1u32 | ((m & 0xff) << 6)) >> 6) & 0xff == m) by (bit_vector)
        requires
            m < 256,
    ;
}

/// Every swizzle lane is recovered from the packed payload, and the payload
/// fits the eight-bit selection field.
pub proof fn lemma_swizzle_fields(x: u32, y: u32, z: u32, w: u32)
    requires
        x < 4,
        y < 4,
        z < 4,
        w < 4,
    ensures
        pack_swizzle(x, y, z, w) < 256,
        sp_swizzle_lane(pack_swizzle(x, y, z, w), 0) == x,
        sp_swizzle_lane(pack_swizzle(x, y, z, w), 1) == y,
        sp_swizzle_lane(pack_swizzle(x, y, z, w), 2) == z,
        sp_swizzle_lane(pack_swizzle(x, y, z, w), 3) == w,
{
    assert({
        let p = (x & 3) | ((y & 3) << 2) | ((z & 3) << 4) | ((w & 3) << 6);
        p < 256 && (p & 3) == x && ((p >> 2) & 3) == y && ((p >> 4) & 3) == z && ((p >> 6) & 3)
            == w
    }) by (bit_vector)
        requires
            x < 4,
            y < 4,
            z < 4,
            w < 4,
    ;
}

/// A 64-bit value is recovered from its two little-endian words.
pub proof fn lemma_u64_words_round_trip(v: u64)
    ensures
        crate::bytes::u64_from_words((v & 0xffffffff) as u32, ((v >> 32) & 0xffffffff) as u32)
            == v,
{
    assert(((v & 0xffffffff) as u32 as u64) | (((v >> 32) & 0xffffffff) as u32 as u64) << 32 == v)
        by (bit_vector);
}

// --- executable mirrors --------------------------------------------------
/// Opcode type of an opcode token.
pub fn opcode_type_of(w: u32) -> (r: u32)
    ensures
        r == sp_opcode_type(w),
{
    w & 0x7ff
}

/// Declared instruction length of an opcode token, in dwords.
pub fn instruction_length_of(w: u32) -> (r: u32)
    ensures
        r == sp_instruction_length(w),
{
    (w >> 24) & 0x7f
}

/// Whether an opcode or operand token is extended.
pub fn is_token_extended(w: u32) -> (r: bool)
    ensures
        r == sp_opcode_extended(w),
        r == sp_operand_extended(w),
{
    (w >> 31) & 1 == 1
}

/// Whether the saturate flag of an opcode token is set.
pub fn is_saturate_enabled(w: u32) -> (r: bool)
    ensures
        r == sp_saturate(w),
{
    w & 0x2000 != 0
}

/// Pack an opcode token from its fields.
pub fn opcode_token(ty: u32, extra: u32, len: u32, extended: bool) -> (r: u32)
    ensures
        r == pack_opcode_token(ty, extra, len, if extended { 1u32 } else { 0u32 }),
{
    let extb: u32 = if extended { 1 } else { 0 };
    (ty & 0x7ff) | (extra & 0xfff800) | ((len & 0x7f) << 24) | ((extb & 1) << 31)
}

/// Pack an operand token from its fields.
pub fn operand_token(
    nc: u32,
    selm: u32,
    sel: u32,
    ty: u32,
    dim: u32,
    r0: u32,
    r1: u32,
    r2: u32,
    extended: bool,
) -> (r: u32)
    ensures
        r == pack_operand_token(nc, selm, sel, ty, dim, r0, r1, r2, if extended {
            1u32
        } else {
            0u32
        }),
{
    let extb: u32 = if extended { 1 } else { 0 };
    (nc & 3) | ((selm & 3) << 2) | ((sel & 0xff) << 4) | ((ty & 0xff) << 12) | ((dim & 3) << 20)
        | ((r0 & 7) << 22) | ((r1 & 7) << 25) | ((r2 & 7) << 28) | ((extb & 1) << 31)
}

} // verus!
