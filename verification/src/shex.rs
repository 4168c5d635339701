//! The tokenized instruction stream: the operand and instruction codecs.
//!
//! An instruction is an opcode token, an optional chain of extended-opcode
//! tokens, and zero or more operands whose count and shape follow from the
//! opcode type. An operand is a bit-packed token, an optional
//! extended-operand token carrying a numeric modifier, an optional literal
//! payload for immediate operands, and one index per index dimension; an
//! index may itself hold a nested relative operand, recursively.
//!
//! Everything here is stated twice: once as spec-level encode and parse
//! functions over word sequences, and once as executable functions proved
//! equal to them. The round-trip lemmas at the bottom show that parsing an
//! encoding yields the value that was encoded.

use vstd::prelude::*;

use crate::bits::{
    lemma_ext_operand_token_fields, lemma_opcode_token_fields, lemma_operand_token_fields,
    lemma_swizzle_fields, pack_ext_operand_token, pack_opcode_token, pack_operand_token,
    pack_swizzle, sp_cb_access,
    sp_ext_operand_modifier, sp_global_flags, sp_instruction_length, sp_opcode_extended,
    sp_opcode_extra, sp_opcode_type, sp_operand_dim, sp_operand_extended, sp_operand_nc,
    sp_operand_repr, sp_operand_sel, sp_operand_selm, sp_operand_type, sp_saturate,
    sp_swizzle_lane, sp_test_boolean,
};
use crate::bytes::u64_from_words;
use crate::{BuildError, DecodeError};

verus! {

// --- opcode type values ---------------------------------------------------
pub const OPCODE_ADD: u32 = 0;
pub const OPCODE_MAD: u32 = 50;
pub const OPCODE_MOV: u32 = 54;
pub const OPCODE_MUL: u32 = 56;
pub const OPCODE_RET: u32 = 62;
pub const OPCODE_SAMPLE_L: u32 = 72;
pub const OPCODE_DCL_CONSTANT_BUFFER: u32 = 89;
pub const OPCODE_DCL_INPUT: u32 = 95;
pub const OPCODE_DCL_OUTPUT: u32 = 101;
pub const OPCODE_DCL_OUTPUT_SGV: u32 = 102;
pub const OPCODE_DCL_OUTPUT_SIV: u32 = 103;
pub const OPCODE_DCL_TEMPS: u32 = 104;
pub const OPCODE_DCL_GLOBAL_FLAGS: u32 = 106;

// --- operand model --------------------------------------------------------
/// The kind of storage an operand addresses.
#[derive(Clone, Copy, Debug, PartialEq, Eq, Structural)]
pub enum OperandType {
    Temp,
    Input,
    Output,
    IndexableTemp,
    Immediate32,
    Immediate64,
    Sampler,
    Resource,
    ConstantBuffer,
    ImmediateConstantBuffer,
    Label,
    InputPrimitiveId,
    OutputDepth,
    Null,
    Rasterizer,
    OutputCoverageMask,
    Stream,
    FunctionBody,
    FunctionTable,
    Interface,
    FunctionInput,
    FunctionOutput,
    OutputControlPointId,
    InputForkInstanceId,
    InputJoinInstanceId,
    InputControlPoint,
    OutputControlPoint,
    InputPatchConstant,
    InputDomainPoint,
    ThisPointer,
    UnorderedAccessView,
    ThreadGroupSharedMemory,
    InputThreadId,
    InputThreadGroupId,
    InputThreadIdInGroup,
    InputCoverageMask,
    InputThreadIdInGroupFlattened,
    InputGsinstanceid,
    OutputDepthGreaterEqual,
    OutputDepthLessEqual,
    CycleCounter,
}

/// The component-count class of an operand.
#[derive(Clone, Copy, Debug, PartialEq, Eq, Structural)]
pub enum NumComponents {
    Zero,
    One,
    Four,
    N,
}

/// One of the four lanes of a register.
#[derive(Clone, Copy, Debug, PartialEq, Eq, Structural)]
pub enum ComponentName {
    X,
    Y,
    Z,
    W,
}

/// Per-lane component reordering applied when reading a four-component
/// operand.
#[derive(Clone, Copy, Debug, PartialEq, Eq, Structural)]
pub struct ComponentSwizzle(
    pub ComponentName,
    pub ComponentName,
    pub ComponentName,
    pub ComponentName,
);

/// How the four-component payload of the operand token is interpreted.
#[derive(Clone, Copy, Debug, PartialEq, Eq, Structural)]
pub enum ComponentSelectMode {
    Mask,
    Swizzle,
    Select1,
}

/// The component selection of a four-component operand: a write mask, a
/// swizzle, or a single selected lane.
#[derive(Clone, Copy, Debug, PartialEq, Eq, Structural)]
pub enum ComponentSelection {
    Mask(u8),
    Swizzle(ComponentSwizzle),
    Select1(ComponentName),
}

/// Count of address components an operand needs.
#[derive(Clone, Copy, Debug, PartialEq, Eq, Structural)]
pub enum IndexDimension {
    D0,
    D1,
    D2,
    D3,
}

/// How one address component is encoded.
#[derive(Clone, Copy, Debug, PartialEq, Eq, Structural)]
pub enum IndexRepresentation {
    Immediate32,
    Immediate64,
    Relative,
    Immediate32PlusRelative,
    Immediate64PlusRelative,
}

/// The numeric modifier carried by an extended-operand token.
#[derive(Clone, Copy, Debug, PartialEq, Eq, Structural)]
pub enum OperandModifier {
    NoModifier,
    Neg,
    Abs,
    AbsNeg,
}

/// Conditional-test polarity of an opcode token.
#[derive(Clone, Copy, Debug, PartialEq, Eq, Structural)]
pub enum TestBoolean {
    Zero,
    NonZero,
}

/// How a constant buffer is indexed.
#[derive(Clone, Copy, Debug, PartialEq, Eq, Structural)]
pub enum ConstantBufferIndexPattern {
    Immediate,
    Dynamic,
}

/// The literal payload of an immediate operand: one or four components of
/// 32 or 64 bits.
#[derive(Clone, Copy, Debug, PartialEq, Eq, Structural)]
pub enum Immediate {
    U32x1(u32),
    U32x4(u32, u32, u32, u32),
    U64x1(u64),
    U64x4(u64, u64, u64, u64),
}

/// One address component of an operand. A relative index holds a nested
/// operand, recursively; recursion depth is bounded by the index dimension.
#[derive(Debug, PartialEq, Eq)]
pub enum OperandIndex {
    Immediate32(u32),
    Immediate64(u64),
    Relative(Box<Operand>),
    Immediate32PlusRelative(u32, Box<Operand>),
    Immediate64PlusRelative(u64, Box<Operand>),
}

/// The address components of an operand, one per index dimension.
#[derive(Debug, PartialEq, Eq)]
pub enum OperandIndices {
    D0,
    D1(OperandIndex),
    D2(OperandIndex, OperandIndex),
    D3(OperandIndex, OperandIndex, OperandIndex),
}

/// A fully decoded operand.
#[derive(Debug, PartialEq, Eq)]
pub struct Operand {
    pub operand_type: OperandType,
    pub num_components: NumComponents,
    pub selection: ComponentSelection,
    pub modifier: Option<OperandModifier>,
    pub indices: OperandIndices,
    pub immediate: Option<Immediate>,
}

// --- field codes ----------------------------------------------------------
/// The operand-type field value of each operand type.
pub open spec fn op_type_code(t: OperandType) -> u32 {
    match t {
        OperandType::Temp => 0,
        OperandType::Input => 1,
        OperandType::Output => 2,
        OperandType::IndexableTemp => 3,
        OperandType::Immediate32 => 4,
        OperandType::Immediate64 => 5,
        OperandType::Sampler => 6,
        OperandType::Resource => 7,
        OperandType::ConstantBuffer => 8,
        OperandType::ImmediateConstantBuffer => 9,
        OperandType::Label => 10,
        OperandType::InputPrimitiveId => 11,
        OperandType::OutputDepth => 12,
        OperandType::Null => 13,
        OperandType::Rasterizer => 14,
        OperandType::OutputCoverageMask => 15,
        OperandType::Stream => 16,
        OperandType::FunctionBody => 17,
        OperandType::FunctionTable => 18,
        OperandType::Interface => 19,
        OperandType::FunctionInput => 20,
        OperandType::FunctionOutput => 21,
        OperandType::OutputControlPointId => 22,
        OperandType::InputForkInstanceId => 23,
        OperandType::InputJoinInstanceId => 24,
        OperandType::InputControlPoint => 25,
        OperandType::OutputControlPoint => 26,
        OperandType::InputPatchConstant => 27,
        OperandType::InputDomainPoint => 28,
        OperandType::ThisPointer => 29,
        OperandType::UnorderedAccessView => 30,
        OperandType::ThreadGroupSharedMemory => 31,
        OperandType::InputThreadId => 32,
        OperandType::InputThreadGroupId => 33,
        OperandType::InputThreadIdInGroup => 34,
        OperandType::InputCoverageMask => 35,
        OperandType::InputThreadIdInGroupFlattened => 36,
        OperandType::InputGsinstanceid => 37,
        OperandType::OutputDepthGreaterEqual => 38,
        OperandType::OutputDepthLessEqual => 39,
        OperandType::CycleCounter => 40,
    }
}

/// The operand type denoted by an operand-type field value, if any.
pub open spec fn op_type_from(w: u32) -> Option<OperandType> {
    if w == 0 {
        Some(OperandType::Temp)
    } else if w == 1 {
        Some(OperandType::Input)
    } else if w == 2 {
        Some(OperandType::Output)
    } else if w == 3 {
        Some(OperandType::IndexableTemp)
    } else if w == 4 {
        Some(OperandType::Immediate32)
    } else if w == 5 {
        Some(OperandType::Immediate64)
    } else if w == 6 {
        Some(OperandType::Sampler)
    } else if w == 7 {
        Some(OperandType::Resource)
    } else if w == 8 {
        Some(OperandType::ConstantBuffer)
    } else if w == 9 {
        Some(OperandType::ImmediateConstantBuffer)
    } else if w == 10 {
        Some(OperandType::Label)
    } else if w == 11 {
        Some(OperandType::InputPrimitiveId)
    } else if w == 12 {
        Some(OperandType::OutputDepth)
    } else if w == 13 {
        Some(OperandType::Null)
    } else if w == 14 {
        Some(OperandType::Rasterizer)
    } else if w == 15 {
        Some(OperandType::OutputCoverageMask)
    } else if w == 16 {
        Some(OperandType::Stream)
    } else if w == 17 {
        Some(OperandType::FunctionBody)
    } else if w == 18 {
        Some(OperandType::FunctionTable)
    } else if w == 19 {
        Some(OperandType::Interface)
    } else if w == 20 {
        Some(OperandType::FunctionInput)
    } else if w == 21 {
        Some(OperandType::FunctionOutput)
    } else if w == 22 {
        Some(OperandType::OutputControlPointId)
    } else if w == 23 {
        Some(OperandType::InputForkInstanceId)
    } else if w == 24 {
        Some(OperandType::InputJoinInstanceId)
    } else if w == 25 {
        Some(OperandType::InputControlPoint)
    } else if w == 26 {
        Some(OperandType::OutputControlPoint)
    } else if w == 27 {
        Some(OperandType::InputPatchConstant)
    } else if w == 28 {
        Some(OperandType::InputDomainPoint)
    } else if w == 29 {
        Some(OperandType::ThisPointer)
    } else if w == 30 {
        Some(OperandType::UnorderedAccessView)
    } else if w == 31 {
        Some(OperandType::ThreadGroupSharedMemory)
    } else if w == 32 {
        Some(OperandType::InputThreadId)
    } else if w == 33 {
        Some(OperandType::InputThreadGroupId)
    } else if w == 34 {
        Some(OperandType::InputThreadIdInGroup)
    } else if w == 35 {
        Some(OperandType::InputCoverageMask)
    } else if w == 36 {
        Some(OperandType::InputThreadIdInGroupFlattened)
    } else if w == 37 {
        Some(OperandType::InputGsinstanceid)
    } else if w == 38 {
        Some(OperandType::OutputDepthGreaterEqual)
    } else if w == 39 {
        Some(OperandType::OutputDepthLessEqual)
    } else if w == 40 {
        Some(OperandType::CycleCounter)
    } else {
        None
    }
}

/// The operand-type field round-trips through its code.
pub proof fn lemma_op_type_code(t: OperandType)
    ensures
        op_type_code(t) < 41,
        op_type_from(op_type_code(t)) == Some(t),
{
}

/// The component-count class stored in the low two bits.
pub open spec fn nc_code(nc: NumComponents) -> u32 {
    match nc {
        NumComponents::Zero => 0,
        NumComponents::One => 1,
        NumComponents::Four => 2,
        NumComponents::N => 3,
    }
}

/// The component-count class denoted by a two-bit field value.
pub open spec fn nc_from(w: u32) -> NumComponents {
    if w == 0 {
        NumComponents::Zero
    } else if w == 1 {
        NumComponents::One
    } else if w == 2 {
        NumComponents::Four
    } else {
        NumComponents::N
    }
}

/// The literal component count of an immediate operand of each class. The
/// class of a declared-size operand contributes no literal payload.
pub open spec fn nc_count(nc: NumComponents) -> nat {
    match nc {
        NumComponents::Zero => 0,
        NumComponents::One => 1,
        NumComponents::Four => 4,
        NumComponents::N => 0,
    }
}

pub proof fn lemma_nc_code(nc: NumComponents)
    ensures
        nc_code(nc) < 4,
        nc_from(nc_code(nc)) == nc,
{
}

/// The two-bit lane code of a component name.
pub open spec fn cn_code(c: ComponentName) -> u32 {
    match c {
        ComponentName::X => 0,
        ComponentName::Y => 1,
        ComponentName::Z => 2,
        ComponentName::W => 3,
    }
}

/// The component name denoted by a two-bit lane code.
pub open spec fn cn_from(w: u32) -> ComponentName {
    if w == 0 {
        ComponentName::X
    } else if w == 1 {
        ComponentName::Y
    } else if w == 2 {
        ComponentName::Z
    } else {
        ComponentName::W
    }
}

pub proof fn lemma_cn_code(c: ComponentName)
    ensures
        cn_code(c) < 4,
        cn_from(cn_code(c)) == c,
{
}

/// The selection-mode field value of a component selection.
pub open spec fn sel_mode_code(s: ComponentSelection) -> u32 {
    match s {
        ComponentSelection::Mask(_) => 0,
        ComponentSelection::Swizzle(_) => 1,
        ComponentSelection::Select1(_) => 2,
    }
}

/// The mode-specific payload bits of a component selection.
pub open spec fn sel_payload(s: ComponentSelection) -> u32 {
    match s {
        ComponentSelection::Mask(m) => m as u32,
        ComponentSelection::Swizzle(ComponentSwizzle(x, y, z, w)) => pack_swizzle(
            cn_code(x),
            cn_code(y),
            cn_code(z),
            cn_code(w),
        ),
        ComponentSelection::Select1(c) => cn_code(c),
    }
}

/// The representation-selector value of an index.
pub open spec fn repr_code(ix: OperandIndex) -> u32 {
    match ix {
        OperandIndex::Immediate32(_) => 0,
        OperandIndex::Immediate64(_) => 1,
        OperandIndex::Relative(_) => 2,
        OperandIndex::Immediate32PlusRelative(_, _) => 3,
        OperandIndex::Immediate64PlusRelative(_, _) => 4,
    }
}

/// The modifier field value of a numeric modifier.
pub open spec fn modifier_code(m: OperandModifier) -> u32 {
    match m {
        OperandModifier::NoModifier => 0,
        OperandModifier::Neg => 1,
        OperandModifier::Abs => 2,
        OperandModifier::AbsNeg => 3,
    }
}

/// The numeric modifier denoted by a modifier field value, if any.
pub open spec fn modifier_from(w: u32) -> Option<OperandModifier> {
    if w == 0 {
        Some(OperandModifier::NoModifier)
    } else if w == 1 {
        Some(OperandModifier::Neg)
    } else if w == 2 {
        Some(OperandModifier::Abs)
    } else if w == 3 {
        Some(OperandModifier::AbsNeg)
    } else {
        None
    }
}

pub proof fn lemma_modifier_code(m: OperandModifier)
    ensures
        modifier_code(m) < 4,
        modifier_from(modifier_code(m)) == Some(m),
{
}

/// The index dimension of an operand's index list.
pub open spec fn dim_code(ixs: OperandIndices) -> u32 {
    match ixs {
        OperandIndices::D0 => 0,
        OperandIndices::D1(_) => 1,
        OperandIndices::D2(_, _) => 2,
        OperandIndices::D3(_, _, _) => 3,
    }
}

// --- well-formedness -------------------------------------------------------
/// Whether an immediate payload matches the operand type and component
/// class that describe it.
pub open spec fn imm_matches(imm: Immediate, t: OperandType, nc: NumComponents) -> bool {
    match imm {
        Immediate::U32x1(_) => t == OperandType::Immediate32 && nc == NumComponents::One,
        Immediate::U32x4(_, _, _, _) => t == OperandType::Immediate32 && nc
            == NumComponents::Four,
        Immediate::U64x1(_) => t == OperandType::Immediate64 && nc == NumComponents::One,
        Immediate::U64x4(_, _, _, _) => t == OperandType::Immediate64 && nc
            == NumComponents::Four,
    }
}

/// Whether an operand type carries a literal payload.
pub open spec fn is_immediate_type(t: OperandType) -> bool {
    t == OperandType::Immediate32 || t == OperandType::Immediate64
}

/// Structural validity of an operand: selection payloads are in range, a
/// non-four-component operand has the canonical empty mask, the literal
/// payload is present exactly when the operand is an immediate with no
/// index and a nonzero component count, and nested operands are valid in
/// turn.
pub open spec fn wf_operand(o: Operand) -> bool
    decreases o,
{
    &&& wf_selection(o.selection)
    &&& (o.num_components != NumComponents::Four ==> o.selection == ComponentSelection::Mask(0))
    &&& match o.immediate {
        Some(imm) => is_immediate_type(o.operand_type) && o.indices is D0 && imm_matches(
            imm,
            o.operand_type,
            o.num_components,
        ),
        None => !(is_immediate_type(o.operand_type) && o.indices is D0 && nc_count(
            o.num_components,
        ) > 0),
    }
    &&& wf_indices(o.indices)
}

pub open spec fn wf_selection(s: ComponentSelection) -> bool {
    match s {
        ComponentSelection::Mask(m) => m < 16,
        ComponentSelection::Swizzle(_) => true,
        ComponentSelection::Select1(_) => true,
    }
}

pub open spec fn wf_indices(ixs: OperandIndices) -> bool
    decreases ixs,
{
    match ixs {
        OperandIndices::D0 => true,
        OperandIndices::D1(a) => wf_index(a),
        OperandIndices::D2(a, b) => wf_index(a) && wf_index(b),
        OperandIndices::D3(a, b, c) => wf_index(a) && wf_index(b) && wf_index(c),
    }
}

pub open spec fn wf_index(ix: OperandIndex) -> bool
    decreases ix,
{
    match ix {
        OperandIndex::Immediate32(_) => true,
        OperandIndex::Immediate64(_) => true,
        OperandIndex::Relative(o) => wf_operand(*o),
        OperandIndex::Immediate32PlusRelative(_, o) => wf_operand(*o),
        OperandIndex::Immediate64PlusRelative(_, o) => wf_operand(*o),
    }
}

// --- spec encoder ----------------------------------------------------------
/// The low word of a 64-bit literal.
pub open spec fn lo_word(v: u64) -> u32 {
    (v & 0xffffffff) as u32
}

/// The high word of a 64-bit literal.
pub open spec fn hi_word(v: u64) -> u32 {
    ((v >> 32) & 0xffffffff) as u32
}

/// The words of a literal payload.
pub open spec fn enc_imm(imm: Immediate) -> Seq<u32> {
    match imm {
        Immediate::U32x1(a) => seq![a],
        Immediate::U32x4(a, b, c, d) => seq![a, b, c, d],
        Immediate::U64x1(v) => seq![lo_word(v), hi_word(v)],
        Immediate::U64x4(a, b, c, d) => seq![
            lo_word(a),
            hi_word(a),
            lo_word(b),
            hi_word(b),
            lo_word(c),
            hi_word(c),
            lo_word(d),
            hi_word(d),
        ],
    }
}

/// The representation selector stored for dimension `d`, zero where the
/// operand has no index at that dimension.
pub open spec fn repr_at(ixs: OperandIndices, d: u32) -> u32 {
    match ixs {
        OperandIndices::D0 => 0,
        OperandIndices::D1(a) => if d == 0 {
            repr_code(a)
        } else {
            0
        },
        OperandIndices::D2(a, b) => if d == 0 {
            repr_code(a)
        } else if d == 1 {
            repr_code(b)
        } else {
            0
        },
        OperandIndices::D3(a, b, c) => if d == 0 {
            repr_code(a)
        } else if d == 1 {
            repr_code(b)
        } else {
            repr_code(c)
        },
    }
}

/// The packed operand token of an operand.
pub open spec fn operand_token0_of(o: Operand) -> u32 {
    pack_operand_token(
        nc_code(o.num_components),
        sel_mode_code(o.selection),
        sel_payload(o.selection),
        op_type_code(o.operand_type),
        dim_code(o.indices),
        repr_at(o.indices, 0),
        repr_at(o.indices, 1),
        repr_at(o.indices, 2),
        if o.modifier is Some {
            1
        } else {
            0
        },
    )
}

/// The payload words of one index.
pub open spec fn enc_index(ix: OperandIndex) -> Seq<u32>
    decreases ix,
{
    match ix {
        OperandIndex::Immediate32(a) => seq![a],
        OperandIndex::Immediate64(v) => seq![lo_word(v), hi_word(v)],
        OperandIndex::Relative(o) => enc_operand(*o),
        OperandIndex::Immediate32PlusRelative(a, o) => seq![a] + enc_operand(*o),
        OperandIndex::Immediate64PlusRelative(v, o) => seq![lo_word(v), hi_word(v)] + enc_operand(
            *o,
        ),
    }
}

/// The payload words of all indices, in dimension order.
pub open spec fn enc_indices(ixs: OperandIndices) -> Seq<u32>
    decreases ixs,
{
    match ixs {
        OperandIndices::D0 => Seq::empty(),
        OperandIndices::D1(a) => enc_index(a),
        OperandIndices::D2(a, b) => enc_index(a) + enc_index(b),
        OperandIndices::D3(a, b, c) => enc_index(a) + enc_index(b) + enc_index(c),
    }
}

/// The full encoding of an operand: its token, the extended-operand token
/// when a modifier is present, the literal payload of an immediate, and
/// the index payloads.
pub open spec fn enc_operand(o: Operand) -> Seq<u32>
    decreases o,
{
    seq![operand_token0_of(o)] + (match o.modifier {
        Some(m) => seq![pack_ext_operand_token(modifier_code(m))],
        None => Seq::empty(),
    }) + (match o.immediate {
        Some(imm) => enc_imm(imm),
        None => Seq::empty(),
    }) + enc_indices(o.indices)
}

// --- spec parser -----------------------------------------------------------
/// Build an operand value from its parsed parts.
pub open spec fn mk_operand(
    ty: OperandType,
    nc: NumComponents,
    selection: ComponentSelection,
    modifier: Option<OperandModifier>,
    indices: OperandIndices,
    immediate: Option<Immediate>,
) -> Operand {
    Operand {
        operand_type: ty,
        num_components: nc,
        selection: selection,
        modifier: modifier,
        indices: indices,
        immediate: immediate,
    }
}

/// The component selection denoted by an operand token, if its fields are
/// within their defined ranges. A token whose class is not four-component
/// has no selection fields; its selection is the canonical empty mask.
pub open spec fn sel_from(w: u32) -> Option<ComponentSelection> {
    if nc_from(sp_operand_nc(w)) == NumComponents::Four {
        let m = sp_operand_selm(w);
        let p = sp_operand_sel(w);
        if m == 0 {
            if p < 16 {
                Some(ComponentSelection::Mask(p as u8))
            } else {
                None
            }
        } else if m == 1 {
            Some(
                ComponentSelection::Swizzle(
                    ComponentSwizzle(
                        cn_from(sp_swizzle_lane(p, 0)),
                        cn_from(sp_swizzle_lane(p, 1)),
                        cn_from(sp_swizzle_lane(p, 2)),
                        cn_from(sp_swizzle_lane(p, 3)),
                    ),
                ),
            )
        } else if m == 2 {
            if p < 4 {
                Some(ComponentSelection::Select1(cn_from(p)))
            } else {
                None
            }
        } else {
            None
        }
    } else {
        Some(ComponentSelection::Mask(0))
    }
}

/// Parse one operand at word position `pos`. The fuel bounds the nesting of
/// relative operands; any fuel of at least the remaining word count plus
/// one gives the definitive result (`lemma_parse_operand_fuel`).
pub open spec fn parse_operand(ws: Seq<u32>, pos: int, fuel: nat) -> Result<
    (Operand, int),
    DecodeError,
>
    decreases fuel, 0int,
{
    if fuel == 0 {
        Err(DecodeError::UnexpectedEof)
    } else if !(0 <= pos < ws.len()) {
        Err(DecodeError::UnexpectedEof)
    } else {
        let w = ws[pos];
        match op_type_from(sp_operand_type(w)) {
            Option::None => Err(DecodeError::Malformed),
            Option::Some(ty) => match sel_from(w) {
                Option::None => Err(DecodeError::Malformed),
                Option::Some(selection) => {
                    let nc = nc_from(sp_operand_nc(w));
                    if sp_operand_extended(w) {
                        if pos + 1 >= ws.len() {
                            Err(DecodeError::UnexpectedEof)
                        } else {
                            match modifier_from(sp_ext_operand_modifier(ws[pos + 1])) {
                                Option::None => Err(DecodeError::Malformed),
                                Option::Some(m) => parse_operand_body(
                                    ws,
                                    pos + 2,
                                    w,
                                    ty,
                                    nc,
                                    selection,
                                    Some(m),
                                    (fuel - 1) as nat,
                                ),
                            }
                        }
                    } else {
                        parse_operand_body(
                            ws,
                            pos + 1,
                            w,
                            ty,
                            nc,
                            selection,
                            Option::None,
                            (fuel - 1) as nat,
                        )
                    }
                },
            },
        }
    }
}

/// Parse the payload of an operand whose token is `w`, starting at `p`:
/// the literal payload of an immediate operand, or one index per
/// dimension.
pub open spec fn parse_operand_body(
    ws: Seq<u32>,
    p: int,
    w: u32,
    ty: OperandType,
    nc: NumComponents,
    selection: ComponentSelection,
    modifier: Option<OperandModifier>,
    fuel: nat,
) -> Result<(Operand, int), DecodeError>
    decreases fuel, 2int,
{
    let dim = sp_operand_dim(w);
    if dim == 0 {
        if is_immediate_type(ty) && nc_count(nc) > 0 {
            if ty == OperandType::Immediate32 {
                if nc_count(nc) == 1 {
                    if p + 1 <= ws.len() {
                        Ok(
                            (
                                mk_operand(
                                    ty,
                                    nc,
                                    selection,
                                    modifier,
                                    OperandIndices::D0,
                                    Some(Immediate::U32x1(ws[p])),
                                ),
                                p + 1,
                            ),
                        )
                    } else {
                        Err(DecodeError::UnexpectedEof)
                    }
                } else {
                    if p + 4 <= ws.len() {
                        Ok(
                            (
                                mk_operand(
                                    ty,
                                    nc,
                                    selection,
                                    modifier,
                                    OperandIndices::D0,
                                    Some(Immediate::U32x4(ws[p], ws[p + 1], ws[p + 2], ws[p + 3])),
                                ),
                                p + 4,
                            ),
                        )
                    } else {
                        Err(DecodeError::UnexpectedEof)
                    }
                }
            } else {
                if nc_count(nc) == 1 {
                    if p + 2 <= ws.len() {
                        Ok(
                            (
                                mk_operand(
                                    ty,
                                    nc,
                                    selection,
                                    modifier,
                                    OperandIndices::D0,
                                    Some(Immediate::U64x1(u64_from_words(ws[p], ws[p + 1]))),
                                ),
                                p + 2,
                            ),
                        )
                    } else {
                        Err(DecodeError::UnexpectedEof)
                    }
                } else {
                    if p + 8 <= ws.len() {
                        Ok(
                            (
                                mk_operand(
                                    ty,
                                    nc,
                                    selection,
                                    modifier,
                                    OperandIndices::D0,
                                    Some(
                                        Immediate::U64x4(
                                            u64_from_words(ws[p], ws[p + 1]),
                                            u64_from_words(ws[p + 2], ws[p + 3]),
                                            u64_from_words(ws[p + 4], ws[p + 5]),
                                            u64_from_words(ws[p + 6], ws[p + 7]),
                                        ),
                                    ),
                                ),
                                p + 8,
                            ),
                        )
                    } else {
                        Err(DecodeError::UnexpectedEof)
                    }
                }
            }
        } else {
            Ok((mk_operand(ty, nc, selection, modifier, OperandIndices::D0, Option::None), p))
        }
    } else if dim == 1 {
        match parse_index(ws, p, sp_operand_repr(w, 0), fuel) {
            Ok((a, p1)) => Ok(
                (mk_operand(ty, nc, selection, modifier, OperandIndices::D1(a), Option::None), p1),
            ),
            Err(e) => Err(e),
        }
    } else if dim == 2 {
        match parse_index(ws, p, sp_operand_repr(w, 0), fuel) {
            Ok((a, p1)) => match parse_index(ws, p1, sp_operand_repr(w, 1), fuel) {
                Ok((b, p2)) => Ok(
                    (
                        mk_operand(
                            ty,
                            nc,
                            selection,
                            modifier,
                            OperandIndices::D2(a, b),
                            Option::None,
                        ),
                        p2,
                    ),
                ),
                Err(e) => Err(e),
            },
            Err(e) => Err(e),
        }
    } else {
        match parse_index(ws, p, sp_operand_repr(w, 0), fuel) {
            Ok((a, p1)) => match parse_index(ws, p1, sp_operand_repr(w, 1), fuel) {
                Ok((b, p2)) => match parse_index(ws, p2, sp_operand_repr(w, 2), fuel) {
                    Ok((c, p3)) => Ok(
                        (
                            mk_operand(
                                ty,
                                nc,
                                selection,
                                modifier,
                                OperandIndices::D3(a, b, c),
                                Option::None,
                            ),
                            p3,
                        ),
                    ),
                    Err(e) => Err(e),
                },
                Err(e) => Err(e),
            },
            Err(e) => Err(e),
        }
    }
}

/// Parse one index with representation selector `repr` at position `p`.
pub open spec fn parse_index(ws: Seq<u32>, p: int, repr: u32, fuel: nat) -> Result<
    (OperandIndex, int),
    DecodeError,
>
    decreases fuel, 1int,
{
    if repr == 0 {
        if 0 <= p && p + 1 <= ws.len() {
            Ok((OperandIndex::Immediate32(ws[p]), p + 1))
        } else {
            Err(DecodeError::UnexpectedEof)
        }
    } else if repr == 1 {
        if 0 <= p && p + 2 <= ws.len() {
            Ok((OperandIndex::Immediate64(u64_from_words(ws[p], ws[p + 1])), p + 2))
        } else {
            Err(DecodeError::UnexpectedEof)
        }
    } else if repr == 2 {
        match parse_operand(ws, p, fuel) {
            Ok((o, p2)) => Ok((OperandIndex::Relative(Box::new(o)), p2)),
            Err(e) => Err(e),
        }
    } else if repr == 3 {
        if 0 <= p && p + 1 <= ws.len() {
            match parse_operand(ws, p + 1, fuel) {
                Ok((o, p2)) => Ok((OperandIndex::Immediate32PlusRelative(ws[p], Box::new(o)), p2)),
                Err(e) => Err(e),
            }
        } else {
            Err(DecodeError::UnexpectedEof)
        }
    } else if repr == 4 {
        if 0 <= p && p + 2 <= ws.len() {
            match parse_operand(ws, p + 2, fuel) {
                Ok(
                    (o, p2),
                ) => Ok(
                    (
                        OperandIndex::Immediate64PlusRelative(
                            u64_from_words(ws[p], ws[p + 1]),
                            Box::new(o),
                        ),
                        p2,
                    ),
                ),
                Err(e) => Err(e),
            }
        } else {
            Err(DecodeError::UnexpectedEof)
        }
    } else {
        Err(DecodeError::Malformed)
    }
}

/// A successful operand parse consumes at least one word and stays within
/// the buffer.
pub proof fn lemma_parse_operand_pos(ws: Seq<u32>, pos: int, fuel: nat)
    ensures
        parse_operand(ws, pos, fuel) matches Ok((o, p2)) ==> pos + 1 <= p2 <= ws.len(),
    decreases fuel, 0int,
{
    if fuel > 0 && 0 <= pos < ws.len() {
        let w = ws[pos];
        match op_type_from(sp_operand_type(w)) {
            Option::None => {},
            Option::Some(ty) => match sel_from(w) {
                Option::None => {},
                Option::Some(selection) => {
                    let nc = nc_from(sp_operand_nc(w));
                    if sp_operand_extended(w) {
                        if pos + 1 < ws.len() {
                            match modifier_from(sp_ext_operand_modifier(ws[pos + 1])) {
                                Option::None => {},
                                Option::Some(m) => {
                                    lemma_parse_operand_body_pos(
                                        ws,
                                        pos + 2,
                                        w,
                                        ty,
                                        nc,
                                        selection,
                                        Some(m),
                                        (fuel - 1) as nat,
                                    );
                                },
                            }
                        }
                    } else {
                        lemma_parse_operand_body_pos(
                            ws,
                            pos + 1,
                            w,
                            ty,
                            nc,
                            selection,
                            Option::None,
                            (fuel - 1) as nat,
                        );
                    }
                },
            },
        }
    }
}

/// A successful operand-body parse never retreats and stays within the
/// buffer when it starts within it.
pub proof fn lemma_parse_operand_body_pos(
    ws: Seq<u32>,
    p: int,
    w: u32,
    ty: OperandType,
    nc: NumComponents,
    selection: ComponentSelection,
    modifier: Option<OperandModifier>,
    fuel: nat,
)
    ensures
        parse_operand_body(ws, p, w, ty, nc, selection, modifier, fuel) matches Ok((o, p2)) ==> p
            <= p2 <= ws.len() || !(p <= ws.len()),
    decreases fuel, 2int,
{
    lemma_parse_index_pos(ws, p, sp_operand_repr(w, 0), fuel);
    {
        let dim = sp_operand_dim(w);
        if dim == 2 {
            match parse_index(ws, p, sp_operand_repr(w, 0), fuel) {
                Ok((a, p1)) => {
                    lemma_parse_index_pos(ws, p1, sp_operand_repr(w, 1), fuel);
                },
                Err(_) => {},
            }
        } else if dim != 0 && dim != 1 {
            match parse_index(ws, p, sp_operand_repr(w, 0), fuel) {
                Ok((a, p1)) => {
                    lemma_parse_index_pos(ws, p1, sp_operand_repr(w, 1), fuel);
                    match parse_index(ws, p1, sp_operand_repr(w, 1), fuel) {
                        Ok((b, p2x)) => {
                            lemma_parse_index_pos(ws, p2x, sp_operand_repr(w, 2), fuel);
                        },
                        Err(_) => {},
                    }
                },
                Err(_) => {},
            }
        }
    }
}

/// A successful index parse consumes at least one word and stays within
/// the buffer.
pub proof fn lemma_parse_index_pos(ws: Seq<u32>, p: int, repr: u32, fuel: nat)
    ensures
        parse_index(ws, p, repr, fuel) matches Ok((ix, p2)) ==> p + 1 <= p2 <= ws.len(),
    decreases fuel, 1int,
{
    if repr == 2 {
        lemma_parse_operand_pos(ws, p, fuel);
    } else if repr == 3 {
        lemma_parse_operand_pos(ws, p + 1, fuel);
    } else if repr == 4 {
        lemma_parse_operand_pos(ws, p + 2, fuel);
    }
}

/// Any fuel of at least the remaining word count plus one yields the same
/// parse result: the parse is fuel-independent once the fuel covers the
/// buffer.
pub proof fn lemma_parse_operand_fuel(ws: Seq<u32>, pos: int, f1: nat, f2: nat)
    requires
        f1 >= ws.len() - pos + 1,
        f2 >= ws.len() - pos + 1,
    ensures
        parse_operand(ws, pos, f1) == parse_operand(ws, pos, f2),
    decreases f1, 0int,
{
    if f1 == 0 || f2 == 0 {
    } else if 0 <= pos < ws.len() {
        let w = ws[pos];
        match op_type_from(sp_operand_type(w)) {
            Option::None => {},
            Option::Some(ty) => match sel_from(w) {
                Option::None => {},
                Option::Some(selection) => {
                    let nc = nc_from(sp_operand_nc(w));
                    if sp_operand_extended(w) {
                        if pos + 1 < ws.len() {
                            match modifier_from(sp_ext_operand_modifier(ws[pos + 1])) {
                                Option::None => {},
                                Option::Some(m) => {
                                    lemma_parse_operand_body_fuel(
                                        ws,
                                        pos + 2,
                                        w,
                                        ty,
                                        nc,
                                        selection,
                                        Some(m),
                                        (f1 - 1) as nat,
                                        (f2 - 1) as nat,
                                    );
                                },
                            }
                        }
                    } else {
                        lemma_parse_operand_body_fuel(
                            ws,
                            pos + 1,
                            w,
                            ty,
                            nc,
                            selection,
                            Option::None,
                            (f1 - 1) as nat,
                            (f2 - 1) as nat,
                        );
                    }
                },
            },
        }
    }
}

pub proof fn lemma_parse_operand_body_fuel(
    ws: Seq<u32>,
    p: int,
    w: u32,
    ty: OperandType,
    nc: NumComponents,
    selection: ComponentSelection,
    modifier: Option<OperandModifier>,
    f1: nat,
    f2: nat,
)
    requires
        f1 >= ws.len() - p + 1,
        f2 >= ws.len() - p + 1,
    ensures
        parse_operand_body(ws, p, w, ty, nc, selection, modifier, f1) == parse_operand_body(
            ws,
            p,
            w,
            ty,
            nc,
            selection,
            modifier,
            f2,
        ),
    decreases f1, 2int,
{
    let r0 = sp_operand_repr(w, 0);
    let r1 = sp_operand_repr(w, 1);
    let r2 = sp_operand_repr(w, 2);
    lemma_parse_index_fuel(ws, p, r0, f1, f2);
    lemma_parse_index_pos(ws, p, r0, f1);
    match parse_index(ws, p, r0, f1) {
        Ok((a, p1)) => {
            lemma_parse_index_fuel(ws, p1, r1, f1, f2);
            lemma_parse_index_pos(ws, p1, r1, f1);
            match parse_index(ws, p1, r1, f1) {
                Ok((b, p2)) => {
                    lemma_parse_index_fuel(ws, p2, r2, f1, f2);
                },
                Err(_) => {},
            }
        },
        Err(_) => {},
    }
}

pub proof fn lemma_parse_index_fuel(ws: Seq<u32>, p: int, repr: u32, f1: nat, f2: nat)
    requires
        f1 >= ws.len() - p + 1,
        f2 >= ws.len() - p + 1,
    ensures
        parse_index(ws, p, repr, f1) == parse_index(ws, p, repr, f2),
    decreases f1, 1int,
{
    if repr == 2 {
        lemma_parse_operand_fuel(ws, p, f1, f2);
    } else if repr == 3 {
        lemma_parse_operand_fuel(ws, p + 1, f1, f2);
    } else if repr == 4 {
        lemma_parse_operand_fuel(ws, p + 2, f1, f2);
    }
}

/// The fuel that always suffices at position `pos`: the remaining word
/// count plus one.
pub open spec fn fuel_for(ws: Seq<u32>, pos: int) -> nat {
    if ws.len() + 1 - pos >= 1 {
        (ws.len() + 1 - pos) as nat
    } else {
        1
    }
}

/// The definitive operand parse at a position: the fuel-independent result.
/// Opaque so that instruction-level proofs reason through the round-trip
/// and position lemmas alone.
#[verifier::opaque]
pub open spec fn parse_operand_at(ws: Seq<u32>, pos: int) -> Result<(Operand, int), DecodeError> {
    parse_operand(ws, pos, fuel_for(ws, pos))
}

// --- operand round trip -----------------------------------------------------
/// Splitting a subrange known to equal a concatenation.
pub proof fn lemma_subrange_concat(ws: Seq<u32>, pos: int, s1: Seq<u32>, s2: Seq<u32>)
    requires
        0 <= pos,
        pos + s1.len() + s2.len() <= ws.len(),
        ws.subrange(pos, pos + s1.len() + s2.len()) == s1 + s2,
    ensures
        ws.subrange(pos, pos + s1.len() as int) =~= s1,
        ws.subrange(pos + s1.len() as int, pos + s1.len() + s2.len()) =~= s2,
{
    let whole = ws.subrange(pos, pos + s1.len() + s2.len());
    assert forall|i: int| 0 <= i < s1.len() implies ws.subrange(pos, pos + s1.len() as int)[i]
        == s1[i] by {
        assert(whole[i] == (s1 + s2)[i]);
    }
    assert forall|i: int| 0 <= i < s2.len() implies ws.subrange(
        pos + s1.len() as int,
        pos + s1.len() + s2.len(),
    )[i] == s2[i] by {
        assert(whole[s1.len() + i] == (s1 + s2)[s1.len() + i]);
    }
}

/// Parsing the encoding of a well-formed operand yields that operand and
/// consumes exactly its encoded length.
#[verifier::rlimit(100)]
#[verifier::spinoff_prover]
pub proof fn lemma_operand_round_trip(ws: Seq<u32>, pos: int, o: Operand, fuel: nat)
    requires
        wf_operand(o),
        0 <= pos,
        pos + enc_operand(o).len() <= ws.len(),
        ws.subrange(pos, pos + enc_operand(o).len() as int) == enc_operand(o),
        fuel >= ws.len() - pos + 1,
    ensures
        parse_operand(ws, pos, fuel) == Ok::<(Operand, int), DecodeError>(
            (o, pos + enc_operand(o).len()),
        ),
    decreases o, 1int,
{
    let e = enc_operand(o);
    let w = operand_token0_of(o);
    let ncc = nc_code(o.num_components);
    let selm = sel_mode_code(o.selection);
    let selp = sel_payload(o.selection);
    let tyc = op_type_code(o.operand_type);
    let dim = dim_code(o.indices);
    let r0 = repr_at(o.indices, 0);
    let r1 = repr_at(o.indices, 1);
    let r2 = repr_at(o.indices, 2);
    let extb: u32 = if o.modifier is Some {
        1
    } else {
        0
    };
    lemma_nc_code(o.num_components);
    lemma_op_type_code(o.operand_type);
    proof_sel_payload_range(o.selection);
    assert(r0 < 8 && r1 < 8 && r2 < 8) by {
        reveal_repr_range(o.indices);
    }
    lemma_operand_token_fields(ncc, selm, selp, tyc, dim, r0, r1, r2, extb);
    assert(ws[pos] == e[0]);
    assert(e[0] == w);
    // the token's fields decode to the operand's parts
    assert(op_type_from(sp_operand_type(w)) == Some(o.operand_type));
    assert(nc_from(sp_operand_nc(w)) == o.num_components);
    proof_sel_from_token(o.selection, o.num_components, w);
    let ext_words: Seq<u32> = match o.modifier {
        Some(m) => seq![pack_ext_operand_token(modifier_code(m))],
        None => Seq::empty(),
    };
    let imm_words: Seq<u32> = match o.immediate {
        Some(imm) => enc_imm(imm),
        None => Seq::empty(),
    };
    let idx_words = enc_indices(o.indices);
    assert(e == seq![w] + ext_words + imm_words + idx_words);
    // split the encoding into its parts
    lemma_subrange_concat(ws, pos, seq![w] + ext_words + imm_words, idx_words);
    lemma_subrange_concat(ws, pos, seq![w] + ext_words, imm_words);
    lemma_subrange_concat(ws, pos, seq![w], ext_words);
    let body_pos = pos + 1 + ext_words.len();
    // the extended-operand token decodes to the modifier
    match o.modifier {
        Some(m) => {
            assert(sp_operand_extended(w));
            lemma_modifier_code(m);
            lemma_ext_operand_token_fields(modifier_code(m));
            assert(ws[pos + 1] == ext_words[0]);
            assert(modifier_from(sp_ext_operand_modifier(ws[pos + 1])) == Some(m));
        },
        None => {
            assert(!sp_operand_extended(w));
        },
    }
    lemma_operand_body_round_trip(ws, body_pos as int, w, o, (fuel - 1) as nat);
    assert(parse_operand(ws, pos, fuel) == parse_operand_body(
        ws,
        body_pos as int,
        w,
        o.operand_type,
        o.num_components,
        o.selection,
        o.modifier,
        (fuel - 1) as nat,
    ));
}

/// The selection payload fits its eight-bit field.
pub proof fn proof_sel_payload_range(s: ComponentSelection)
    requires
        wf_selection(s),
    ensures
        sel_payload(s) < 256,
        sel_mode_code(s) < 3,
{
    match s {
        ComponentSelection::Mask(_) => {},
        ComponentSelection::Swizzle(ComponentSwizzle(x, y, z, w)) => {
            lemma_cn_code(x);
            lemma_cn_code(y);
            lemma_cn_code(z);
            lemma_cn_code(w);
            lemma_swizzle_fields(cn_code(x), cn_code(y), cn_code(z), cn_code(w));
        },
        ComponentSelection::Select1(c) => {
            lemma_cn_code(c);
        },
    }
}

/// The representation selectors of an index list are in range.
pub proof fn reveal_repr_range(ixs: OperandIndices)
    ensures
        repr_at(ixs, 0) < 5,
        repr_at(ixs, 1) < 5,
        repr_at(ixs, 2) < 5,
{
}

/// The selection of a well-formed operand is recovered from its packed
/// token.
pub proof fn proof_sel_from_token(s: ComponentSelection, nc: NumComponents, w: u32)
    requires
        wf_selection(s),
        nc != NumComponents::Four ==> s == ComponentSelection::Mask(0),
        nc_from(sp_operand_nc(w)) == nc,
        sp_operand_selm(w) == sel_mode_code(s),
        sp_operand_sel(w) == sel_payload(s),
    ensures
        sel_from(w) == Some(s),
{
    if nc == NumComponents::Four {
        match s {
            ComponentSelection::Mask(m) => {
                assert(sel_payload(s) == m as u32);
            },
            ComponentSelection::Swizzle(ComponentSwizzle(x, y, z, cw)) => {
                lemma_cn_code(x);
                lemma_cn_code(y);
                lemma_cn_code(z);
                lemma_cn_code(cw);
                lemma_swizzle_fields(cn_code(x), cn_code(y), cn_code(z), cn_code(cw));
            },
            ComponentSelection::Select1(c) => {
                lemma_cn_code(c);
            },
        }
    }
}

/// Parsing the payload of a well-formed operand after its tokens yields the
/// operand's parts and consumes exactly the remaining encoded words.
#[verifier::rlimit(100)]
#[verifier::spinoff_prover]
pub proof fn lemma_operand_body_round_trip(ws: Seq<u32>, p: int, w: u32, o: Operand, fuel: nat)
    requires
        wf_operand(o),
        w == operand_token0_of(o),
        0 <= p,
        sp_operand_dim(w) == dim_code(o.indices),
        sp_operand_repr(w, 0) == repr_at(o.indices, 0),
        sp_operand_repr(w, 1) == repr_at(o.indices, 1),
        sp_operand_repr(w, 2) == repr_at(o.indices, 2),
        p + enc_imm_opt(o.immediate).len() + enc_indices(o.indices).len() <= ws.len(),
        ws.subrange(
            p,
            p + enc_imm_opt(o.immediate).len() + enc_indices(o.indices).len(),
        ) == enc_imm_opt(o.immediate) + enc_indices(o.indices),
        fuel >= ws.len() - p + 1,
    ensures
        parse_operand_body(
            ws,
            p,
            w,
            o.operand_type,
            o.num_components,
            o.selection,
            o.modifier,
            fuel,
        ) == Ok::<(Operand, int), DecodeError>(
            (o, p + enc_imm_opt(o.immediate).len() + enc_indices(o.indices).len()),
        ),
    decreases o, 0int,
{
    let imm_words = enc_imm_opt(o.immediate);
    let idx_words = enc_indices(o.indices);
    lemma_subrange_concat(ws, p, imm_words, idx_words);
    let dim = dim_code(o.indices);
    if dim == 0 {
        assert(idx_words =~= Seq::empty());
        match o.immediate {
            Some(imm) => {
                assert(is_immediate_type(o.operand_type));
                match imm {
                    Immediate::U32x1(a) => {
                        assert(ws[p] == imm_words[0]);
                    },
                    Immediate::U32x4(a, b, c, d) => {
                        assert(ws[p] == imm_words[0] && ws[p + 1] == imm_words[1] && ws[p + 2]
                            == imm_words[2] && ws[p + 3] == imm_words[3]);
                    },
                    Immediate::U64x1(v) => {
                        assert(ws[p] == imm_words[0] && ws[p + 1] == imm_words[1]);
                        lemma_u64_split_round_trip(v);
                    },
                    Immediate::U64x4(a, b, c, d) => {
                        assert(ws[p] == imm_words[0] && ws[p + 1] == imm_words[1] && ws[p + 2]
                            == imm_words[2] && ws[p + 3] == imm_words[3] && ws[p + 4]
                            == imm_words[4] && ws[p + 5] == imm_words[5] && ws[p + 6]
                            == imm_words[6] && ws[p + 7] == imm_words[7]);
                        lemma_u64_split_round_trip(a);
                        lemma_u64_split_round_trip(b);
                        lemma_u64_split_round_trip(c);
                        lemma_u64_split_round_trip(d);
                    },
                }
                assert(parse_operand_body(
                    ws,
                    p,
                    w,
                    o.operand_type,
                    o.num_components,
                    o.selection,
                    o.modifier,
                    fuel,
                ) == Ok::<(Operand, int), DecodeError>((o, p + imm_words.len() as int)));
            },
            None => {
                assert(imm_words =~= Seq::empty());
                assert(o == mk_operand(
                    o.operand_type,
                    o.num_components,
                    o.selection,
                    o.modifier,
                    OperandIndices::D0,
                    Option::<Immediate>::None,
                ));
            },
        }
    } else {
        assert(imm_words =~= Seq::empty());
        assert(ws.subrange(p, p + idx_words.len() as int) == idx_words);
        match o.indices {
            OperandIndices::D0 => {},
            OperandIndices::D1(a) => {
                assert(idx_words == enc_index(a));
                lemma_index_round_trip(ws, p, a, fuel);
                assert(o == mk_operand(
                    o.operand_type,
                    o.num_components,
                    o.selection,
                    o.modifier,
                    OperandIndices::D1(a),
                    Option::<Immediate>::None,
                ));
            },
            OperandIndices::D2(a, b) => {
                assert(idx_words == enc_index(a) + enc_index(b));
                lemma_subrange_concat(ws, p, enc_index(a), enc_index(b));
                lemma_index_round_trip(ws, p, a, fuel);
                let p1 = p + enc_index(a).len();
                lemma_index_round_trip(ws, p1 as int, b, fuel);
                assert(o == mk_operand(
                    o.operand_type,
                    o.num_components,
                    o.selection,
                    o.modifier,
                    OperandIndices::D2(a, b),
                    Option::<Immediate>::None,
                ));
            },
            OperandIndices::D3(a, b, c) => {
                assert(idx_words == enc_index(a) + enc_index(b) + enc_index(c));
                lemma_subrange_concat(ws, p, enc_index(a) + enc_index(b), enc_index(c));
                lemma_subrange_concat(ws, p, enc_index(a), enc_index(b));
                lemma_index_round_trip(ws, p, a, fuel);
                let p1 = p + enc_index(a).len();
                lemma_index_round_trip(ws, p1 as int, b, fuel);
                let p2 = p1 + enc_index(b).len();
                lemma_index_round_trip(ws, p2 as int, c, fuel);
                assert(o == mk_operand(
                    o.operand_type,
                    o.num_components,
                    o.selection,
                    o.modifier,
                    OperandIndices::D3(a, b, c),
                    Option::<Immediate>::None,
                ));
            },
        }
    }
}

/// The words of an optional literal payload.
pub open spec fn enc_imm_opt(imm: Option<Immediate>) -> Seq<u32> {
    match imm {
        Some(i) => enc_imm(i),
        None => Seq::empty(),
    }
}

/// A 64-bit literal is recovered from its encoded word pair.
pub proof fn lemma_u64_split_round_trip(v: u64)
    ensures
        u64_from_words(lo_word(v), hi_word(v)) == v,
{
    crate::bits::lemma_u64_words_round_trip(v);
}

/// Parsing the encoding of a well-formed index yields that index and
/// consumes exactly its encoded length.
pub proof fn lemma_index_round_trip(ws: Seq<u32>, p: int, ix: OperandIndex, fuel: nat)
    requires
        wf_index(ix),
        0 <= p,
        p + enc_index(ix).len() <= ws.len(),
        ws.subrange(p, p + enc_index(ix).len() as int) == enc_index(ix),
        fuel >= ws.len() - p + 1,
    ensures
        parse_index(ws, p, repr_code(ix), fuel) == Ok::<(OperandIndex, int), DecodeError>(
            (ix, p + enc_index(ix).len()),
        ),
    decreases ix, 2int,
{
    match ix {
        OperandIndex::Immediate32(a) => {
            assert(ws[p] == enc_index(ix)[0]);
        },
        OperandIndex::Immediate64(v) => {
            assert(ws[p] == enc_index(ix)[0] && ws[p + 1] == enc_index(ix)[1]);
            lemma_u64_split_round_trip(v);
        },
        OperandIndex::Relative(bo) => {
            lemma_operand_round_trip(ws, p, *bo, fuel);
        },
        OperandIndex::Immediate32PlusRelative(a, bo) => {
            lemma_subrange_concat(ws, p, seq![a], enc_operand(*bo));
            assert(ws[p] == enc_index(ix)[0]);
            lemma_operand_round_trip(ws, p + 1, *bo, fuel);
        },
        OperandIndex::Immediate64PlusRelative(v, bo) => {
            lemma_subrange_concat(ws, p, seq![lo_word(v), hi_word(v)], enc_operand(*bo));
            assert(ws[p] == enc_index(ix)[0] && ws[p + 1] == enc_index(ix)[1]);
            lemma_u64_split_round_trip(v);
            lemma_operand_round_trip(ws, p + 2, *bo, fuel);
        },
    }
}

// --- instruction model ------------------------------------------------------
/// A global-flags declaration. The flags live in bits 11..24 of the opcode
/// token.
#[derive(Clone, Copy, Debug, PartialEq, Eq, Structural)]
pub struct DclGlobalFlags {
    pub global_flags: u32,
}

/// An input-register declaration.
#[derive(Debug, PartialEq, Eq)]
pub struct DclInput {
    pub operand: Operand,
}

/// An output-register declaration.
#[derive(Debug, PartialEq, Eq)]
pub struct DclOutput {
    pub operand: Operand,
}

/// A constant-buffer declaration. The access pattern lives in bit 11 of the
/// opcode token.
#[derive(Debug, PartialEq, Eq)]
pub struct DclConstantBuffer {
    pub operand: Operand,
    pub access: ConstantBufferIndexPattern,
}

/// A temporary-register-count declaration. Its one operand word is the
/// register count.
#[derive(Clone, Copy, Debug, PartialEq, Eq, Structural)]
pub struct DclTemps {
    pub register_count: u32,
}

/// An output declaration bound to a system-interpreted value.
#[derive(Debug, PartialEq, Eq)]
pub struct DclOutputSiv {
    pub operand: Operand,
    pub operand_2: Operand,
}

/// An output declaration bound to a system-generated value.
#[derive(Debug, PartialEq, Eq)]
pub struct DclOutputSgv {
    pub operand: Operand,
    pub operand_2: Operand,
}

/// A component-wise addition.
#[derive(Debug, PartialEq, Eq)]
pub struct Add {
    pub saturated: bool,
    pub dst: Operand,
    pub a: Operand,
    pub b: Operand,
}

/// A component-wise multiplication.
#[derive(Debug, PartialEq, Eq)]
pub struct Mul {
    pub saturated: bool,
    pub dst: Operand,
    pub a: Operand,
    pub b: Operand,
}

/// A fused multiply-add.
#[derive(Debug, PartialEq, Eq)]
pub struct Mad {
    pub saturated: bool,
    pub dst: Operand,
    pub a: Operand,
    pub b: Operand,
    pub c: Operand,
}

/// A register move.
#[derive(Debug, PartialEq, Eq)]
pub struct Mov {
    pub saturated: bool,
    pub dst: Operand,
    pub src: Operand,
}

/// A texture sample with an explicit level of detail.
#[derive(Debug, PartialEq, Eq)]
pub struct SampleL {
    pub saturated: bool,
    pub dst: Operand,
    pub src_address: Operand,
    pub src_resource: Operand,
    pub src_sampler: Operand,
    pub src_lod: Operand,
}

/// One decoded instruction. An opcode type outside the modeled set decodes
/// to `Unknown`, carrying the raw opcode word, the opcode-type field, and
/// the declared dword length; its body words are skipped, not kept, so an
/// opaque instruction cannot be re-encoded.
#[derive(Debug, PartialEq, Eq)]
pub enum Instruction {
    DclGlobalFlags(DclGlobalFlags),
    DclInput(DclInput),
    DclOutput(DclOutput),
    DclConstantBuffer(DclConstantBuffer),
    DclTemps(DclTemps),
    DclOutputSiv(DclOutputSiv),
    DclOutputSgv(DclOutputSgv),
    Add(Add),
    Mul(Mul),
    Mad(Mad),
    Mov(Mov),
    SampleL(SampleL),
    Ret,
    Unknown(u32, u32, u32),
}

/// The saturate bit of an opcode token's payload.
pub open spec fn sat_bits(s: bool) -> u32 {
    if s {
        0x2000
    } else {
        0
    }
}

/// The access-pattern bit of a constant-buffer declaration's opcode token.
pub open spec fn cb_access_bits(p: ConstantBufferIndexPattern) -> u32 {
    match p {
        ConstantBufferIndexPattern::Immediate => 0,
        ConstantBufferIndexPattern::Dynamic => 0x800,
    }
}

/// The encoding of an instruction: its opcode token, whose declared length
/// counts every word of the instruction, followed by its operands in
/// canonical order.
pub open spec fn enc_instruction(i: Instruction) -> Seq<u32> {
    match i {
        Instruction::DclGlobalFlags(d) => seq![
            pack_opcode_token(OPCODE_DCL_GLOBAL_FLAGS, d.global_flags, 1, 0),
        ],
        Instruction::DclInput(d) => {
            let body = enc_operand(d.operand);
            seq![pack_opcode_token(OPCODE_DCL_INPUT, 0, (1 + body.len()) as u32, 0)] + body
        },
        Instruction::DclOutput(d) => {
            let body = enc_operand(d.operand);
            seq![pack_opcode_token(OPCODE_DCL_OUTPUT, 0, (1 + body.len()) as u32, 0)] + body
        },
        Instruction::DclConstantBuffer(d) => {
            let body = enc_operand(d.operand);
            seq![
                pack_opcode_token(
                    OPCODE_DCL_CONSTANT_BUFFER,
                    cb_access_bits(d.access),
                    (1 + body.len()) as u32,
                    0,
                ),
            ] + body
        },
        Instruction::DclTemps(d) => seq![
            pack_opcode_token(OPCODE_DCL_TEMPS, 0, 2, 0),
            d.register_count,
        ],
        Instruction::DclOutputSiv(d) => {
            let body = enc_operand(d.operand) + enc_operand(d.operand_2);
            seq![pack_opcode_token(OPCODE_DCL_OUTPUT_SIV, 0, (1 + body.len()) as u32, 0)] + body
        },
        Instruction::DclOutputSgv(d) => {
            let body = enc_operand(d.operand) + enc_operand(d.operand_2);
            seq![pack_opcode_token(OPCODE_DCL_OUTPUT_SGV, 0, (1 + body.len()) as u32, 0)] + body
        },
        Instruction::Add(d) => {
            let body = enc_operand(d.dst) + enc_operand(d.a) + enc_operand(d.b);
            seq![
                pack_opcode_token(OPCODE_ADD, sat_bits(d.saturated), (1 + body.len()) as u32, 0),
            ] + body
        },
        Instruction::Mul(d) => {
            let body = enc_operand(d.dst) + enc_operand(d.a) + enc_operand(d.b);
            seq![
                pack_opcode_token(OPCODE_MUL, sat_bits(d.saturated), (1 + body.len()) as u32, 0),
            ] + body
        },
        Instruction::Mad(d) => {
            let body = enc_operand(d.dst) + enc_operand(d.a) + enc_operand(d.b) + enc_operand(
                d.c,
            );
            seq![
                pack_opcode_token(OPCODE_MAD, sat_bits(d.saturated), (1 + body.len()) as u32, 0),
            ] + body
        },
        Instruction::Mov(d) => {
            let body = enc_operand(d.dst) + enc_operand(d.src);
            seq![
                pack_opcode_token(OPCODE_MOV, sat_bits(d.saturated), (1 + body.len()) as u32, 0),
            ] + body
        },
        Instruction::SampleL(d) => {
            let body = enc_operand(d.dst) + enc_operand(d.src_address) + enc_operand(
                d.src_resource,
            ) + enc_operand(d.src_sampler) + enc_operand(d.src_lod);
            seq![
                pack_opcode_token(
                    OPCODE_SAMPLE_L,
                    sat_bits(d.saturated),
                    (1 + body.len()) as u32,
                    0,
                ),
            ] + body
        },
        Instruction::Ret => seq![pack_opcode_token(OPCODE_RET, 0, 1, 0)],
        Instruction::Unknown(w, _, _) => seq![w],
    }
}

/// Structural validity of an instruction: its operands are well-formed,
/// opcode-specific payloads fit their fields, the whole encoding fits the
/// seven-bit declared-length field, and the instruction is not opaque.
pub open spec fn wf_instruction(i: Instruction) -> bool {
    &&& enc_instruction(i).len() < 128
    &&& match i {
        Instruction::DclGlobalFlags(d) => d.global_flags == d.global_flags & 0xfff800,
        Instruction::DclInput(d) => wf_operand(d.operand),
        Instruction::DclOutput(d) => wf_operand(d.operand),
        Instruction::DclConstantBuffer(d) => wf_operand(d.operand),
        Instruction::DclTemps(_) => true,
        Instruction::DclOutputSiv(d) => wf_operand(d.operand) && wf_operand(d.operand_2),
        Instruction::DclOutputSgv(d) => wf_operand(d.operand) && wf_operand(d.operand_2),
        Instruction::Add(d) => wf_operand(d.dst) && wf_operand(d.a) && wf_operand(d.b),
        Instruction::Mul(d) => wf_operand(d.dst) && wf_operand(d.a) && wf_operand(d.b),
        Instruction::Mad(d) => wf_operand(d.dst) && wf_operand(d.a) && wf_operand(d.b)
            && wf_operand(d.c),
        Instruction::Mov(d) => wf_operand(d.dst) && wf_operand(d.src),
        Instruction::SampleL(d) => wf_operand(d.dst) && wf_operand(d.src_address) && wf_operand(
            d.src_resource,
        ) && wf_operand(d.src_sampler) && wf_operand(d.src_lod),
        Instruction::Ret => true,
        Instruction::Unknown(_, _, _) => false,
    }
}

/// Whether an opcode type has a modeled operand shape.
pub open spec fn is_modeled_opcode(ty: u32) -> bool {
    ty == OPCODE_ADD || ty == OPCODE_MAD || ty == OPCODE_MOV || ty == OPCODE_MUL || ty
        == OPCODE_RET || ty == OPCODE_SAMPLE_L || ty == OPCODE_DCL_CONSTANT_BUFFER || ty
        == OPCODE_DCL_INPUT || ty == OPCODE_DCL_OUTPUT || ty == OPCODE_DCL_OUTPUT_SGV || ty
        == OPCODE_DCL_OUTPUT_SIV || ty == OPCODE_DCL_TEMPS || ty == OPCODE_DCL_GLOBAL_FLAGS
}

// --- instruction spec parser -------------------------------------------------
/// Walk the extended-opcode chain: starting after the opcode token, skip
/// tokens while each one's has-next bit announces another.
pub open spec fn skip_ext_opcodes(ws: Seq<u32>, pos: int, ext: bool) -> Option<int>
    decreases ws.len() - pos,
{
    if !ext {
        Some(pos)
    } else if !(0 <= pos < ws.len()) {
        None
    } else {
        skip_ext_opcodes(ws, pos + 1, sp_opcode_extended(ws[pos]))
    }
}

/// Parse one instruction at word position `pos`. A modeled opcode is
/// decoded by its shape and its declared length is checked against the
/// words actually consumed; an unmodeled opcode is skipped by its declared
/// length and preserved opaquely.
pub open spec fn parse_instruction(ws: Seq<u32>, pos: int) -> Result<
    (Instruction, int),
    DecodeError,
> {
    if !(0 <= pos < ws.len()) {
        Err(DecodeError::UnexpectedEof)
    } else {
        let w = ws[pos];
        let ty = sp_opcode_type(w);
        let dlen = sp_instruction_length(w);
        if is_modeled_opcode(ty) {
            match skip_ext_opcodes(ws, pos + 1, sp_opcode_extended(w)) {
                Option::None => Err(DecodeError::UnexpectedEof),
                Option::Some(bp) => match parse_instruction_body(ws, bp, w, ty) {
                    Err(e) => Err(e),
                    Ok((ins, end)) => if dlen as int == end - pos {
                        Ok((ins, end))
                    } else {
                        Err(DecodeError::Malformed)
                    },
                },
            }
        } else {
            if dlen == 0 {
                Err(DecodeError::Malformed)
            } else if pos + dlen <= ws.len() {
                Ok((Instruction::Unknown(w, ty, dlen), pos + dlen))
            } else {
                Err(DecodeError::UnexpectedEof)
            }
        }
    }
}

/// Parse the operands of a modeled opcode `ty` whose opcode token is `w`,
/// starting at `p`.
pub open spec fn parse_instruction_body(ws: Seq<u32>, p: int, w: u32, ty: u32) -> Result<
    (Instruction, int),
    DecodeError,
> {
    if ty == OPCODE_DCL_GLOBAL_FLAGS {
        Ok(
            (
                Instruction::DclGlobalFlags(DclGlobalFlags { global_flags: sp_global_flags(w) }),
                p,
            ),
        )
    } else if ty == OPCODE_RET {
        Ok((Instruction::Ret, p))
    } else if ty == OPCODE_DCL_TEMPS {
        if 0 <= p && p + 1 <= ws.len() {
            Ok((Instruction::DclTemps(DclTemps { register_count: ws[p] }), p + 1))
        } else {
            Err(DecodeError::UnexpectedEof)
        }
    } else if ty == OPCODE_DCL_INPUT {
        match parse_operand_at(ws, p) {
            Ok((op, p1)) => Ok((Instruction::DclInput(DclInput { operand: op }), p1)),
            Err(e) => Err(e),
        }
    } else if ty == OPCODE_DCL_OUTPUT {
        match parse_operand_at(ws, p) {
            Ok((op, p1)) => Ok((Instruction::DclOutput(DclOutput { operand: op }), p1)),
            Err(e) => Err(e),
        }
    } else if ty == OPCODE_DCL_CONSTANT_BUFFER {
        match parse_operand_at(ws, p) {
            Ok(
                (op, p1),
            ) => Ok(
                (
                    Instruction::DclConstantBuffer(
                        DclConstantBuffer {
                            operand: op,
                            access: if sp_cb_access(w) == 1 {
                                ConstantBufferIndexPattern::Dynamic
                            } else {
                                ConstantBufferIndexPattern::Immediate
                            },
                        },
                    ),
                    p1,
                ),
            ),
            Err(e) => Err(e),
        }
    } else if ty == OPCODE_DCL_OUTPUT_SIV {
        match parse_operand_at(ws, p) {
            Ok((op, p1)) => match parse_operand_at(ws, p1) {
                Ok(
                    (op2, p2),
                ) => Ok(
                    (Instruction::DclOutputSiv(DclOutputSiv { operand: op, operand_2: op2 }), p2),
                ),
                Err(e) => Err(e),
            },
            Err(e) => Err(e),
        }
    } else if ty == OPCODE_DCL_OUTPUT_SGV {
        match parse_operand_at(ws, p) {
            Ok((op, p1)) => match parse_operand_at(ws, p1) {
                Ok(
                    (op2, p2),
                ) => Ok(
                    (Instruction::DclOutputSgv(DclOutputSgv { operand: op, operand_2: op2 }), p2),
                ),
                Err(e) => Err(e),
            },
            Err(e) => Err(e),
        }
    } else if ty == OPCODE_MOV {
        match parse_operand_at(ws, p) {
            Ok((dst, p1)) => match parse_operand_at(ws, p1) {
                Ok(
                    (src, p2),
                ) => Ok(
                    (
                        Instruction::Mov(
                            Mov { saturated: sp_saturate(w), dst: dst, src: src },
                        ),
                        p2,
                    ),
                ),
                Err(e) => Err(e),
            },
            Err(e) => Err(e),
        }
    } else if ty == OPCODE_ADD || ty == OPCODE_MUL {
        match parse_operand_at(ws, p) {
            Ok((dst, p1)) => match parse_operand_at(ws, p1) {
                Ok((a, p2)) => match parse_operand_at(ws, p2) {
                    Ok((b, p3)) => if ty == OPCODE_ADD {
                        Ok(
                            (
                                Instruction::Add(
                                    Add { saturated: sp_saturate(w), dst: dst, a: a, b: b },
                                ),
                                p3,
                            ),
                        )
                    } else {
                        Ok(
                            (
                                Instruction::Mul(
                                    Mul { saturated: sp_saturate(w), dst: dst, a: a, b: b },
                                ),
                                p3,
                            ),
                        )
                    },
                    Err(e) => Err(e),
                },
                Err(e) => Err(e),
            },
            Err(e) => Err(e),
        }
    } else if ty == OPCODE_MAD {
        match parse_operand_at(ws, p) {
            Ok((dst, p1)) => match parse_operand_at(ws, p1) {
                Ok((a, p2)) => match parse_operand_at(ws, p2) {
                    Ok((b, p3)) => match parse_operand_at(ws, p3) {
                        Ok(
                            (c, p4),
                        ) => Ok(
                            (
                                Instruction::Mad(
                                    Mad { saturated: sp_saturate(w), dst: dst, a: a, b: b, c: c },
                                ),
                                p4,
                            ),
                        ),
                        Err(e) => Err(e),
                    },
                    Err(e) => Err(e),
                },
                Err(e) => Err(e),
            },
            Err(e) => Err(e),
        }
    } else if ty == OPCODE_SAMPLE_L {
        match parse_operand_at(ws, p) {
            Ok((dst, p1)) => match parse_operand_at(ws, p1) {
                Ok((sa, p2)) => match parse_operand_at(ws, p2) {
                    Ok((sr, p3)) => match parse_operand_at(ws, p3) {
                        Ok((ss, p4)) => match parse_operand_at(ws, p4) {
                            Ok(
                                (sl, p5),
                            ) => Ok(
                                (
                                    Instruction::SampleL(
                                        SampleL {
                                            saturated: sp_saturate(w),
                                            dst: dst,
                                            src_address: sa,
                                            src_resource: sr,
                                            src_sampler: ss,
                                            src_lod: sl,
                                        },
                                    ),
                                    p5,
                                ),
                            ),
                            Err(e) => Err(e),
                        },
                        Err(e) => Err(e),
                    },
                    Err(e) => Err(e),
                },
                Err(e) => Err(e),
            },
            Err(e) => Err(e),
        }
    } else {
        Err(DecodeError::Malformed)
    }
}

// --- instruction round trip ---------------------------------------------------
/// The constant payload values used by the encoder, related to the fields
/// that extraction reads back.
pub proof fn lemma_payload_constants()
    by (bit_vector)
    ensures
        0u32 & 0xfff800 == 0,
        0x2000u32 & 0xfff800 == 0x2000,
        0x800u32 & 0xfff800 == 0x800,
        0u32 & 0x2000 == 0,
        0x2000u32 & 0x2000 == 0x2000,
        0x800u32 & 0x2000 == 0,
        (0u32 >> 11) & 1 == 0,
        (0x800u32 >> 11) & 1 == 1,
        (0x2000u32 >> 11) & 1 == 0,
{
}

/// A successful instruction parse consumes at least one word and stays
/// within the buffer.
pub proof fn lemma_parse_instruction_pos(ws: Seq<u32>, pos: int)
    ensures
        parse_instruction(ws, pos) matches Ok((i, end)) ==> pos + 1 <= end <= ws.len(),
{
    if 0 <= pos < ws.len() {
        let w = ws[pos];
        let ty = sp_opcode_type(w);
        if is_modeled_opcode(ty) {
            lemma_skip_ext_pos(ws, pos + 1, sp_opcode_extended(w));
            match skip_ext_opcodes(ws, pos + 1, sp_opcode_extended(w)) {
                Option::None => {},
                Option::Some(bp) => {
                    lemma_parse_instruction_body_pos(ws, bp, w, ty);
                },
            }
        }
    }
}

/// The extended-opcode walk never retreats and stays within the buffer.
pub proof fn lemma_skip_ext_pos(ws: Seq<u32>, pos: int, ext: bool)
    requires
        pos <= ws.len(),
    ensures
        skip_ext_opcodes(ws, pos, ext) matches Some(bp) ==> pos <= bp <= ws.len(),
    decreases ws.len() - pos,
{
    if ext && 0 <= pos < ws.len() {
        lemma_skip_ext_pos(ws, pos + 1, sp_opcode_extended(ws[pos]));
    }
}

/// A successful instruction-body parse never retreats and stays within the
/// buffer.
pub proof fn lemma_parse_instruction_body_pos(ws: Seq<u32>, p: int, w: u32, ty: u32)
    requires
        p <= ws.len(),
    ensures
        parse_instruction_body(ws, p, w, ty) matches Ok((i, end)) ==> p <= end <= ws.len(),
{
    lemma_parse_operand_at_pos(ws, p);
    match parse_operand_at(ws, p) {
        Ok((_, p1)) => {
            lemma_parse_operand_at_pos(ws, p1);
            match parse_operand_at(ws, p1) {
                Ok((_, p2)) => {
                    lemma_parse_operand_at_pos(ws, p2);
                    match parse_operand_at(ws, p2) {
                        Ok((_, p3)) => {
                            lemma_parse_operand_at_pos(ws, p3);
                            match parse_operand_at(ws, p3) {
                                Ok((_, p4)) => {
                                    lemma_parse_operand_at_pos(ws, p4);
                                },
                                Err(_) => {},
                            }
                        },
                        Err(_) => {},
                    }
                },
                Err(_) => {},
            }
        },
        Err(_) => {},
    }
}

/// A successful definitive operand parse consumes at least one word and
/// stays within the buffer.
pub proof fn lemma_parse_operand_at_pos(ws: Seq<u32>, pos: int)
    ensures
        parse_operand_at(ws, pos) matches Ok((o, p2)) ==> pos + 1 <= p2 <= ws.len(),
{
    reveal(parse_operand_at);
    lemma_parse_operand_pos(ws, pos, fuel_for(ws, pos));
}

/// Parsing the encoding of a well-formed operand at its definitive fuel.
pub proof fn lemma_operand_round_trip_at(ws: Seq<u32>, pos: int, o: Operand)
    requires
        wf_operand(o),
        0 <= pos,
        pos + enc_operand(o).len() <= ws.len(),
        ws.subrange(pos, pos + enc_operand(o).len() as int) == enc_operand(o),
    ensures
        parse_operand_at(ws, pos) == Ok::<(Operand, int), DecodeError>(
            (o, pos + enc_operand(o).len()),
        ),
{
    reveal(parse_operand_at);
    lemma_operand_round_trip(ws, pos, o, fuel_for(ws, pos));
}

/// The opcode-type value of an instruction.
pub open spec fn instr_ty(i: Instruction) -> u32 {
    match i {
        Instruction::DclGlobalFlags(_) => OPCODE_DCL_GLOBAL_FLAGS,
        Instruction::DclInput(_) => OPCODE_DCL_INPUT,
        Instruction::DclOutput(_) => OPCODE_DCL_OUTPUT,
        Instruction::DclConstantBuffer(_) => OPCODE_DCL_CONSTANT_BUFFER,
        Instruction::DclTemps(_) => OPCODE_DCL_TEMPS,
        Instruction::DclOutputSiv(_) => OPCODE_DCL_OUTPUT_SIV,
        Instruction::DclOutputSgv(_) => OPCODE_DCL_OUTPUT_SGV,
        Instruction::Add(_) => OPCODE_ADD,
        Instruction::Mul(_) => OPCODE_MUL,
        Instruction::Mad(_) => OPCODE_MAD,
        Instruction::Mov(_) => OPCODE_MOV,
        Instruction::SampleL(_) => OPCODE_SAMPLE_L,
        Instruction::Ret => OPCODE_RET,
        Instruction::Unknown(_, ty, _) => ty,
    }
}

/// The opcode-specific payload bits of an instruction's opcode token.
pub open spec fn instr_extra(i: Instruction) -> u32 {
    match i {
        Instruction::DclGlobalFlags(d) => d.global_flags,
        Instruction::DclConstantBuffer(d) => cb_access_bits(d.access),
        Instruction::Add(d) => sat_bits(d.saturated),
        Instruction::Mul(d) => sat_bits(d.saturated),
        Instruction::Mad(d) => sat_bits(d.saturated),
        Instruction::Mov(d) => sat_bits(d.saturated),
        Instruction::SampleL(d) => sat_bits(d.saturated),
        _ => 0,
    }
}

/// The arithmetic-opcode half of `lemma_instruction_body_round_trip`.
#[verifier::rlimit(100)]
#[verifier::spinoff_prover]
pub proof fn lemma_instruction_body_round_trip_arith(ws: Seq<u32>, p: int, w: u32, i: Instruction)
    requires
        wf_instruction(i),
        i is Add || i is Mul || i is Mad || i is Mov || i is SampleL,
        0 <= p,
        p + enc_instruction(i).drop_first().len() <= ws.len(),
        ws.subrange(p, p + enc_instruction(i).drop_first().len() as int) == enc_instruction(
            i,
        ).drop_first(),
        match i {
            Instruction::Add(d) => sp_saturate(w) == d.saturated,
            Instruction::Mul(d) => sp_saturate(w) == d.saturated,
            Instruction::Mad(d) => sp_saturate(w) == d.saturated,
            Instruction::Mov(d) => sp_saturate(w) == d.saturated,
            Instruction::SampleL(d) => sp_saturate(w) == d.saturated,
            _ => true,
        },
    ensures
        parse_instruction_body(ws, p, w, instr_ty(i)) == Ok::<(Instruction, int), DecodeError>(
            (i, p + enc_instruction(i).drop_first().len()),
        ),
{
    let body = enc_instruction(i).drop_first();
    match i {
        Instruction::Add(d) => {
            let b1 = enc_operand(d.dst);
            let b2 = enc_operand(d.a);
            let b3 = enc_operand(d.b);
            assert(body =~= b1 + b2 + b3);
            lemma_subrange_concat(ws, p, b1 + b2, b3);
            lemma_subrange_concat(ws, p, b1, b2);
            lemma_operand_round_trip_at(ws, p, d.dst);
            lemma_operand_round_trip_at(ws, p + b1.len(), d.a);
            lemma_operand_round_trip_at(ws, p + b1.len() + b2.len(), d.b);
        },
        Instruction::Mul(d) => {
            let b1 = enc_operand(d.dst);
            let b2 = enc_operand(d.a);
            let b3 = enc_operand(d.b);
            assert(body =~= b1 + b2 + b3);
            lemma_subrange_concat(ws, p, b1 + b2, b3);
            lemma_subrange_concat(ws, p, b1, b2);
            lemma_operand_round_trip_at(ws, p, d.dst);
            lemma_operand_round_trip_at(ws, p + b1.len(), d.a);
            lemma_operand_round_trip_at(ws, p + b1.len() + b2.len(), d.b);
        },
        Instruction::Mad(d) => {
            let b1 = enc_operand(d.dst);
            let b2 = enc_operand(d.a);
            let b3 = enc_operand(d.b);
            let b4 = enc_operand(d.c);
            assert(body =~= b1 + b2 + b3 + b4);
            lemma_subrange_concat(ws, p, b1 + b2 + b3, b4);
            lemma_subrange_concat(ws, p, b1 + b2, b3);
            lemma_subrange_concat(ws, p, b1, b2);
            lemma_operand_round_trip_at(ws, p, d.dst);
            lemma_operand_round_trip_at(ws, p + b1.len(), d.a);
            lemma_operand_round_trip_at(ws, p + b1.len() + b2.len(), d.b);
            lemma_operand_round_trip_at(ws, p + b1.len() + b2.len() + b3.len(), d.c);
        },
        Instruction::Mov(d) => {
            let b1 = enc_operand(d.dst);
            let b2 = enc_operand(d.src);
            assert(body =~= b1 + b2);
            lemma_subrange_concat(ws, p, b1, b2);
            lemma_operand_round_trip_at(ws, p, d.dst);
            lemma_operand_round_trip_at(ws, p + b1.len(), d.src);
        },
        Instruction::SampleL(d) => {
            let b1 = enc_operand(d.dst);
            let b2 = enc_operand(d.src_address);
            let b3 = enc_operand(d.src_resource);
            let b4 = enc_operand(d.src_sampler);
            let b5 = enc_operand(d.src_lod);
            assert(body =~= b1 + b2 + b3 + b4 + b5);
            lemma_subrange_concat(ws, p, b1 + b2 + b3 + b4, b5);
            lemma_subrange_concat(ws, p, b1 + b2 + b3, b4);
            lemma_subrange_concat(ws, p, b1 + b2, b3);
            lemma_subrange_concat(ws, p, b1, b2);
            lemma_operand_round_trip_at(ws, p, d.dst);
            lemma_operand_round_trip_at(ws, p + b1.len(), d.src_address);
            lemma_operand_round_trip_at(ws, p + b1.len() + b2.len(), d.src_resource);
            lemma_operand_round_trip_at(ws, p + b1.len() + b2.len() + b3.len(), d.src_sampler);
            lemma_operand_round_trip_at(
                ws,
                p + b1.len() + b2.len() + b3.len() + b4.len(),
                d.src_lod,
            );
        },
        _ => {},
    }
}

/// Parsing the operand words of a well-formed instruction yields the
/// instruction, given a token whose payload fields agree with it.
#[verifier::rlimit(100)]
#[verifier::spinoff_prover]
pub proof fn lemma_instruction_body_round_trip(ws: Seq<u32>, p: int, w: u32, i: Instruction)
    requires
        wf_instruction(i),
        0 <= p,
        p + enc_instruction(i).drop_first().len() <= ws.len(),
        ws.subrange(p, p + enc_instruction(i).drop_first().len() as int) == enc_instruction(
            i,
        ).drop_first(),
        match i {
            Instruction::DclGlobalFlags(d) => sp_global_flags(w) == d.global_flags,
            Instruction::DclConstantBuffer(d) => (if sp_cb_access(w) == 1 {
                ConstantBufferIndexPattern::Dynamic
            } else {
                ConstantBufferIndexPattern::Immediate
            }) == d.access,
            Instruction::Add(d) => sp_saturate(w) == d.saturated,
            Instruction::Mul(d) => sp_saturate(w) == d.saturated,
            Instruction::Mad(d) => sp_saturate(w) == d.saturated,
            Instruction::Mov(d) => sp_saturate(w) == d.saturated,
            Instruction::SampleL(d) => sp_saturate(w) == d.saturated,
            _ => true,
        },
    ensures
        parse_instruction_body(ws, p, w, instr_ty(i)) == Ok::<(Instruction, int), DecodeError>(
            (i, p + enc_instruction(i).drop_first().len()),
        ),
{
    let e = enc_instruction(i);
    let body = e.drop_first();
    match i {
        Instruction::DclGlobalFlags(d) => {
            assert(body =~= Seq::<u32>::empty());
        },
        Instruction::DclInput(d) => {
            assert(body =~= enc_operand(d.operand));
            lemma_operand_round_trip_at(ws, p, d.operand);
        },
        Instruction::DclOutput(d) => {
            assert(body =~= enc_operand(d.operand));
            lemma_operand_round_trip_at(ws, p, d.operand);
        },
        Instruction::DclConstantBuffer(d) => {
            assert(body =~= enc_operand(d.operand));
            lemma_operand_round_trip_at(ws, p, d.operand);
        },
        Instruction::DclTemps(d) => {
            assert(body =~= seq![d.register_count]);
            assert(ws[p] == body[0]);
        },
        Instruction::DclOutputSiv(d) => {
            let b1 = enc_operand(d.operand);
            let b2 = enc_operand(d.operand_2);
            assert(body =~= b1 + b2);
            lemma_subrange_concat(ws, p, b1, b2);
            lemma_operand_round_trip_at(ws, p, d.operand);
            lemma_operand_round_trip_at(ws, p + b1.len(), d.operand_2);
        },
        Instruction::DclOutputSgv(d) => {
            let b1 = enc_operand(d.operand);
            let b2 = enc_operand(d.operand_2);
            assert(body =~= b1 + b2);
            lemma_subrange_concat(ws, p, b1, b2);
            lemma_operand_round_trip_at(ws, p, d.operand);
            lemma_operand_round_trip_at(ws, p + b1.len(), d.operand_2);
        },
        Instruction::Add(d) => {
            lemma_instruction_body_round_trip_arith(ws, p, w, i);
        },
        Instruction::Mul(d) => {
            lemma_instruction_body_round_trip_arith(ws, p, w, i);
        },
        Instruction::Mad(d) => {
            lemma_instruction_body_round_trip_arith(ws, p, w, i);
        },
        Instruction::Mov(d) => {
            lemma_instruction_body_round_trip_arith(ws, p, w, i);
        },
        Instruction::SampleL(d) => {
            lemma_instruction_body_round_trip_arith(ws, p, w, i);
        },
        Instruction::Ret => {
            assert(body =~= Seq::<u32>::empty());
        },
        Instruction::Unknown(_, _, _) => {},
    }
}

/// Parsing the encoding of a well-formed instruction yields that
/// instruction and consumes exactly its encoded length.
#[verifier::rlimit(100)]
#[verifier::spinoff_prover]
pub proof fn lemma_instruction_round_trip(ws: Seq<u32>, pos: int, i: Instruction)
    requires
        wf_instruction(i),
        0 <= pos,
        pos + enc_instruction(i).len() <= ws.len(),
        ws.subrange(pos, pos + enc_instruction(i).len() as int) == enc_instruction(i),
    ensures
        parse_instruction(ws, pos) == Ok::<(Instruction, int), DecodeError>(
            (i, pos + enc_instruction(i).len()),
        ),
{
    let e = enc_instruction(i);
    let body = e.drop_first();
    lemma_payload_constants();
    assert(ws[pos] == e[0]);
    assert(e[0] == pack_opcode_token(instr_ty(i), instr_extra(i), e.len() as u32, 0)) by {
        reveal_instr_token(i);
    }
    assert(instr_extra(i) == instr_extra(i) & 0xfff800) by {
        match i {
            Instruction::DclGlobalFlags(d) => {},
            Instruction::DclConstantBuffer(d) => {},
            _ => {},
        }
    }
    lemma_opcode_token_fields(instr_ty(i), instr_extra(i), e.len() as u32, 0);
    let w = ws[pos];
    assert(is_modeled_opcode(sp_opcode_type(w)));
    assert(!sp_opcode_extended(w));
    assert(skip_ext_opcodes(ws, pos + 1, false) == Some(pos + 1));
    assert(ws.subrange(pos + 1, pos + 1 + body.len() as int) =~= body) by {
        assert forall|k: int| 0 <= k < body.len() implies ws.subrange(
            pos + 1,
            pos + 1 + body.len() as int,
        )[k] == body[k] by {
            assert(ws.subrange(pos, pos + e.len() as int)[k + 1] == e[k + 1]);
        }
    }
    lemma_instruction_body_round_trip(ws, pos + 1, w, i);
    assert(sp_instruction_length(w) as int == (pos + e.len()) - pos);
}

/// The opcode token of every encoded instruction is the packed form of its
/// type, payload, and length fields.
pub proof fn reveal_instr_token(i: Instruction)
    requires
        !(i is Unknown),
    ensures
        enc_instruction(i)[0] == pack_opcode_token(
            instr_ty(i),
            instr_extra(i),
            enc_instruction(i).len() as u32,
            0,
        ),
{
    match i {
        Instruction::DclGlobalFlags(d) => {},
        Instruction::DclInput(d) => {},
        Instruction::DclOutput(d) => {},
        Instruction::DclConstantBuffer(d) => {},
        Instruction::DclTemps(d) => {},
        Instruction::DclOutputSiv(d) => {},
        Instruction::DclOutputSgv(d) => {},
        Instruction::Add(d) => {},
        Instruction::Mul(d) => {},
        Instruction::Mad(d) => {},
        Instruction::Mov(d) => {},
        Instruction::SampleL(d) => {},
        Instruction::Ret => {},
        Instruction::Unknown(_, _, _) => {},
    }
}

// --- instruction streams ------------------------------------------------------
/// The encoding of an instruction sequence, back to back.
pub open spec fn enc_program(is: Seq<Instruction>) -> Seq<u32>
    decreases is.len(),
{
    if is.len() == 0 {
        Seq::empty()
    } else {
        enc_instruction(is[0]) + enc_program(is.drop_first())
    }
}

/// Every instruction sequence is well-formed element-wise.
pub open spec fn wf_program(is: Seq<Instruction>) -> bool {
    forall|k: int| 0 <= k < is.len() ==> wf_instruction(#[trigger] is[k])
}

/// Parse instructions from `pos` to the end of the buffer. Each
/// instruction's start is the previous one's end, so decoding is strictly
/// sequential.
pub open spec fn parse_program(ws: Seq<u32>, pos: int) -> Result<Seq<Instruction>, DecodeError>
    decreases ws.len() - pos,
{
    if pos >= ws.len() {
        Ok(Seq::empty())
    } else {
        match parse_instruction(ws, pos) {
            Err(e) => Err(e),
            Ok((i, end)) => if pos < end <= ws.len() {
                match parse_program(ws, end) {
                    Ok(rest) => Ok(seq![i] + rest),
                    Err(e) => Err(e),
                }
            } else {
                Err(DecodeError::Malformed)
            },
        }
    }
}

/// Every encoded instruction takes at least one word.
pub proof fn lemma_enc_instruction_len(i: Instruction)
    ensures
        enc_instruction(i).len() >= 1,
{
    match i {
        Instruction::DclGlobalFlags(_) => {},
        Instruction::DclInput(_) => {},
        Instruction::DclOutput(_) => {},
        Instruction::DclConstantBuffer(_) => {},
        Instruction::DclTemps(_) => {},
        Instruction::DclOutputSiv(_) => {},
        Instruction::DclOutputSgv(_) => {},
        Instruction::Add(_) => {},
        Instruction::Mul(_) => {},
        Instruction::Mad(_) => {},
        Instruction::Mov(_) => {},
        Instruction::SampleL(_) => {},
        Instruction::Ret => {},
        Instruction::Unknown(_, _, _) => {},
    }
}

/// Round trip of a whole instruction stream: parsing the back-to-back
/// encoding of a well-formed instruction sequence yields that sequence.
pub proof fn lemma_program_round_trip(ws: Seq<u32>, pos: int, is: Seq<Instruction>)
    requires
        wf_program(is),
        0 <= pos <= ws.len(),
        pos + enc_program(is).len() == ws.len(),
        ws.subrange(pos, ws.len() as int) == enc_program(is),
    ensures
        parse_program(ws, pos) == Ok::<Seq<Instruction>, DecodeError>(is),
    decreases is.len(),
{
    if is.len() == 0 {
        assert(is =~= Seq::<Instruction>::empty());
    } else {
        let i0 = is[0];
        let e0 = enc_instruction(i0);
        let rest = is.drop_first();
        lemma_enc_instruction_len(i0);
        assert(wf_instruction(i0));
        lemma_subrange_concat(ws, pos, e0, enc_program(rest));
        lemma_instruction_round_trip(ws, pos, i0);
        let end = pos + e0.len();
        assert(ws.subrange(end, ws.len() as int) =~= enc_program(rest));
        assert(wf_program(rest)) by {
            assert(forall|k: int| 0 <= k < rest.len() ==> rest[k] == is[k + 1]);
        }
        lemma_program_round_trip(ws, end, rest);
        assert(seq![i0] + rest =~= is);
    }
}

// --- stated stream properties -------------------------------------------------
/// Length invariant: every decoded instruction's declared dword length
/// equals the number of words the parse consumed, exactly.
pub proof fn lemma_declared_length_exact(ws: Seq<u32>, pos: int)
    ensures
        parse_instruction(ws, pos) matches Ok((i, end)) ==> sp_instruction_length(ws[pos]) as int
            == end - pos,
{
}

/// Unknown-opcode tolerance: an opcode type outside the modeled table is
/// not an error. The instruction is preserved opaquely, with its raw word,
/// type, and declared length, and the parse resumes exactly one declared
/// length later, so subsequent decoding stays synchronized.
pub proof fn lemma_unknown_opcode_skipped(ws: Seq<u32>, pos: int)
    requires
        0 <= pos < ws.len(),
        !is_modeled_opcode(sp_opcode_type(ws[pos])),
        1 <= sp_instruction_length(ws[pos]),
        pos + sp_instruction_length(ws[pos]) <= ws.len(),
    ensures
        parse_instruction(ws, pos) == Ok::<(Instruction, int), DecodeError>(
            (
                Instruction::Unknown(
                    ws[pos],
                    sp_opcode_type(ws[pos]),
                    sp_instruction_length(ws[pos]),
                ),
                pos + sp_instruction_length(ws[pos]),
            ),
        ),
{
}

/// Recursive-operand termination: an operand whose three index slots all
/// hold relative operands decodes, and consumes exactly one token word,
/// the extended token if present, and the three nested encodings.
pub proof fn lemma_relative_d3_operand(ws: Seq<u32>, pos: int, o: Operand)
    requires
        wf_operand(o),
        o.indices matches OperandIndices::D3(a, b, c) && a is Relative && b is Relative
            && c is Relative,
        0 <= pos,
        pos + enc_operand(o).len() <= ws.len(),
        ws.subrange(pos, pos + enc_operand(o).len() as int) == enc_operand(o),
    ensures
        parse_operand_at(ws, pos) matches Ok((r, end)) ==> r == o && {
            let nested = match o.indices {
                OperandIndices::D3(a, b, c) => match (a, b, c) {
                    (
                        OperandIndex::Relative(ba),
                        OperandIndex::Relative(bb),
                        OperandIndex::Relative(bc),
                    ) => enc_operand(*ba).len() + enc_operand(*bb).len() + enc_operand(*bc).len(),
                    _ => 0,
                },
                _ => 0,
            };
            end == pos + 1 + (if o.modifier is Some {
                1int
            } else {
                0int
            }) + nested
        },
{
    lemma_operand_round_trip_at(ws, pos, o);
    match o.indices {
        OperandIndices::D3(a, b, c) => {
            match (a, b, c) {
                (
                    OperandIndex::Relative(ba),
                    OperandIndex::Relative(bb),
                    OperandIndex::Relative(bc),
                ) => {
                    assert(enc_indices(o.indices) == enc_index(a) + enc_index(b) + enc_index(c));
                    assert(enc_index(a) == enc_operand(*ba));
                    assert(enc_index(b) == enc_operand(*bb));
                    assert(enc_index(c) == enc_operand(*bc));
                },
                _ => {},
            }
        },
        _ => {},
    }
}

// --- executable conversions -----------------------------------------------
impl OperandType {
    /// The operand-type field value of this type.
    pub fn to_word(&self) -> (r: u32)
        ensures
            r == op_type_code(*self),
    {
        match self {
            OperandType::Temp => 0,
            OperandType::Input => 1,
            OperandType::Output => 2,
            OperandType::IndexableTemp => 3,
            OperandType::Immediate32 => 4,
            OperandType::Immediate64 => 5,
            OperandType::Sampler => 6,
            OperandType::Resource => 7,
            OperandType::ConstantBuffer => 8,
            OperandType::ImmediateConstantBuffer => 9,
            OperandType::Label => 10,
            OperandType::InputPrimitiveId => 11,
            OperandType::OutputDepth => 12,
            OperandType::Null => 13,
            OperandType::Rasterizer => 14,
            OperandType::OutputCoverageMask => 15,
            OperandType::Stream => 16,
            OperandType::FunctionBody => 17,
            OperandType::FunctionTable => 18,
            OperandType::Interface => 19,
            OperandType::FunctionInput => 20,
            OperandType::FunctionOutput => 21,
            OperandType::OutputControlPointId => 22,
            OperandType::InputForkInstanceId => 23,
            OperandType::InputJoinInstanceId => 24,
            OperandType::InputControlPoint => 25,
            OperandType::OutputControlPoint => 26,
            OperandType::InputPatchConstant => 27,
            OperandType::InputDomainPoint => 28,
            OperandType::ThisPointer => 29,
            OperandType::UnorderedAccessView => 30,
            OperandType::ThreadGroupSharedMemory => 31,
            OperandType::InputThreadId => 32,
            OperandType::InputThreadGroupId => 33,
            OperandType::InputThreadIdInGroup => 34,
            OperandType::InputCoverageMask => 35,
            OperandType::InputThreadIdInGroupFlattened => 36,
            OperandType::InputGsinstanceid => 37,
            OperandType::OutputDepthGreaterEqual => 38,
            OperandType::OutputDepthLessEqual => 39,
            OperandType::CycleCounter => 40,
        }
    }

    /// The operand type denoted by a field value, if any.
    pub fn from_word(word: u32) -> (r: Option<OperandType>)
        ensures
            r == op_type_from(word),
    {
        if word == 0 {
            Some(OperandType::Temp)
        } else if word == 1 {
            Some(OperandType::Input)
        } else if word == 2 {
            Some(OperandType::Output)
        } else if word == 3 {
            Some(OperandType::IndexableTemp)
        } else if word == 4 {
            Some(OperandType::Immediate32)
        } else if word == 5 {
            Some(OperandType::Immediate64)
        } else if word == 6 {
            Some(OperandType::Sampler)
        } else if word == 7 {
            Some(OperandType::Resource)
        } else if word == 8 {
            Some(OperandType::ConstantBuffer)
        } else if word == 9 {
            Some(OperandType::ImmediateConstantBuffer)
        } else if word == 10 {
            Some(OperandType::Label)
        } else if word == 11 {
            Some(OperandType::InputPrimitiveId)
        } else if word == 12 {
            Some(OperandType::OutputDepth)
        } else if word == 13 {
            Some(OperandType::Null)
        } else if word == 14 {
            Some(OperandType::Rasterizer)
        } else if word == 15 {
            Some(OperandType::OutputCoverageMask)
        } else if word == 16 {
            Some(OperandType::Stream)
        } else if word == 17 {
            Some(OperandType::FunctionBody)
        } else if word == 18 {
            Some(OperandType::FunctionTable)
        } else if word == 19 {
            Some(OperandType::Interface)
        } else if word == 20 {
            Some(OperandType::FunctionInput)
        } else if word == 21 {
            Some(OperandType::FunctionOutput)
        } else if word == 22 {
            Some(OperandType::OutputControlPointId)
        } else if word == 23 {
            Some(OperandType::InputForkInstanceId)
        } else if word == 24 {
            Some(OperandType::InputJoinInstanceId)
        } else if word == 25 {
            Some(OperandType::InputControlPoint)
        } else if word == 26 {
            Some(OperandType::OutputControlPoint)
        } else if word == 27 {
            Some(OperandType::InputPatchConstant)
        } else if word == 28 {
            Some(OperandType::InputDomainPoint)
        } else if word == 29 {
            Some(OperandType::ThisPointer)
        } else if word == 30 {
            Some(OperandType::UnorderedAccessView)
        } else if word == 31 {
            Some(OperandType::ThreadGroupSharedMemory)
        } else if word == 32 {
            Some(OperandType::InputThreadId)
        } else if word == 33 {
            Some(OperandType::InputThreadGroupId)
        } else if word == 34 {
            Some(OperandType::InputThreadIdInGroup)
        } else if word == 35 {
            Some(OperandType::InputCoverageMask)
        } else if word == 36 {
            Some(OperandType::InputThreadIdInGroupFlattened)
        } else if word == 37 {
            Some(OperandType::InputGsinstanceid)
        } else if word == 38 {
            Some(OperandType::OutputDepthGreaterEqual)
        } else if word == 39 {
            Some(OperandType::OutputDepthLessEqual)
        } else if word == 40 {
            Some(OperandType::CycleCounter)
        } else {
            None
        }
    }
}

impl NumComponents {
    /// The two-bit class code of this component count.
    pub fn to_word(&self) -> (r: u32)
        ensures
            r == nc_code(*self),
    {
        match self {
            NumComponents::Zero => 0,
            NumComponents::One => 1,
            NumComponents::Four => 2,
            NumComponents::N => 3,
        }
    }

    /// The component-count class denoted by a two-bit field value.
    pub fn from_word(word: u32) -> (r: NumComponents)
        ensures
            r == nc_from(word),
    {
        if word == 0 {
            NumComponents::Zero
        } else if word == 1 {
            NumComponents::One
        } else if word == 2 {
            NumComponents::Four
        } else {
            NumComponents::N
        }
    }
}

impl ComponentName {
    /// The lane denoted by a two-bit code. Codes above three denote no
    /// lane.
    pub fn from_word(word: u8) -> (r: ComponentName)
        requires
            word < 4,
        ensures
            r == cn_from(word as u32),
    {
        if word == 0 {
            ComponentName::X
        } else if word == 1 {
            ComponentName::Y
        } else if word == 2 {
            ComponentName::Z
        } else {
            ComponentName::W
        }
    }

    /// The two-bit code of this lane.
    pub fn to_word(&self) -> (r: u32)
        ensures
            r == cn_code(*self),
    {
        match self {
            ComponentName::X => 0,
            ComponentName::Y => 1,
            ComponentName::Z => 2,
            ComponentName::W => 3,
        }
    }
}

impl OperandModifier {
    /// The numeric modifier carried by an extended-operand token word.
    pub fn from_word(word: u32) -> (r: OperandModifier)
        requires
            sp_ext_operand_modifier(word) < 4,
        ensures
            Some(r) == modifier_from(sp_ext_operand_modifier(word)),
    {
        let m = (word >> 6) & 0xff;
        if m == 0 {
            OperandModifier::NoModifier
        } else if m == 1 {
            OperandModifier::Neg
        } else if m == 2 {
            OperandModifier::Abs
        } else {
            OperandModifier::AbsNeg
        }
    }

    /// The modifier field value of this modifier.
    pub fn to_word(&self) -> (r: u32)
        ensures
            r == modifier_code(*self),
    {
        match self {
            OperandModifier::NoModifier => 0,
            OperandModifier::Neg => 1,
            OperandModifier::Abs => 2,
            OperandModifier::AbsNeg => 3,
        }
    }
}

impl TestBoolean {
    /// The conditional-test polarity of an opcode token word.
    pub fn from_word(word: u32) -> (r: TestBoolean)
        ensures
            r == (if sp_test_boolean(word) == 1 {
                TestBoolean::NonZero
            } else {
                TestBoolean::Zero
            }),
    {
        if (word >> 18) & 1 == 1 {
            TestBoolean::NonZero
        } else {
            TestBoolean::Zero
        }
    }
}

impl IndexDimension {
    /// The dimension denoted by a two-bit field value.
    pub fn from_word(word: u32) -> (r: IndexDimension)
        requires
            word < 4,
    {
        if word == 0 {
            IndexDimension::D0
        } else if word == 1 {
            IndexDimension::D1
        } else if word == 2 {
            IndexDimension::D2
        } else {
            IndexDimension::D3
        }
    }
}

// --- executable encoder -----------------------------------------------------
/// The selection-mode field value of a selection.
fn sel_mode_of(s: &ComponentSelection) -> (r: u32)
    ensures
        r == sel_mode_code(*s),
{
    match s {
        ComponentSelection::Mask(_) => 0,
        ComponentSelection::Swizzle(_) => 1,
        ComponentSelection::Select1(_) => 2,
    }
}

/// The mode-specific payload bits of a selection.
fn sel_payload_of(s: &ComponentSelection) -> (r: u32)
    ensures
        r == sel_payload(*s),
{
    match s {
        ComponentSelection::Mask(m) => *m as u32,
        ComponentSelection::Swizzle(sw) => {
            let x = sw.0.to_word();
            let y = sw.1.to_word();
            let z = sw.2.to_word();
            let w = sw.3.to_word();
            (x & 3) | ((y & 3) << 2) | ((z & 3) << 4) | ((w & 3) << 6)
        },
        ComponentSelection::Select1(c) => c.to_word(),
    }
}

/// The representation-selector value of an index.
fn repr_of(ix: &OperandIndex) -> (r: u32)
    ensures
        r == repr_code(*ix),
{
    match ix {
        OperandIndex::Immediate32(_) => 0,
        OperandIndex::Immediate64(_) => 1,
        OperandIndex::Relative(_) => 2,
        OperandIndex::Immediate32PlusRelative(_, _) => 3,
        OperandIndex::Immediate64PlusRelative(_, _) => 4,
    }
}

/// The three representation selectors of an index list, absent slots zero.
fn reprs_of(ixs: &OperandIndices) -> (r: (u32, u32, u32))
    ensures
        r.0 == repr_at(*ixs, 0),
        r.1 == repr_at(*ixs, 1),
        r.2 == repr_at(*ixs, 2),
{
    match ixs {
        OperandIndices::D0 => (0, 0, 0),
        OperandIndices::D1(a) => (repr_of(a), 0, 0),
        OperandIndices::D2(a, b) => (repr_of(a), repr_of(b), 0),
        OperandIndices::D3(a, b, c) => (repr_of(a), repr_of(b), repr_of(c)),
    }
}

/// Append the two little-endian words of a 64-bit literal.
fn push_u64(out: &mut Vec<u32>, v: u64)
    ensures
        final(out)@ == old(out)@ + seq![lo_word(v), hi_word(v)],
{
    out.push(#[verifier::truncate] ((v & 0xffffffff) as u32));
    out.push(#[verifier::truncate] (((v >> 32) & 0xffffffff) as u32));
    proof {
        assert(final(out)@ =~= old(out)@ + seq![lo_word(v), hi_word(v)]);
    }
}

/// Append the words of a literal payload.
fn push_imm(out: &mut Vec<u32>, imm: &Immediate)
    ensures
        final(out)@ == old(out)@ + enc_imm(*imm),
{
    match imm {
        Immediate::U32x1(a) => {
            out.push(*a);
        },
        Immediate::U32x4(a, b, c, d) => {
            out.push(*a);
            out.push(*b);
            out.push(*c);
            out.push(*d);
        },
        Immediate::U64x1(v) => {
            push_u64(out, *v);
        },
        Immediate::U64x4(a, b, c, d) => {
            push_u64(out, *a);
            push_u64(out, *b);
            push_u64(out, *c);
            push_u64(out, *d);
        },
    }
    proof {
        assert(final(out)@ =~= old(out)@ + enc_imm(*imm));
    }
}

/// Append the payload words of all indices, in dimension order.
fn push_indices(out: &mut Vec<u32>, ixs: &OperandIndices)
    ensures
        final(out)@ == old(out)@ + enc_indices(*ixs),
    decreases *ixs,
{
    match ixs {
        OperandIndices::D0 => {},
        OperandIndices::D1(a) => {
            encode_index(out, a);
        },
        OperandIndices::D2(a, b) => {
            encode_index(out, a);
            encode_index(out, b);
        },
        OperandIndices::D3(a, b, c) => {
            encode_index(out, a);
            encode_index(out, b);
            encode_index(out, c);
        },
    }
    proof {
        assert(final(out)@ =~= old(out)@ + enc_indices(*ixs));
    }
}

/// Append the encoding of one operand.
#[verifier::rlimit(100)]
#[verifier::spinoff_prover]
pub fn encode_operand(out: &mut Vec<u32>, o: &Operand)
    ensures
        final(out)@ == old(out)@ + enc_operand(*o),
    decreases *o,
{
    let (r0, r1, r2) = reprs_of(&o.indices);
    let dim: u32 = match &o.indices {
        OperandIndices::D0 => 0,
        OperandIndices::D1(_) => 1,
        OperandIndices::D2(_, _) => 2,
        OperandIndices::D3(_, _, _) => 3,
    };
    let tok = crate::bits::operand_token(
        o.num_components.to_word(),
        sel_mode_of(&o.selection),
        sel_payload_of(&o.selection),
        o.operand_type.to_word(),
        dim,
        r0,
        r1,
        r2,
        o.modifier.is_some(),
    );
    out.push(tok);
    proof {
        assert(tok == operand_token0_of(*o));
    }
    let ghost ext_words: Seq<u32> = match o.modifier {
        Some(m) => seq![pack_ext_operand_token(modifier_code(m))],
        None => Seq::empty(),
    };
    match &o.modifier {
        Option::Some(m) => {
            let mw = m.to_word();
            out.push(1u32 | ((mw & 0xff) << 6));
        },
        Option::None => {},
    }
    proof {
        assert(out@ =~= old(out)@ + seq![operand_token0_of(*o)] + ext_words);
    }
    let ghost imm_words: Seq<u32> = enc_imm_opt(o.immediate);
    match &o.immediate {
        Option::Some(imm) => {
            push_imm(out, imm);
        },
        Option::None => {},
    }
    proof {
        assert(out@ =~= old(out)@ + seq![operand_token0_of(*o)] + ext_words + imm_words);
    }
    push_indices(out, &o.indices);
    proof {
        assert(final(out)@ =~= old(out)@ + enc_operand(*o));
    }
}

/// Append the payload words of one index.
pub fn encode_index(out: &mut Vec<u32>, ix: &OperandIndex)
    ensures
        final(out)@ == old(out)@ + enc_index(*ix),
    decreases *ix,
{
    match ix {
        OperandIndex::Immediate32(a) => {
            out.push(*a);
        },
        OperandIndex::Immediate64(v) => {
            push_u64(out, *v);
        },
        OperandIndex::Relative(bo) => {
            encode_operand(out, bo);
        },
        OperandIndex::Immediate32PlusRelative(a, bo) => {
            out.push(*a);
            encode_operand(out, bo);
        },
        OperandIndex::Immediate64PlusRelative(v, bo) => {
            push_u64(out, *v);
            encode_operand(out, bo);
        },
    }
    proof {
        assert(final(out)@ =~= old(out)@ + enc_index(*ix));
    }
}

// --- executable decoder -----------------------------------------------------
/// Decode one operand at word position `pos`. The result is exactly the
/// definitive spec parse at that position.
#[verifier::rlimit(100)]
#[verifier::spinoff_prover]
pub fn decode_operand(ws: &Vec<u32>, pos: usize) -> (r: Result<(Operand, usize), DecodeError>)
    ensures
        match r {
            Ok((o, p2)) => pos < p2 <= ws@.len() && parse_operand_at(ws@, pos as int) == Ok::<
                (Operand, int),
                DecodeError,
            >((o, p2 as int)),
            Err(e) => parse_operand_at(ws@, pos as int) == Err::<(Operand, int), DecodeError>(e),
        },
    decreases ws@.len() - pos, 0int,
{
    proof {
        reveal(parse_operand_at);
    }
    let ghost fuel = fuel_for(ws@, pos as int);
    if pos >= ws.len() {
        return Err(DecodeError::UnexpectedEof);
    }
    let w = ws[pos];
    let ty = match OperandType::from_word((w >> 12) & 0xff) {
        Some(t) => t,
        None => {
            return Err(DecodeError::Malformed);
        },
    };
    let nc = NumComponents::from_word(w & 3);
    let selection: ComponentSelection = if (w & 3) == 2 {
        let m = (w >> 2) & 3;
        let p = (w >> 4) & 0xff;
        proof {
            assert(p & 3 < 4 && (p >> 2) & 3 < 4 && (p >> 4) & 3 < 4 && (p >> 6) & 3 < 4 && p & 3
                < 256 && (p >> 2) & 3 < 256 && (p >> 4) & 3 < 256 && (p >> 6) & 3 < 256)
                by (bit_vector);
        }
        if m == 0 {
            if p < 16 {
                ComponentSelection::Mask(p as u8)
            } else {
                return Err(DecodeError::Malformed);
            }
        } else if m == 1 {
            ComponentSelection::Swizzle(
                ComponentSwizzle(
                    ComponentName::from_word((p & 3) as u8),
                    ComponentName::from_word(((p >> 2) & 3) as u8),
                    ComponentName::from_word(((p >> 4) & 3) as u8),
                    ComponentName::from_word(((p >> 6) & 3) as u8),
                ),
            )
        } else if m == 2 {
            if p < 4 {
                ComponentSelection::Select1(ComponentName::from_word(p as u8))
            } else {
                return Err(DecodeError::Malformed);
            }
        } else {
            return Err(DecodeError::Malformed);
        }
    } else {
        ComponentSelection::Mask(0)
    };
    proof {
        assert(sel_from(w) == Some(selection));
    }
    let extended = (w >> 31) & 1 == 1;
    let bp: usize = if extended {
        if pos + 1 >= ws.len() {
            return Err(DecodeError::UnexpectedEof);
        }
        let ew = ws[pos + 1];
        if (ew >> 6) & 0xff >= 4 {
            return Err(DecodeError::Malformed);
        }
        pos + 2
    } else {
        pos + 1
    };
    let modifier: Option<OperandModifier> = if extended {
        Some(OperandModifier::from_word(ws[pos + 1]))
    } else {
        None
    };
    let ghost bfuel = (fuel - 1) as nat;
    let dim = (w >> 20) & 3;
    if dim == 0 {
        let count: usize = if matches!(ty, OperandType::Immediate32 | OperandType::Immediate64) {
            match nc {
                NumComponents::One => 1,
                NumComponents::Four => 4,
                _ => 0,
            }
        } else {
            0
        };
        if count == 0 {
            let o = Operand {
                operand_type: ty,
                num_components: nc,
                selection: selection,
                modifier: modifier,
                indices: OperandIndices::D0,
                immediate: None,
            };
            return Ok((o, bp));
        }
        let wide = matches!(ty, OperandType::Immediate64);
        let words: usize = if wide {
            2 * count
        } else {
            count
        };
        if ws.len() - bp < words {
            return Err(DecodeError::UnexpectedEof);
        }
        let imm: Immediate = if !wide {
            if count == 1 {
                Immediate::U32x1(ws[bp])
            } else {
                Immediate::U32x4(ws[bp], ws[bp + 1], ws[bp + 2], ws[bp + 3])
            }
        } else {
            if count == 1 {
                Immediate::U64x1(read_u64_words(ws, bp))
            } else {
                Immediate::U64x4(
                    read_u64_words(ws, bp),
                    read_u64_words(ws, bp + 2),
                    read_u64_words(ws, bp + 4),
                    read_u64_words(ws, bp + 6),
                )
            }
        };
        let o = Operand {
            operand_type: ty,
            num_components: nc,
            selection: selection,
            modifier: modifier,
            indices: OperandIndices::D0,
            immediate: Some(imm),
        };
        Ok((o, bp + words))
    } else {
        let r0 = if dim == 1 {
            (w >> 22) & 7
        } else if dim == 2 {
            (w >> 22) & 7
        } else {
            (w >> 22) & 7
        };
        let (a, p1) = match decode_index(ws, bp, r0) {
            Ok(x) => x,
            Err(e) => {
                proof {
                    lemma_parse_index_fuel(ws@, bp as int, r0, fuel_for(ws@, bp as int), bfuel);
                }
                return Err(e);
            },
        };
        proof {
            lemma_parse_index_fuel(ws@, bp as int, r0, fuel_for(ws@, bp as int), bfuel);
        }
        if dim == 1 {
            let o = Operand {
                operand_type: ty,
                num_components: nc,
                selection: selection,
                modifier: modifier,
                indices: OperandIndices::D1(a),
                immediate: None,
            };
            return Ok((o, p1));
        }
        let r1 = (w >> 25) & 7;
        let (b, p2) = match decode_index(ws, p1, r1) {
            Ok(x) => x,
            Err(e) => {
                proof {
                    lemma_parse_index_fuel(ws@, p1 as int, r1, fuel_for(ws@, p1 as int), bfuel);
                }
                return Err(e);
            },
        };
        proof {
            lemma_parse_index_fuel(ws@, p1 as int, r1, fuel_for(ws@, p1 as int), bfuel);
        }
        if dim == 2 {
            let o = Operand {
                operand_type: ty,
                num_components: nc,
                selection: selection,
                modifier: modifier,
                indices: OperandIndices::D2(a, b),
                immediate: None,
            };
            return Ok((o, p2));
        }
        let r2 = (w >> 28) & 7;
        let (c, p3) = match decode_index(ws, p2, r2) {
            Ok(x) => x,
            Err(e) => {
                proof {
                    lemma_parse_index_fuel(ws@, p2 as int, r2, fuel_for(ws@, p2 as int), bfuel);
                }
                return Err(e);
            },
        };
        proof {
            lemma_parse_index_fuel(ws@, p2 as int, r2, fuel_for(ws@, p2 as int), bfuel);
        }
        let o = Operand {
            operand_type: ty,
            num_components: nc,
            selection: selection,
            modifier: modifier,
            indices: OperandIndices::D3(a, b, c),
            immediate: None,
        };
        Ok((o, p3))
    }
}

/// Read a 64-bit little-endian literal from two words.
fn read_u64_words(ws: &Vec<u32>, p: usize) -> (r: u64)
    requires
        p + 2 <= ws@.len(),
    ensures
        r == u64_from_words(ws@[p as int], ws@[p as int + 1]),
{
    let n: usize = ws.len();
    proof {
        assert(p + 1 < n);
    }
    (ws[p] as u64) | ((ws[p + 1] as u64) << 32)
}

/// Decode one index with representation selector `repr`. The result is
/// exactly the spec parse at the definitive fuel for its position.
#[verifier::rlimit(100)]
#[verifier::spinoff_prover]
pub fn decode_index(ws: &Vec<u32>, pos: usize, repr: u32) -> (r: Result<
    (OperandIndex, usize),
    DecodeError,
>)
    ensures
        match r {
            Ok((ix, p2)) => pos < p2 <= ws@.len() && parse_index(
                ws@,
                pos as int,
                repr,
                fuel_for(ws@, pos as int),
            ) == Ok::<(OperandIndex, int), DecodeError>((ix, p2 as int)),
            Err(e) => parse_index(ws@, pos as int, repr, fuel_for(ws@, pos as int)) == Err::<
                (OperandIndex, int),
                DecodeError,
            >(e),
        },
    decreases ws@.len() - pos, 1int,
{
    proof {
        reveal(parse_operand_at);
    }
    let ghost fuel = fuel_for(ws@, pos as int);
    if repr == 0 {
        if pos < ws.len() {
            Ok((OperandIndex::Immediate32(ws[pos]), pos + 1))
        } else {
            Err(DecodeError::UnexpectedEof)
        }
    } else if repr == 1 {
        if pos < ws.len() && ws.len() - pos >= 2 {
            Ok((OperandIndex::Immediate64(read_u64_words(ws, pos)), pos + 2))
        } else {
            Err(DecodeError::UnexpectedEof)
        }
    } else if repr == 2 {
        match decode_operand(ws, pos) {
            Ok((o, p2)) => Ok((OperandIndex::Relative(Box::new(o)), p2)),
            Err(e) => Err(e),
        }
    } else if repr == 3 {
        if pos < ws.len() {
            let lit = ws[pos];
            match decode_operand(ws, pos + 1) {
                Ok((o, p2)) => {
                    proof {
                        lemma_parse_operand_fuel(
                            ws@,
                            pos + 1,
                            fuel_for(ws@, pos as int + 1),
                            fuel,
                        );
                    }
                    Ok((OperandIndex::Immediate32PlusRelative(lit, Box::new(o)), p2))
                },
                Err(e) => {
                    proof {
                        lemma_parse_operand_fuel(
                            ws@,
                            pos + 1,
                            fuel_for(ws@, pos as int + 1),
                            fuel,
                        );
                    }
                    Err(e)
                },
            }
        } else {
            Err(DecodeError::UnexpectedEof)
        }
    } else if repr == 4 {
        if pos < ws.len() && ws.len() - pos >= 2 {
            let lit = read_u64_words(ws, pos);
            match decode_operand(ws, pos + 2) {
                Ok((o, p2)) => {
                    proof {
                        lemma_parse_operand_fuel(
                            ws@,
                            pos + 2,
                            fuel_for(ws@, pos as int + 2),
                            fuel,
                        );
                    }
                    Ok((OperandIndex::Immediate64PlusRelative(lit, Box::new(o)), p2))
                },
                Err(e) => {
                    proof {
                        lemma_parse_operand_fuel(
                            ws@,
                            pos + 2,
                            fuel_for(ws@, pos as int + 2),
                            fuel,
                        );
                    }
                    Err(e)
                },
            }
        } else {
            Err(DecodeError::UnexpectedEof)
        }
    } else {
        Err(DecodeError::Malformed)
    }
}

// --- executable instruction codec ---------------------------------------------
/// The byte image of an instruction sequence distributes over
/// concatenation.
pub proof fn lemma_enc_program_concat(s1: Seq<Instruction>, s2: Seq<Instruction>)
    ensures
        enc_program(s1 + s2) =~= enc_program(s1) + enc_program(s2),
    decreases s1.len(),
{
    if s1.len() == 0 {
        assert(s1 + s2 =~= s2);
    } else {
        lemma_enc_program_concat(s1.drop_first(), s2);
        assert((s1 + s2).drop_first() =~= s1.drop_first() + s2);
    }
}

/// Append the encoding of one instruction, or report why it cannot be
/// encoded: an opaque instruction's body words are not retained, and an
/// instruction longer than 127 words does not fit the declared-length
/// field. On failure the buffer is unchanged.
#[verifier::rlimit(100)]
#[verifier::spinoff_prover]
pub fn encode_instruction(out: &mut Vec<u32>, i: &Instruction) -> (r: Result<(), BuildError>)
    ensures
        r is Ok <==> !(*i is Unknown) && enc_instruction(*i).len() < 128,
        r is Ok ==> final(out)@ == old(out)@ + enc_instruction(*i),
        r is Err ==> final(out)@ == old(out)@,
{
    let mut body: Vec<u32> = Vec::new();
    let ghost bwords = enc_instruction(*i).drop_first();
    let (ty, extra): (u32, u32) = match i {
        Instruction::DclGlobalFlags(d) => (OPCODE_DCL_GLOBAL_FLAGS, d.global_flags),
        Instruction::DclInput(d) => {
            encode_operand(&mut body, &d.operand);
            (OPCODE_DCL_INPUT, 0)
        },
        Instruction::DclOutput(d) => {
            encode_operand(&mut body, &d.operand);
            (OPCODE_DCL_OUTPUT, 0)
        },
        Instruction::DclConstantBuffer(d) => {
            encode_operand(&mut body, &d.operand);
            let acc: u32 = match d.access {
                ConstantBufferIndexPattern::Immediate => 0,
                ConstantBufferIndexPattern::Dynamic => 0x800,
            };
            (OPCODE_DCL_CONSTANT_BUFFER, acc)
        },
        Instruction::DclTemps(d) => {
            body.push(d.register_count);
            (OPCODE_DCL_TEMPS, 0)
        },
        Instruction::DclOutputSiv(d) => {
            encode_operand(&mut body, &d.operand);
            encode_operand(&mut body, &d.operand_2);
            (OPCODE_DCL_OUTPUT_SIV, 0)
        },
        Instruction::DclOutputSgv(d) => {
            encode_operand(&mut body, &d.operand);
            encode_operand(&mut body, &d.operand_2);
            (OPCODE_DCL_OUTPUT_SGV, 0)
        },
        Instruction::Add(d) => {
            encode_operand(&mut body, &d.dst);
            encode_operand(&mut body, &d.a);
            encode_operand(&mut body, &d.b);
            (OPCODE_ADD, if d.saturated { 0x2000 } else { 0 })
        },
        Instruction::Mul(d) => {
            encode_operand(&mut body, &d.dst);
            encode_operand(&mut body, &d.a);
            encode_operand(&mut body, &d.b);
            (OPCODE_MUL, if d.saturated { 0x2000 } else { 0 })
        },
        Instruction::Mad(d) => {
            encode_operand(&mut body, &d.dst);
            encode_operand(&mut body, &d.a);
            encode_operand(&mut body, &d.b);
            encode_operand(&mut body, &d.c);
            (OPCODE_MAD, if d.saturated { 0x2000 } else { 0 })
        },
        Instruction::Mov(d) => {
            encode_operand(&mut body, &d.dst);
            encode_operand(&mut body, &d.src);
            (OPCODE_MOV, if d.saturated { 0x2000 } else { 0 })
        },
        Instruction::SampleL(d) => {
            encode_operand(&mut body, &d.dst);
            encode_operand(&mut body, &d.src_address);
            encode_operand(&mut body, &d.src_resource);
            encode_operand(&mut body, &d.src_sampler);
            encode_operand(&mut body, &d.src_lod);
            (OPCODE_SAMPLE_L, if d.saturated { 0x2000 } else { 0 })
        },
        Instruction::Ret => (OPCODE_RET, 0),
        Instruction::Unknown(_, _, _) => {
            return Err(BuildError::UnknownOpcode);
        },
    };
    proof {
        assert(body@ =~= bwords);
        assert(Seq::<u32>::empty() + bwords =~= bwords);
    }
    if body.len() >= 127 {
        return Err(BuildError::TooLarge);
    }
    let len: u32 = 1 + body.len() as u32;
    let tok = crate::bits::opcode_token(ty, extra, len, false);
    proof {
        reveal_instr_token(*i);
        assert(enc_instruction(*i) =~= seq![enc_instruction(*i)[0]] + bwords);
        assert(tok == enc_instruction(*i)[0]);
    }
    out.push(tok);
    let mut k: usize = 0;
    while k < body.len()
        invariant
            k <= body@.len(),
            out@ =~= old(out)@ + seq![enc_instruction(*i)[0]] + body@.subrange(0, k as int),
            body@ =~= enc_instruction(*i).drop_first(),
        decreases body@.len() - k,
    {
        let v = body[k];
        out.push(v);
        proof {
            assert(body@.subrange(0, k + 1 as int) =~= body@.subrange(0, k as int) + seq![
                body@[k as int],
            ]);
        }
        k = k + 1;
    }
    proof {
        assert(body@.subrange(0, body@.len() as int) =~= body@);
        assert(final(out)@ =~= old(out)@ + enc_instruction(*i));
    }
    Ok(())
}

/// Append the encodings of a whole instruction sequence, or report the
/// first instruction that cannot be encoded. On failure the buffer holds
/// the instructions encoded so far.
#[verifier::rlimit(100)]
#[verifier::spinoff_prover]
pub fn encode_program(out: &mut Vec<u32>, is: &Vec<Instruction>) -> (r: Result<(), BuildError>)
    ensures
        r is Ok <==> forall|k: int| 0 <= k < is@.len() ==> !(#[trigger] is@[k] is Unknown)
            && enc_instruction(is@[k]).len() < 128,
        r is Ok ==> final(out)@ == old(out)@ + enc_program(is@),
        r is Err ==> exists|k: int|
            0 <= k < is@.len() && (#[trigger] is@[k] is Unknown || enc_instruction(is@[k]).len()
                >= 128) && final(out)@ == old(out)@ + enc_program(is@.subrange(0, k)) && (forall|
                j: int,
            |
                0 <= j < k ==> !(#[trigger] is@[j] is Unknown) && enc_instruction(is@[j]).len()
                    < 128),
{
    let mut k: usize = 0;
    while k < is.len()
        invariant
            k <= is@.len(),
            out@ =~= old(out)@ + enc_program(is@.subrange(0, k as int)),
            forall|j: int| 0 <= j < k ==> !(#[trigger] is@[j] is Unknown) && enc_instruction(
                is@[j],
            ).len() < 128,
        decreases is@.len() - k,
    {
        match encode_instruction(out, &is[k]) {
            Ok(()) => {},
            Err(e) => {
                proof {
                    assert(is@[k as int] is Unknown || enc_instruction(is@[k as int]).len()
                        >= 128);
                }
                return Err(e);
            },
        }
        proof {
            lemma_enc_program_concat(is@.subrange(0, k as int), seq![is@[k as int]]);
            assert(is@.subrange(0, k + 1 as int) =~= is@.subrange(0, k as int) + seq![
                is@[k as int],
            ]);
            assert(seq![is@[k as int]].drop_first() =~= Seq::<Instruction>::empty());
            assert(enc_program(Seq::<Instruction>::empty()) =~= Seq::<u32>::empty());
            assert(enc_program(seq![is@[k as int]]) =~= enc_instruction(is@[k as int]));
        }
        k = k + 1;
    }
    proof {
        assert(is@.subrange(0, is@.len() as int) =~= is@);
    }
    Ok(())
}

/// Decode the operands of a modeled opcode `ty` whose opcode token is
/// `w`, starting at `p`. The result is exactly the spec body parse.
#[verifier::rlimit(100)]
#[verifier::spinoff_prover]
fn decode_instruction_body(ws: &Vec<u32>, p: usize, w: u32, ty: u32) -> (r: Result<
    (Instruction, usize),
    DecodeError,
>)
    requires
        p <= ws@.len(),
        is_modeled_opcode(ty),
    ensures
        match r {
            Ok((i, end)) => p <= end <= ws@.len() && parse_instruction_body(
                ws@,
                p as int,
                w,
                ty,
            ) == Ok::<(Instruction, int), DecodeError>((i, end as int)),
            Err(e) => parse_instruction_body(ws@, p as int, w, ty) == Err::<
                (Instruction, int),
                DecodeError,
            >(e),
        },
{
    if ty == OPCODE_DCL_GLOBAL_FLAGS {
        Ok((Instruction::DclGlobalFlags(DclGlobalFlags { global_flags: w & 0xfff800 }), p))
    } else if ty == OPCODE_RET {
        Ok((Instruction::Ret, p))
    } else if ty == OPCODE_DCL_TEMPS {
        if p < ws.len() {
            Ok((Instruction::DclTemps(DclTemps { register_count: ws[p] }), p + 1))
        } else {
            Err(DecodeError::UnexpectedEof)
        }
    } else if ty == OPCODE_DCL_INPUT {
        match decode_operand(ws, p) {
            Ok((op, p1)) => Ok((Instruction::DclInput(DclInput { operand: op }), p1)),
            Err(e) => Err(e),
        }
    } else if ty == OPCODE_DCL_OUTPUT {
        match decode_operand(ws, p) {
            Ok((op, p1)) => Ok((Instruction::DclOutput(DclOutput { operand: op }), p1)),
            Err(e) => Err(e),
        }
    } else if ty == OPCODE_DCL_CONSTANT_BUFFER {
        match decode_operand(ws, p) {
            Ok(
                (op, p1),
            ) => Ok(
                (
                    Instruction::DclConstantBuffer(
                        DclConstantBuffer {
                            operand: op,
                            access: if (w >> 11) & 1 == 1 {
                                ConstantBufferIndexPattern::Dynamic
                            } else {
                                ConstantBufferIndexPattern::Immediate
                            },
                        },
                    ),
                    p1,
                ),
            ),
            Err(e) => Err(e),
        }
    } else if ty == OPCODE_DCL_OUTPUT_SIV {
        match decode_operand(ws, p) {
            Ok((op, p1)) => match decode_operand(ws, p1) {
                Ok(
                    (op2, p2),
                ) => Ok(
                    (Instruction::DclOutputSiv(DclOutputSiv { operand: op, operand_2: op2 }), p2),
                ),
                Err(e) => Err(e),
            },
            Err(e) => Err(e),
        }
    } else if ty == OPCODE_DCL_OUTPUT_SGV {
        match decode_operand(ws, p) {
            Ok((op, p1)) => match decode_operand(ws, p1) {
                Ok(
                    (op2, p2),
                ) => Ok(
                    (Instruction::DclOutputSgv(DclOutputSgv { operand: op, operand_2: op2 }), p2),
                ),
                Err(e) => Err(e),
            },
            Err(e) => Err(e),
        }
    } else {
        decode_instruction_body_arith(ws, p, w, ty)
    }
}

/// The arithmetic-opcode half of `decode_instruction_body`.
#[verifier::rlimit(100)]
#[verifier::spinoff_prover]
fn decode_instruction_body_arith(ws: &Vec<u32>, p: usize, w: u32, ty: u32) -> (r: Result<
    (Instruction, usize),
    DecodeError,
>)
    requires
        p <= ws@.len(),
        ty == OPCODE_MOV || ty == OPCODE_ADD || ty == OPCODE_MUL || ty == OPCODE_MAD || ty
            == OPCODE_SAMPLE_L,
    ensures
        match r {
            Ok((i, end)) => p <= end <= ws@.len() && parse_instruction_body(
                ws@,
                p as int,
                w,
                ty,
            ) == Ok::<(Instruction, int), DecodeError>((i, end as int)),
            Err(e) => parse_instruction_body(ws@, p as int, w, ty) == Err::<
                (Instruction, int),
                DecodeError,
            >(e),
        },
{
    if ty == OPCODE_MOV {
        match decode_operand(ws, p) {
            Ok((dst, p1)) => match decode_operand(ws, p1) {
                Ok(
                    (src, p2),
                ) => Ok(
                    (Instruction::Mov(Mov { saturated: w & 0x2000 != 0, dst: dst, src: src }), p2),
                ),
                Err(e) => Err(e),
            },
            Err(e) => Err(e),
        }
    } else if ty == OPCODE_ADD || ty == OPCODE_MUL {
        match decode_operand(ws, p) {
            Ok((dst, p1)) => match decode_operand(ws, p1) {
                Ok((a, p2)) => match decode_operand(ws, p2) {
                    Ok((b, p3)) => if ty == OPCODE_ADD {
                        Ok(
                            (
                                Instruction::Add(
                                    Add { saturated: w & 0x2000 != 0, dst: dst, a: a, b: b },
                                ),
                                p3,
                            ),
                        )
                    } else {
                        Ok(
                            (
                                Instruction::Mul(
                                    Mul { saturated: w & 0x2000 != 0, dst: dst, a: a, b: b },
                                ),
                                p3,
                            ),
                        )
                    },
                    Err(e) => Err(e),
                },
                Err(e) => Err(e),
            },
            Err(e) => Err(e),
        }
    } else if ty == OPCODE_MAD {
        match decode_operand(ws, p) {
            Ok((dst, p1)) => match decode_operand(ws, p1) {
                Ok((a, p2)) => match decode_operand(ws, p2) {
                    Ok((b, p3)) => match decode_operand(ws, p3) {
                        Ok(
                            (c, p4),
                        ) => Ok(
                            (
                                Instruction::Mad(
                                    Mad { saturated: w & 0x2000 != 0, dst: dst, a: a, b: b, c: c },
                                ),
                                p4,
                            ),
                        ),
                        Err(e) => Err(e),
                    },
                    Err(e) => Err(e),
                },
                Err(e) => Err(e),
            },
            Err(e) => Err(e),
        }
    } else {
        match decode_operand(ws, p) {
            Ok((dst, p1)) => match decode_operand(ws, p1) {
                Ok((sa, p2)) => match decode_operand(ws, p2) {
                    Ok((sr, p3)) => match decode_operand(ws, p3) {
                        Ok((ss, p4)) => match decode_operand(ws, p4) {
                            Ok(
                                (sl, p5),
                            ) => Ok(
                                (
                                    Instruction::SampleL(
                                        SampleL {
                                            saturated: w & 0x2000 != 0,
                                            dst: dst,
                                            src_address: sa,
                                            src_resource: sr,
                                            src_sampler: ss,
                                            src_lod: sl,
                                        },
                                    ),
                                    p5,
                                ),
                            ),
                            Err(e) => Err(e),
                        },
                        Err(e) => Err(e),
                    },
                    Err(e) => Err(e),
                },
                Err(e) => Err(e),
            },
            Err(e) => Err(e),
        }
    }
}

/// Decode one instruction at word position `pos`. The result is exactly
/// the spec parse.
#[verifier::rlimit(100)]
#[verifier::spinoff_prover]
pub fn decode_instruction(ws: &Vec<u32>, pos: usize) -> (r: Result<
    (Instruction, usize),
    DecodeError,
>)
    ensures
        match r {
            Ok((i, end)) => pos < end <= ws@.len() && parse_instruction(ws@, pos as int) == Ok::<
                (Instruction, int),
                DecodeError,
            >((i, end as int)),
            Err(e) => parse_instruction(ws@, pos as int) == Err::<(Instruction, int), DecodeError>(
                e,
            ),
        },
{
    if pos >= ws.len() {
        return Err(DecodeError::UnexpectedEof);
    }
    let w = ws[pos];
    let ty = w & 0x7ff;
    let dlen = (w >> 24) & 0x7f;
    let modeled = ty == OPCODE_ADD || ty == OPCODE_MAD || ty == OPCODE_MOV || ty == OPCODE_MUL
        || ty == OPCODE_RET || ty == OPCODE_SAMPLE_L || ty == OPCODE_DCL_CONSTANT_BUFFER || ty
        == OPCODE_DCL_INPUT || ty == OPCODE_DCL_OUTPUT || ty == OPCODE_DCL_OUTPUT_SGV || ty
        == OPCODE_DCL_OUTPUT_SIV || ty == OPCODE_DCL_TEMPS || ty == OPCODE_DCL_GLOBAL_FLAGS;
    if !modeled {
        if dlen == 0 {
            return Err(DecodeError::Malformed);
        }
        if ws.len() - pos >= dlen as usize {
            return Ok((Instruction::Unknown(w, ty, dlen), pos + dlen as usize));
        } else {
            return Err(DecodeError::UnexpectedEof);
        }
    }
    // walk the extended-opcode chain
    let ghost ext0 = sp_opcode_extended(w);
    let mut ext = (w >> 31) & 1 == 1;
    let mut bp: usize = pos + 1;
    while ext
        invariant
            pos + 1 <= bp <= ws@.len(),
            ws@.len() <= usize::MAX,
            pos < ws@.len(),
            w == ws@[pos as int],
            is_modeled_opcode(sp_opcode_type(w)),
            ext0 == sp_opcode_extended(w),
            skip_ext_opcodes(ws@, pos + 1 as int, ext0) == skip_ext_opcodes(ws@, bp as int, ext),
        decreases ws@.len() - bp + 1,
    {
        if bp >= ws.len() {
            return Err(DecodeError::UnexpectedEof);
        }
        ext = (ws[bp] >> 31) & 1 == 1;
        bp = bp + 1;
    }
    proof {
        assert(skip_ext_opcodes(ws@, pos + 1 as int, ext0) == Some(bp as int));
    }
    match decode_instruction_body(ws, bp, w, ty) {
        Err(e) => Err(e),
        Ok((ins, end)) => {
            if dlen as usize == end - pos {
                Ok((ins, end))
            } else {
                Err(DecodeError::Malformed)
            }
        },
    }
}

/// Decode an instruction stream from `pos` to the end of the buffer. The
/// result is exactly the spec parse of the whole stream.
pub fn decode_program(ws: &Vec<u32>, pos: usize) -> (r: Result<Vec<Instruction>, DecodeError>)
    requires
        pos <= ws@.len(),
    ensures
        match r {
            Ok(is) => parse_program(ws@, pos as int) == Ok::<Seq<Instruction>, DecodeError>(is@),
            Err(e) => parse_program(ws@, pos as int) == Err::<Seq<Instruction>, DecodeError>(e),
        },
{
    let mut acc: Vec<Instruction> = Vec::new();
    let mut p: usize = pos;
    loop
        invariant
            pos <= p <= ws@.len(),
            forall|rest: Seq<Instruction>|
                (parse_program(ws@, p as int) == Ok::<Seq<Instruction>, DecodeError>(rest)
                    ==> parse_program(ws@, pos as int) == Ok::<Seq<Instruction>, DecodeError>(
                    acc@ + rest,
                )),
            forall|e: DecodeError|
                (parse_program(ws@, p as int) == Err::<Seq<Instruction>, DecodeError>(e)
                    ==> parse_program(ws@, pos as int) == Err::<Seq<Instruction>, DecodeError>(e)),
        decreases ws@.len() - p,
    {
        if p >= ws.len() {
            proof {
                assert(parse_program(ws@, p as int) == Ok::<Seq<Instruction>, DecodeError>(
                    Seq::empty(),
                ));
                assert(acc@ + Seq::<Instruction>::empty() =~= acc@);
            }
            return Ok(acc);
        }
        match decode_instruction(ws, p) {
            Err(e) => {
                return Err(e);
            },
            Ok((i, end)) => {
                proof {
                    assert forall|rest: Seq<Instruction>|
                        parse_program(ws@, end as int) == Ok::<Seq<Instruction>, DecodeError>(
                            rest,
                        ) implies parse_program(ws@, pos as int) == Ok::<
                        Seq<Instruction>,
                        DecodeError,
                    >(acc@.push(i) + rest) by {
                        assert(parse_program(ws@, p as int) == Ok::<Seq<Instruction>, DecodeError>(
                            seq![i] + rest,
                        ));
                        assert(acc@ + (seq![i] + rest) =~= acc@.push(i) + rest);
                    }
                }
                acc.push(i);
                p = end;
            },
        }
    }
}

// --- system-value names -------------------------------------------------------
/// A system-interpreted value name carried by an output declaration's
/// second token.
#[derive(Clone, Copy, Debug, PartialEq, Eq, Structural)]
pub enum NameToken {
    Undefined,
    Position,
    ClipDistance,
    CullDistance,
    RenderTargetArrayIndex,
    ViewportArrayIndex,
    VertexId,
    PrimitiveId,
    InstanceId,
    IsFrontFace,
    SampleIndex,
    FinalQuadUEq0EdgeTessfactor,
    FinalQuadVEq0EdgeTessfactor,
    FinalQuadUEq1EdgeTessfactor,
    FinalQuadVEq1EdgeTessfactor,
    FinalQuadUInsideTessfactor,
    FinalQuadVInsideTessfactor,
    FinalTriUEq0EdgeTessfactor,
    FinalTriVEq0EdgeTessfactor,
    FinalTriWEq0EdgeTessfactor,
    FinalTriinsidetessfactor,
    FinalLineDetailTessfactor,
    FinalLineDensityTessfactor,
}

/// The system-value name denoted by a sixteen-bit name field, if any.
pub open spec fn name_token_from(w: u32) -> Option<NameToken> {
    if w == 0 {
        Some(NameToken::Undefined)
    } else if w == 1 {
        Some(NameToken::Position)
    } else if w == 2 {
        Some(NameToken::ClipDistance)
    } else if w == 3 {
        Some(NameToken::CullDistance)
    } else if w == 4 {
        Some(NameToken::RenderTargetArrayIndex)
    } else if w == 5 {
        Some(NameToken::ViewportArrayIndex)
    } else if w == 6 {
        Some(NameToken::VertexId)
    } else if w == 7 {
        Some(NameToken::PrimitiveId)
    } else if w == 8 {
        Some(NameToken::InstanceId)
    } else if w == 9 {
        Some(NameToken::IsFrontFace)
    } else if w == 10 {
        Some(NameToken::SampleIndex)
    } else if w == 11 {
        Some(NameToken::FinalQuadUEq0EdgeTessfactor)
    } else if w == 12 {
        Some(NameToken::FinalQuadVEq0EdgeTessfactor)
    } else if w == 13 {
        Some(NameToken::FinalQuadUEq1EdgeTessfactor)
    } else if w == 14 {
        Some(NameToken::FinalQuadVEq1EdgeTessfactor)
    } else if w == 15 {
        Some(NameToken::FinalQuadUInsideTessfactor)
    } else if w == 16 {
        Some(NameToken::FinalQuadVInsideTessfactor)
    } else if w == 17 {
        Some(NameToken::FinalTriUEq0EdgeTessfactor)
    } else if w == 18 {
        Some(NameToken::FinalTriVEq0EdgeTessfactor)
    } else if w == 19 {
        Some(NameToken::FinalTriWEq0EdgeTessfactor)
    } else if w == 20 {
        Some(NameToken::FinalTriinsidetessfactor)
    } else if w == 21 {
        Some(NameToken::FinalLineDetailTessfactor)
    } else if w == 22 {
        Some(NameToken::FinalLineDensityTessfactor)
    } else {
        None
    }
}

impl NameToken {
    /// The system-value name denoted by a name token word's low sixteen
    /// bits, if any.
    pub fn from_word(word: u32) -> (r: Option<NameToken>)
        ensures
            r == name_token_from(word & 0xffff),
    {
        let w = word & 0xffff;
        if w == 0 {
            Some(NameToken::Undefined)
        } else if w == 1 {
            Some(NameToken::Position)
        } else if w == 2 {
            Some(NameToken::ClipDistance)
        } else if w == 3 {
            Some(NameToken::CullDistance)
        } else if w == 4 {
            Some(NameToken::RenderTargetArrayIndex)
        } else if w == 5 {
            Some(NameToken::ViewportArrayIndex)
        } else if w == 6 {
            Some(NameToken::VertexId)
        } else if w == 7 {
            Some(NameToken::PrimitiveId)
        } else if w == 8 {
            Some(NameToken::InstanceId)
        } else if w == 9 {
            Some(NameToken::IsFrontFace)
        } else if w == 10 {
            Some(NameToken::SampleIndex)
        } else if w == 11 {
            Some(NameToken::FinalQuadUEq0EdgeTessfactor)
        } else if w == 12 {
            Some(NameToken::FinalQuadVEq0EdgeTessfactor)
        } else if w == 13 {
            Some(NameToken::FinalQuadUEq1EdgeTessfactor)
        } else if w == 14 {
            Some(NameToken::FinalQuadVEq1EdgeTessfactor)
        } else if w == 15 {
            Some(NameToken::FinalQuadUInsideTessfactor)
        } else if w == 16 {
            Some(NameToken::FinalQuadVInsideTessfactor)
        } else if w == 17 {
            Some(NameToken::FinalTriUEq0EdgeTessfactor)
        } else if w == 18 {
            Some(NameToken::FinalTriVEq0EdgeTessfactor)
        } else if w == 19 {
            Some(NameToken::FinalTriWEq0EdgeTessfactor)
        } else if w == 20 {
            Some(NameToken::FinalTriinsidetessfactor)
        } else if w == 21 {
            Some(NameToken::FinalLineDetailTessfactor)
        } else if w == 22 {
            Some(NameToken::FinalLineDensityTessfactor)
        } else {
            None
        }
    }
}

// --- program chunk header -------------------------------------------------------
/// The header of a tokenized-program chunk: the shader version nibbles,
/// the program type, and the instruction stream's dword count — the
/// stored count minus the two header words.
#[derive(Clone, Copy, Debug, PartialEq, Eq, Structural)]
pub struct ShexHeader {
    pub minor: u8,
    pub major: u8,
    pub program_type: u16,
    pub instruction_length: u32,
}

/// Decode the eight-byte header of a tokenized-program chunk payload. The
/// version byte splits into the minor nibble below the major; the stored
/// dword count includes the two header words, so a count under two is
/// malformed.
pub fn decode_shex_header(b: &Vec<u8>) -> (r: Result<ShexHeader, DecodeError>)
    ensures
        r is Ok <==> b@.len() >= 8 && crate::bytes::le_u32_at(b@, 4) >= 2,
        b@.len() < 8 ==> r == Err::<ShexHeader, DecodeError>(DecodeError::UnexpectedEof),
        b@.len() >= 8 && crate::bytes::le_u32_at(b@, 4) < 2 ==> r == Err::<
            ShexHeader,
            DecodeError,
        >(DecodeError::Malformed),
        r matches Ok(h) ==> h.minor == b@[0] & 0xf && h.major == b@[0] >> 4 && h.program_type
            == crate::bytes::le_u16(b@[2], b@[3]) && h.instruction_length == crate::bytes::le_u32_at(
            b@,
            4,
        ) - 2,
{
    let mut cur = crate::cursor::Cursor::new(b);
    let version = match cur.read_u8() {
        Ok(v) => v,
        Err(_) => {
            return Err(DecodeError::UnexpectedEof);
        },
    };
    match cur.skip(1) {
        Ok(()) => {},
        Err(_) => {
            return Err(DecodeError::UnexpectedEof);
        },
    }
    let program_type = match cur.read_u16() {
        Ok(v) => v,
        Err(_) => {
            return Err(DecodeError::UnexpectedEof);
        },
    };
    let stored = match cur.read_u32() {
        Ok(v) => v,
        Err(_) => {
            return Err(DecodeError::UnexpectedEof);
        },
    };
    if stored < 2 {
        return Err(DecodeError::Malformed);
    }
    Ok(
        ShexHeader {
            minor: version & 0xf,
            major: version >> 4,
            program_type: program_type,
            instruction_length: stored - 2,
        },
    )
}

} // verus!
