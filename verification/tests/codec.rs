use dxbc::bits::{instruction_length_of, is_token_extended, opcode_token, operand_token};
use dxbc::builder::{verify_checksum, Builder, DxbcModule, ShexChunk, DXBC_MAGIC, ISGN_MAGIC};
use dxbc::bytes::{to_bytes, to_words};
use dxbc::container::decode_container;
use dxbc::cursor::Cursor;
use dxbc::isgn::{decode_iosgn, IOsgnChunk, InputOutputElement};
use dxbc::rdef::RdefChunk;
use dxbc::shex::{
    decode_instruction, decode_operand, decode_program, encode_instruction, encode_operand,
    encode_program, Add, ComponentName, ComponentSelection, ComponentSwizzle, Immediate,
    Instruction, NameToken, Operand, OperandIndex, OperandIndices, OperandModifier, OperandType,
};
use dxbc::DecodeError;

fn color_element() -> InputOutputElement {
    InputOutputElement {
        name: b"COLOR".to_vec(),
        semantic_index: 0,
        semantic_type: 0,
        component_type: 3,
        register: 0,
        component_mask: 15,
        rw_mask: 15,
    }
}

fn mask_operand(ty: OperandType, reg: u32, mask: u8) -> Operand {
    Operand {
        operand_type: ty,
        num_components: dxbc::shex::NumComponents::Four,
        selection: ComponentSelection::Mask(mask),
        modifier: None,
        indices: OperandIndices::D1(OperandIndex::Immediate32(reg)),
        immediate: None,
    }
}

fn swizzle_operand(
    ty: OperandType,
    reg: u32,
    s: (ComponentName, ComponentName, ComponentName, ComponentName),
    modifier: Option<OperandModifier>,
) -> Operand {
    Operand {
        operand_type: ty,
        num_components: dxbc::shex::NumComponents::Four,
        selection: ComponentSelection::Swizzle(ComponentSwizzle(s.0, s.1, s.2, s.3)),
        modifier,
        indices: OperandIndices::D1(OperandIndex::Immediate32(reg)),
        immediate: None,
    }
}

#[test]
fn isgn_color_element_round_trips() {
    let chunk = IOsgnChunk {
        elements: vec![color_element()],
    };
    let mut m = DxbcModule::new();
    m.write_iosgn(&chunk, ISGN_MAGIC).unwrap();
    // the chunk payload starts after the tag and byte-length words
    let payload_words: Vec<u32> = m.dwords[2..].to_vec();
    assert_eq!(m.dwords[0], ISGN_MAGIC);
    assert_eq!(m.dwords[1] as usize, 4 * payload_words.len());
    let payload = to_bytes(&payload_words);
    let decoded = decode_iosgn(&payload).unwrap();
    assert_eq!(decoded.elements.len(), 1);
    let e = &decoded.elements[0];
    assert_eq!(e.name, b"COLOR".to_vec());
    assert_eq!(e.semantic_index, 0);
    assert_eq!(e.component_type, 3);
    assert_eq!(e.register, 0);
    assert_eq!(e.component_mask, 15);
    assert_eq!(e.rw_mask, 15);
}

#[test]
fn isgn_duplicate_names_and_empty_list_round_trip() {
    let chunk = IOsgnChunk {
        elements: vec![color_element(), color_element()],
    };
    let mut m = DxbcModule::new();
    m.write_isgn(&chunk).unwrap();
    let payload = to_bytes(&m.dwords[2..].to_vec());
    let decoded = decode_iosgn(&payload).unwrap();
    assert_eq!(decoded, chunk);

    let empty = IOsgnChunk { elements: vec![] };
    let mut m2 = DxbcModule::new();
    m2.write_osgn(&empty).unwrap();
    let payload2 = to_bytes(&m2.dwords[2..].to_vec());
    assert_eq!(decode_iosgn(&payload2).unwrap(), empty);
}

#[test]
fn ret_instruction_round_trips_with_length_one() {
    let mut ws: Vec<u32> = Vec::new();
    encode_instruction(&mut ws, &Instruction::Ret).unwrap();
    assert_eq!(ws.len(), 1);
    assert_eq!(instruction_length_of(ws[0]), 1);
    let (decoded, end) = decode_instruction(&ws, 0).unwrap();
    assert_eq!(decoded, Instruction::Ret);
    assert_eq!(end, 1);
}

#[test]
fn add_with_mask_and_swizzles_round_trips() {
    let add = Instruction::Add(Add {
        saturated: false,
        dst: mask_operand(OperandType::Output, 0, 0xf),
        a: swizzle_operand(
            OperandType::Input,
            0,
            (
                ComponentName::X,
                ComponentName::Y,
                ComponentName::Z,
                ComponentName::W,
            ),
            None,
        ),
        b: swizzle_operand(
            OperandType::Input,
            0,
            (
                ComponentName::X,
                ComponentName::X,
                ComponentName::Y,
                ComponentName::Y,
            ),
            Some(OperandModifier::AbsNeg),
        ),
    });
    let mut ws: Vec<u32> = Vec::new();
    encode_program(&mut ws, &vec![add]).unwrap();
    let decoded = decode_program(&ws, 0).unwrap();
    assert_eq!(decoded.len(), 1);
    match &decoded[0] {
        Instruction::Add(d) => {
            assert!(!d.saturated);
            assert_eq!(d.dst.selection, ComponentSelection::Mask(0xf));
            assert_eq!(
                d.a.selection,
                ComponentSelection::Swizzle(ComponentSwizzle(
                    ComponentName::X,
                    ComponentName::Y,
                    ComponentName::Z,
                    ComponentName::W,
                ))
            );
            assert_eq!(
                d.b.selection,
                ComponentSelection::Swizzle(ComponentSwizzle(
                    ComponentName::X,
                    ComponentName::X,
                    ComponentName::Y,
                    ComponentName::Y,
                ))
            );
            assert_eq!(d.b.modifier, Some(OperandModifier::AbsNeg));
            assert_eq!(d.a.modifier, None);
            assert_eq!(d.dst.modifier, None);
        }
        other => panic!("decoded the wrong instruction: {:?}", other),
    }
}

#[test]
fn relative_d3_operand_round_trips() {
    let nested = |reg: u32| {
        Box::new(Operand {
            operand_type: OperandType::Temp,
            num_components: dxbc::shex::NumComponents::One,
            selection: ComponentSelection::Mask(0),
            modifier: None,
            indices: OperandIndices::D1(OperandIndex::Immediate32(reg)),
            immediate: None,
        })
    };
    let op = Operand {
        operand_type: OperandType::ConstantBuffer,
        num_components: dxbc::shex::NumComponents::Four,
        selection: ComponentSelection::Mask(0xf),
        modifier: None,
        indices: OperandIndices::D3(
            OperandIndex::Relative(nested(1)),
            OperandIndex::Relative(nested(2)),
            OperandIndex::Relative(nested(3)),
        ),
        immediate: None,
    };
    let mut ws: Vec<u32> = Vec::new();
    encode_operand(&mut ws, &op);
    // the token word plus three nested two-word operands
    assert_eq!(ws.len(), 1 + 3 * 2);
    let (decoded, end) = decode_operand(&ws, 0).unwrap();
    assert_eq!(decoded, op);
    assert_eq!(end, ws.len());
}

#[test]
fn immediate_operand_round_trips() {
    let op = Operand {
        operand_type: OperandType::Immediate32,
        num_components: dxbc::shex::NumComponents::Four,
        selection: ComponentSelection::Mask(0),
        modifier: None,
        indices: OperandIndices::D0,
        immediate: Some(Immediate::U32x4(1, 2, 3, 0xffffffff)),
    };
    let mut ws: Vec<u32> = Vec::new();
    encode_operand(&mut ws, &op);
    let (decoded, end) = decode_operand(&ws, 0).unwrap();
    assert_eq!(decoded, op);
    assert_eq!(end, 5);
}

#[test]
fn unknown_opcode_is_skipped_exactly() {
    // an opcode type outside the modeled table, declared length three
    let w = opcode_token(200, 0, 3, false);
    let ws = vec![w, 0xdead, 0xbeef, opcode_token(62, 0, 1, false)];
    let decoded = decode_program(&ws, 0).unwrap();
    assert_eq!(decoded.len(), 2);
    assert_eq!(decoded[0], Instruction::Unknown(w, 200, 3));
    assert_eq!(decoded[1], Instruction::Ret);
}

#[test]
fn zero_declared_length_is_malformed() {
    let w = opcode_token(200, 0, 0, false);
    let ws = vec![w];
    assert_eq!(decode_program(&ws, 0), Err(DecodeError::Malformed));
}

#[test]
fn container_checksum_verifies_after_build() {
    let mut builder = Builder::new();
    builder.set_isgn(IOsgnChunk {
        elements: vec![color_element()],
    });
    let mut shex = ShexChunk::new();
    shex.add_instruction(Instruction::Ret);
    builder.set_shex(shex);
    let module = builder.module().unwrap();
    assert!(verify_checksum(&module));
    assert_eq!(module.dwords[0], DXBC_MAGIC);
    assert_eq!(module.dwords[5] as usize, module.dwords.len() - 5);
    assert_eq!(module.dwords[6], 2);
}

#[test]
fn container_round_trips_through_decode() {
    let mut builder = Builder::new();
    builder.set_rdef(RdefChunk {
        shader_ty: 1,
        major: 5,
        minor: 0,
        flags: 0,
        author: b"dxbc assembler".to_vec(),
        constant_buffer_count: 0,
        resource_binding_count: 0,
    });
    builder.set_isgn(IOsgnChunk {
        elements: vec![color_element()],
    });
    let module = builder.module().unwrap();
    let bytes = module.as_bytes();
    let container = decode_container(&bytes).unwrap();
    assert_eq!(container.total_size as usize, module.dwords.len() - 5);
    assert_eq!(container.chunks.len(), 2);
    assert_eq!(container.chunks[0].tag, dxbc::builder::RDEF_MAGIC);
    assert_eq!(container.chunks[1].tag, ISGN_MAGIC);
    let sig = decode_iosgn(&container.chunks[1].payload).unwrap();
    assert_eq!(sig.elements.len(), 1);
    assert_eq!(sig.elements[0].name, b"COLOR".to_vec());
}

#[test]
fn unknown_chunk_tag_is_preserved() {
    // a hand-built container with one chunk whose tag is outside the
    // modeled set: magic, checksum, size, count 1, directory, chunk
    let tag: u32 = 0x21545354;
    let words: Vec<u32> = vec![
        DXBC_MAGIC, 0, 0, 0, 0, 6, 1, 32, tag, 8, 0x11111111, 0x22222222,
    ];
    let bytes = to_bytes(&words);
    let container = decode_container(&bytes).unwrap();
    assert_eq!(container.chunks.len(), 1);
    assert_eq!(container.chunks[0].tag, tag);
    assert_eq!(
        container.chunks[0].payload,
        to_bytes(&vec![0x11111111, 0x22222222])
    );
}

#[test]
fn bad_magic_is_rejected() {
    let words: Vec<u32> = vec![0x12345678, 0, 0, 0, 0, 2, 0];
    let bytes = to_bytes(&words);
    assert_eq!(decode_container(&bytes), Err(DecodeError::InvalidMagic));
}

#[test]
fn truncated_buffer_is_eof() {
    let bytes: Vec<u8> = vec![0x44, 0x58];
    assert_eq!(decode_container(&bytes), Err(DecodeError::UnexpectedEof));
    assert_eq!(decode_iosgn(&bytes), Err(DecodeError::UnexpectedEof));
}

#[test]
fn cursor_reads_little_endian() {
    let data: Vec<u8> = vec![0x44, 0x58, 0x42, 0x43, 0x41, 0x42, 0x00, 0xff];
    let mut cur = Cursor::new(&data);
    assert_eq!(cur.read_u32().unwrap(), DXBC_MAGIC);
    assert_eq!(cur.read_u16().unwrap(), 0x4241);
    let mut text_cur = cur.seek(4).unwrap();
    assert_eq!(text_cur.str().unwrap(), b"AB".to_vec());
    assert_eq!(cur.position(), 6);
    assert_eq!(cur.read_u8().unwrap(), 0);
    assert_eq!(cur.read_u32(), Err(DecodeError::UnexpectedEof));
}

#[test]
fn word_byte_serialization_round_trips() {
    let ws: Vec<u32> = vec![0, 1, 0xdeadbeef, 0xffffffff];
    let bytes = to_bytes(&ws);
    assert_eq!(bytes.len(), 16);
    assert_eq!(bytes[8], 0xef);
    assert_eq!(to_words(&bytes), ws);
}

#[test]
fn token_fields_round_trip() {
    let w = opcode_token(62, 0x2000, 5, false);
    assert_eq!(instruction_length_of(w), 5);
    assert!(!is_token_extended(w));
    let t = operand_token(2, 1, 0xe4, 1, 1, 0, 0, 0, true);
    assert!(is_token_extended(t));
}

#[test]
fn name_tokens_decode_by_value() {
    assert_eq!(NameToken::from_word(1), Some(NameToken::Position));
    assert_eq!(NameToken::from_word(0), Some(NameToken::Undefined));
    assert_eq!(NameToken::from_word(23), None);
    // only the low sixteen bits name the value
    assert_eq!(NameToken::from_word(0x10006), Some(NameToken::VertexId));
}

#[test]
fn shex_header_decodes_version_and_length() {
    // version 5.0 pixel shader, six dwords declared
    let words: Vec<u32> = vec![0x50, 6];
    let bytes = to_bytes(&words);
    let h = dxbc::shex::decode_shex_header(&bytes).unwrap();
    assert_eq!(h.major, 5);
    assert_eq!(h.minor, 0);
    assert_eq!(h.program_type, 0);
    assert_eq!(h.instruction_length, 4);
    let bad = to_bytes(&vec![0x50, 1]);
    assert_eq!(
        dxbc::shex::decode_shex_header(&bad),
        Err(DecodeError::Malformed)
    );
}

#[test]
fn oversized_instruction_is_rejected() {
    // an instruction whose operands exceed the seven-bit length field
    let mut imms: Vec<Instruction> = Vec::new();
    let imm_op = |v: u32| Operand {
        operand_type: OperandType::Immediate32,
        num_components: dxbc::shex::NumComponents::Four,
        selection: ComponentSelection::Mask(0),
        modifier: None,
        indices: OperandIndices::D0,
        immediate: Some(Immediate::U32x4(v, v, v, v)),
    };
    // mad with four 5-word operands is fine; build a SampleL whose
    // operands of 26 nested levels would be over 127 words
    let mut deep = Operand {
        operand_type: OperandType::Temp,
        num_components: dxbc::shex::NumComponents::One,
        selection: ComponentSelection::Mask(0),
        modifier: None,
        indices: OperandIndices::D1(OperandIndex::Immediate32(0)),
        immediate: None,
    };
    for _ in 0..130 {
        deep = Operand {
            operand_type: OperandType::Temp,
            num_components: dxbc::shex::NumComponents::One,
            selection: ComponentSelection::Mask(0),
            modifier: None,
            indices: OperandIndices::D1(OperandIndex::Relative(Box::new(deep))),
            immediate: None,
        };
    }
    let too_big = Instruction::Mov(dxbc::shex::Mov {
        saturated: false,
        dst: imm_op(0),
        src: deep,
    });
    let mut ws: Vec<u32> = Vec::new();
    assert!(encode_instruction(&mut ws, &too_big).is_err());
    assert!(ws.is_empty());
    imms.push(too_big);
    let mut ws2: Vec<u32> = Vec::new();
    assert!(encode_program(&mut ws2, &imms).is_err());
}

#[test]
fn opaque_instruction_cannot_be_reencoded() {
    let mut ws: Vec<u32> = Vec::new();
    assert_eq!(
        encode_instruction(&mut ws, &Instruction::Unknown(5, 5, 1)),
        Err(dxbc::BuildError::UnknownOpcode)
    );
}
