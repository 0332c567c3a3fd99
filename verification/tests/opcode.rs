use chip8_core::opcode::{decode_opcode, Fields, Instruction};

#[test]
fn decoder_is_bit_exact() {
    let add = decode_opcode(0x8014);
    assert_eq!(add, Fields { class: 8, x: 0, y: 1, d: 4, nnn: 0x014 });
    let call = decode_opcode(0x2200);
    assert_eq!(call.class, 2);
    assert_eq!(call.nnn, 0x200);
    assert_eq!(call, Fields { class: 2, x: 2, y: 0, d: 0, nnn: 0x200 });
}

#[test]
fn decoder_extremes() {
    assert_eq!(decode_opcode(0x0000), Fields { class: 0, x: 0, y: 0, d: 0, nnn: 0 });
    assert_eq!(decode_opcode(0xFFFF), Fields { class: 15, x: 15, y: 15, d: 15, nnn: 0xFFF });
    assert_eq!(decode_opcode(0x1234), Fields { class: 1, x: 2, y: 3, d: 4, nnn: 0x234 });
    assert_eq!(decode_opcode(0x00EE), Fields { class: 0, x: 0, y: 0xE, d: 0xE, nnn: 0x0EE });
}

#[test]
fn fields_recompose_to_the_opcode() {
    for opcode in 0..=0xFFFFu16 {
        let f = decode_opcode(opcode);
        assert!(f.class < 16 && f.x < 16 && f.y < 16 && f.d < 16 && f.nnn < 0x1000);
        assert_eq!(f.nnn, (f.x as u16) << 8 | (f.y as u16) << 4 | f.d as u16);
        assert_eq!(opcode, (f.class as u16) << 12 | f.nnn);
    }
}

#[test]
fn instruction_set() {
    assert_eq!(decode_opcode(0x0000).instruction(), Some(Instruction::Halt));
    assert_eq!(decode_opcode(0x00EE).instruction(), Some(Instruction::Return));
    assert_eq!(decode_opcode(0x2200).instruction(), Some(Instruction::Call { address: 0x200 }));
    assert_eq!(decode_opcode(0x2FFF).instruction(), Some(Instruction::Call { address: 0xFFF }));
    assert_eq!(
        decode_opcode(0x8014).instruction(),
        Some(Instruction::AddRegisters { x: 0, y: 1 })
    );
    assert_eq!(
        decode_opcode(0x8EF4).instruction(),
        Some(Instruction::AddRegisters { x: 0xE, y: 0xF })
    );
}

#[test]
fn near_misses_are_not_instructions() {
    for opcode in [0x1234u16, 0x00E0, 0x000E, 0x00EF, 0x0100, 0x8015, 0x8010, 0x3000, 0xFFFF, 0x00FE] {
        assert_eq!(decode_opcode(opcode).instruction(), None, "opcode {:04x}", opcode);
    }
}

#[test]
fn instruction_reads_the_fields_not_the_address() {
    // The address field plays no part in telling the instructions apart.
    let fields = Fields { class: 8, x: 1, y: 2, d: 4, nnn: 0xABC };
    assert_eq!(fields.instruction(), Some(Instruction::AddRegisters { x: 1, y: 2 }));
    let fields = Fields { class: 2, x: 0, y: 0, d: 0, nnn: 0x345 };
    assert_eq!(fields.instruction(), Some(Instruction::Call { address: 0x345 }));
}
