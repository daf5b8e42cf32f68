use renzmc_vm::bytecode::{frame, unframe, BytecodeChunk, Instruction, OpCode};
use renzmc_vm::value::Value;

#[test]
fn opcode_bytes_round_trip() {
    for b in 0u8..=255 {
        let op = OpCode::from_byte(b);
        if op != OpCode::Nop {
            assert_eq!(op.to_byte(), b);
        }
    }
    assert_eq!(OpCode::from(255u8), OpCode::Halt);
    assert_eq!(OpCode::from(9u8), OpCode::Nop);
}

#[test]
fn encoding_sizes_and_decoding() {
    let j = Instruction::with_operand(OpCode::Jump, 0x0102_0304);
    assert_eq!(j.encode(), vec![50, 4, 3, 2, 1]);
    assert_eq!(Instruction::new(OpCode::Add).encode(), vec![10]);
    let (ins, size) = Instruction::decode(&[50, 4, 3, 2, 1], 0);
    assert_eq!(size, 5);
    assert_eq!(ins.opcode, OpCode::Jump);
    assert_eq!(ins.operand, Some(0x0102_0304));
    let (ins, size) = Instruction::decode(&[50, 4, 3], 0);
    assert_eq!((ins.operand, size), (None, 1));
    let (ins, size) = Instruction::decode(&[200], 0);
    assert_eq!((ins.opcode, size), (OpCode::Nop, 1));
}

#[test]
fn names_are_interned() {
    let mut c = BytecodeChunk::new();
    assert_eq!(c.add_name("x".to_string()), 0);
    assert_eq!(c.add_name("y".to_string()), 1);
    assert_eq!(c.add_name("x".to_string()), 0);
    assert_eq!(c.names.len(), 2);
    assert_eq!(c.add_constant(Value::Int(1)), 0);
    assert_eq!(c.add_constant(Value::Int(1)), 1);
}

#[test]
fn patching_rewrites_operand() {
    let mut c = BytecodeChunk::new();
    c.emit_opcode(OpCode::Nop);
    c.emit_with_operand(OpCode::JumpIfFalse, 0);
    assert_eq!(c.current_offset(), 6);
    c.patch_jump(1, 258);
    assert_eq!(c.code, vec![0, 52, 2, 1, 0, 0]);
}

#[test]
fn framing_layout() {
    let bytes = frame(&[1, 2], b"[]", b"[\"a\"]");
    assert_eq!(&bytes[0..5], b"RMCB\x01");
    assert_eq!(&bytes[5..9], &[2, 0, 0, 0]);
    let s = unframe(&bytes).ok().unwrap();
    assert_eq!(s.code, vec![1, 2]);
    assert_eq!(s.constants, b"[]".to_vec());
    assert_eq!(s.names, b"[\"a\"]".to_vec());
}

#[test]
fn unframe_rejects_bad_input() {
    assert_eq!(unframe(b"RMCB").err().unwrap(), "Invalid bytecode: too short");
    assert_eq!(unframe(b"XXXX\x01\0\0\0\0").err().unwrap(), "Invalid bytecode: wrong magic number");
    assert!(unframe(b"RMCB\x01\x09\0\0\0").is_err());
}

#[test]
fn serialize_then_deserialize() {
    let mut c = BytecodeChunk::new();
    let k = c.add_constant(Value::Int(7));
    c.emit_with_operand(OpCode::LoadConst, k);
    c.add_name("nama".to_string());
    c.emit_opcode(OpCode::Halt);
    let bytes = c.serialize(&"[{\"Int\":7}]".to_string());
    let loaded = BytecodeChunk::deserialize(&bytes).ok().unwrap();
    assert_eq!(loaded.chunk.code, c.code);
    assert_eq!(loaded.chunk.names, vec!["nama".to_string()]);
    assert_eq!(loaded.constants_json, "[{\"Int\":7}]");
}

#[test]
fn deserialize_rejects_bad_sections() {
    let bad_utf8 = frame(&[], &[0xff], b"[]");
    assert_eq!(BytecodeChunk::deserialize(&bad_utf8).err().unwrap(), "Invalid UTF-8 in constants");
    let bad_names = frame(&[], b"[]", b"{");
    assert_eq!(BytecodeChunk::deserialize(&bad_names).err().unwrap(), "Failed to parse names");
}
