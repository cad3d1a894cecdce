use polkarun::bin::load;
use polkarun::decode::{disassemble, DecodeError};
use polkavm_common::program::{Instruction, InstructionSetKind, ProgramBlob};
use polkavm_common::writer::ProgramBlobBuilder;

fn single_trap_blob() -> Vec<u8> {
    let mut builder = ProgramBlobBuilder::new(InstructionSetKind::Latest64);
    builder.set_code(&[Instruction::trap], &[]);
    builder.into_vec().unwrap()
}

#[test]
fn single_instruction_listing() {
    let data = single_trap_blob();
    let lines = disassemble(&data).unwrap();
    assert_eq!(lines.len(), 1);
    assert_eq!(lines[0].offset, "000000");
    assert!(!lines[0].assembly.is_empty());
    assert_eq!(lines[0].assembly, format!("{}", Instruction::trap));
}

#[test]
fn listing_hex_matches_code_section() {
    let data = single_trap_blob();
    let blob = ProgramBlob::parse(data.as_slice().into()).unwrap();
    let parsed = blob.instructions().next().unwrap();
    let raw = &blob.code()[parsed.offset.0 as usize..parsed.next_offset.0 as usize];
    let expected = raw.iter().map(|b| format!("{:02X}", b)).collect::<Vec<_>>().join(" ");
    let lines = disassemble(&data).unwrap();
    assert_eq!(lines[0].hex, expected);
    assert!(!expected.is_empty());
}

#[test]
fn corrupt_container_is_rejected() {
    let garbage: Vec<u8> = vec![0x00, 0x01, 0x02, 0x03, 0x04];
    assert!(matches!(disassemble(&garbage), Err(DecodeError::InvalidContainer)));
    let empty: Vec<u8> = Vec::new();
    assert!(matches!(disassemble(&empty), Err(DecodeError::InvalidContainer)));
}

#[test]
fn truncated_container_is_rejected() {
    let mut data = single_trap_blob();
    data.truncate(data.len() / 2);
    assert!(matches!(disassemble(&data), Err(DecodeError::InvalidContainer)));
}

#[test]
fn load_renders_both_views() {
    let data = single_trap_blob();
    let bin = load(&data).unwrap();
    let expected_rows = (data.len() + 15) / 16;
    assert_eq!(bin.memory.len(), expected_rows);
    assert!(bin.memory[0].starts_with("000000 "));
    assert_eq!(bin.code.len(), 1);
    assert_eq!(bin.code[0].offset, "0x00000000");
    assert_eq!(bin.code[0].text, format!("{}", Instruction::trap));
}

#[test]
fn load_reports_parse_failure() {
    let garbage: Vec<u8> = vec![0xff; 8];
    let err = load(&garbage).unwrap_err();
    assert_eq!(err, "Failed to parse blob");
}
