use polkarun::decode::{disassemble_rebased, DecodeError};
use polkarun::search::find_pattern;
use polkavm_common::program::{Instruction, InstructionSetKind, ProgramBlob};
use polkavm_common::writer::ProgramBlobBuilder;

#[test]
fn finds_first_occurrence() {
    let haystack: Vec<u8> = vec![3, 1, 2, 0, 1, 2];
    assert_eq!(find_pattern(&haystack, &vec![1, 2]), Some(1));
    assert_eq!(find_pattern(&haystack, &vec![3]), Some(0));
    assert_eq!(find_pattern(&haystack, &vec![0, 1, 2]), Some(3));
}

#[test]
fn reports_absent_pattern() {
    let haystack: Vec<u8> = vec![3, 1, 2];
    assert_eq!(find_pattern(&haystack, &vec![2, 1]), None);
    assert_eq!(find_pattern(&haystack, &vec![1, 2, 3, 4]), None);
}

#[test]
fn empty_pattern_matches_at_start() {
    assert_eq!(find_pattern(&Vec::new(), &Vec::new()), Some(0));
    assert_eq!(find_pattern(&vec![9, 9], &Vec::new()), Some(0));
}

#[test]
fn rebased_listing_starts_at_located_base() {
    let mut builder = ProgramBlobBuilder::new(InstructionSetKind::Latest64);
    builder.set_code(&[Instruction::trap], &[]);
    let data = builder.into_vec().unwrap();

    let blob = ProgramBlob::parse(data.as_slice().into()).unwrap();
    let parsed = blob.instructions().next().unwrap();
    let raw = &blob.code()[parsed.offset.0 as usize..parsed.next_offset.0 as usize];
    let expected_base = data.windows(raw.len()).position(|w| w == raw).unwrap();

    let lines = disassemble_rebased(&data).unwrap();
    assert_eq!(lines.len(), 1);
    assert_eq!(lines[0].offset, format!("{:06X}", expected_base));
    assert_eq!(lines[0].assembly, format!("{}", Instruction::trap));
}

#[test]
fn rebased_listing_rejects_garbage() {
    let garbage: Vec<u8> = vec![0xaa; 16];
    assert!(matches!(
        disassemble_rebased(&garbage),
        Err(DecodeError::InvalidContainer)
    ));
}
