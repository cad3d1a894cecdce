use polkarun::bin::render_code_lines;
use polkarun::listing::{render_lines, DecodeOutcome};

fn sample_outcomes() -> Vec<DecodeOutcome> {
    vec![
        DecodeOutcome::Decoded { encoded: vec![0x11, 0x22, 0x33], assembly: "one".to_string() },
        DecodeOutcome::Failed { message: "boom".to_string() },
        DecodeOutcome::Decoded { encoded: vec![0x44], assembly: "three".to_string() },
    ]
}

#[test]
fn failed_slot_keeps_offsets_of_neighbours() {
    let lines = render_lines(&sample_outcomes());
    assert_eq!(lines.len(), 3);
    assert_eq!(lines[0].offset, "000000");
    assert_eq!(lines[0].hex, "11 22 33");
    assert_eq!(lines[0].assembly, "one");
    assert_eq!(lines[1].offset, "000003");
    assert_eq!(lines[1].hex, "ERROR");
    assert_eq!(lines[1].assembly, "boom");
    assert_eq!(lines[2].offset, "000003");
    assert_eq!(lines[2].hex, "44");
    assert_eq!(lines[2].assembly, "three");
}

#[test]
fn empty_stream_empty_listing() {
    let lines = render_lines(&Vec::new());
    assert!(lines.is_empty());
}

#[test]
fn uppercase_hex_pairs() {
    let outs = vec![DecodeOutcome::Decoded {
        encoded: vec![0xab, 0xcd, 0xef],
        assembly: "x".to_string(),
    }];
    let lines = render_lines(&outs);
    assert_eq!(lines[0].hex, "AB CD EF");
}

#[test]
fn offset_grows_past_six_digits() {
    let outs = vec![
        DecodeOutcome::Decoded { encoded: vec![0u8; 100], assembly: "a".to_string() },
        DecodeOutcome::Decoded { encoded: vec![], assembly: "b".to_string() },
    ];
    let lines = render_lines(&outs);
    assert_eq!(lines[1].offset, "000064");
    assert_eq!(lines[1].hex, "");
}

#[test]
fn code_rows_share_offset_policy() {
    let rows = render_code_lines(&sample_outcomes());
    assert_eq!(rows.len(), 3);
    assert_eq!(rows[0].offset, "0x00000000");
    assert_eq!(rows[0].text, "one");
    assert_eq!(rows[1].offset, "0x00000003");
    assert_eq!(rows[1].text, "boom");
    assert_eq!(rows[2].offset, "0x00000003");
    assert_eq!(rows[2].text, "three");
}
