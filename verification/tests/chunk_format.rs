use polkarun::chunks::{format_byte_offset, format_chunks, parse_data};

#[test]
fn three_bytes_one_line() {
    let data: Vec<u8> = vec![0x41, 0x42, 0x4F];
    let lines = format_chunks(&data, 8);
    assert_eq!(lines.len(), 1);
    assert_eq!(lines[0].offset, 0);
    assert_eq!(lines[0].hex, "41 42 4f               ");
    assert_eq!(lines[0].hex.len(), 23);
    assert_eq!(lines[0].text, "ABO     ");
    assert_eq!(lines[0].text.len(), 8);
}

#[test]
fn empty_buffer_no_lines() {
    let data: Vec<u8> = vec![];
    let lines = format_chunks(&data, 16);
    assert!(lines.is_empty());
}

#[test]
fn seventeen_bytes_two_lines() {
    let data: Vec<u8> = (0u8..17).collect();
    let lines = format_chunks(&data, 16);
    assert_eq!(lines.len(), 2);
    assert_eq!(lines[0].offset, 0);
    assert_eq!(lines[1].offset, 16);
    assert_eq!(lines[1].hex.len(), 16 * 3 - 1);
    assert_eq!(lines[1].hex, format!("{:<47}", "10"));
    assert_eq!(lines[1].text.len(), 16);
    assert_eq!(lines[1].text, format!("{:<16}", "."));
}

#[test]
fn fixed_widths_for_short_final_chunk() {
    let data: Vec<u8> = vec![0xde, 0xad, 0xbe, 0xef, 0x00];
    let lines = format_chunks(&data, 4);
    assert_eq!(lines.len(), 2);
    for line in &lines {
        assert_eq!(line.hex.len(), 4 * 3 - 1);
        assert_eq!(line.text.len(), 4);
    }
    assert_eq!(lines[0].hex, "de ad be ef");
    assert_eq!(lines[1].hex, "00         ");
    assert_eq!(lines[0].text, "....");
    assert_eq!(lines[1].text, ".   ");
}

#[test]
fn printable_range_and_dots() {
    let data: Vec<u8> = vec![31, 32, 126, 127, 10, 13];
    let lines = format_chunks(&data, 6);
    assert_eq!(lines[0].text, ". ~...");
}

#[test]
fn same_input_same_output() {
    let data: Vec<u8> = (0u8..=255).collect();
    let a = format_chunks(&data, 16);
    let b = format_chunks(&data, 16);
    assert_eq!(a.len(), b.len());
    for (x, y) in a.iter().zip(b.iter()) {
        assert_eq!(x.offset, y.offset);
        assert_eq!(x.hex, y.hex);
        assert_eq!(x.text, y.text);
    }
}

#[test]
fn offsets_step_by_chunk_size() {
    let data: Vec<u8> = vec![0; 50];
    let lines = format_chunks(&data, 8);
    assert_eq!(lines.len(), 7);
    for (i, line) in lines.iter().enumerate() {
        assert_eq!(line.offset, i * 8);
    }
}

#[test]
fn hex_bytes_reproduce_data() {
    let data: Vec<u8> = vec![0x00, 0xff, 0x10, 0x7f, 0x80, 0x01, 0xab];
    let lines = format_chunks(&data, 4);
    let mut recovered: Vec<u8> = Vec::new();
    for line in &lines {
        for pair in line.hex.trim_end().split(' ') {
            recovered.push(u8::from_str_radix(pair, 16).unwrap());
        }
    }
    assert_eq!(recovered, data);
}

#[test]
fn unified_line_layout() {
    let data: Vec<u8> = vec![0x41, 0x42, 0x4F];
    let rows = parse_data(&data, 8);
    assert_eq!(rows.len(), 1);
    assert_eq!(rows[0], "000000 41 42 4f                ABO     ");
}

#[test]
fn unified_rows_carry_offsets() {
    let data: Vec<u8> = vec![0x61; 20];
    let rows = parse_data(&data, 16);
    assert_eq!(rows.len(), 2);
    assert!(rows[0].starts_with("000000 "));
    assert!(rows[1].starts_with("000010 "));
}

#[test]
fn byte_offset_rendering() {
    assert_eq!(format_byte_offset(0), "0x00000000");
    assert_eq!(format_byte_offset(255), "0x000000ff");
    assert_eq!(format_byte_offset(0xdeadbeef), "0xdeadbeef");
    assert_eq!(format_byte_offset(0x1_0000_0000), "0x100000000");
}
