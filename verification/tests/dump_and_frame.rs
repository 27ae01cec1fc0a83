use mykernel::net::ethernet::{build_ethernet_frame, BROADCAST_MAC, ETH_HDR_LEN, ETH_P_ARP, ETH_P_IP};
use mykernel::shell::{hex_dump_row, hex_dump_rows, HEX_ROW_BYTES};

fn text(row: &[u8]) -> String {
    String::from_utf8(row.to_vec()).unwrap()
}

#[test]
fn hex_row_of_short_chunk_is_padded() {
    let row = hex_dump_row(0, b"AB\x00");
    let expected = format!("  0000  41 42 00 {} |AB.|", " ".repeat(13 * 3));
    assert_eq!(text(&row), expected);
}

#[test]
fn hex_row_of_full_chunk() {
    let chunk: Vec<u8> = (0x20u8..0x30).collect();
    let row = hex_dump_row(0x10, &chunk);
    assert_eq!(
        text(&row),
        "  0010  20 21 22 23 24 25 26 27 28 29 2a 2b 2c 2d 2e 2f  |.!\"#$%&'()*+,-./|"
    );
}

#[test]
fn hex_row_offset_grows_past_four_digits() {
    let row = hex_dump_row(0x12345, b"\x7f\xff~");
    let expected = format!("  12345  7f ff 7e {} |..~|", " ".repeat(13 * 3));
    assert_eq!(text(&row), expected);
}

#[test]
fn hex_dump_splits_into_rows_of_sixteen() {
    let data: Vec<u8> = (0u8..40).collect();
    let rows = hex_dump_rows(&data);
    assert_eq!(rows.len(), 3);
    assert_eq!(rows[0], hex_dump_row(0, &data[0..16]));
    assert_eq!(rows[1], hex_dump_row(16, &data[16..32]));
    assert_eq!(rows[2], hex_dump_row(32, &data[32..40]));
    assert!(text(&rows[2]).starts_with("  0020  20 21 22 23 24 25 26 27 "));
    assert_eq!(HEX_ROW_BYTES, 16);
}

#[test]
fn hex_dump_of_nothing_has_no_rows() {
    assert!(hex_dump_rows(&[]).is_empty());
    assert_eq!(hex_dump_rows(&[0u8; 16]).len(), 1);
    assert_eq!(hex_dump_rows(&[0u8; 17]).len(), 2);
}

#[test]
fn ethernet_frame_layout() {
    let dst = [0x52, 0x54, 0x00, 0x12, 0x34, 0x56];
    let src = [0x52, 0x54, 0x00, 0x12, 0x34, 0x57];
    let payload = [1u8, 2, 3];
    let frame = build_ethernet_frame(dst, src, ETH_P_IP, &payload);
    assert_eq!(frame.len(), ETH_HDR_LEN + payload.len());
    assert_eq!(&frame[0..6], &dst);
    assert_eq!(&frame[6..12], &src);
    assert_eq!(&frame[12..14], &[0x08, 0x00]);
    assert_eq!(&frame[14..], &payload);
}

#[test]
fn ethernet_broadcast_arp_frame() {
    let src = [1, 2, 3, 4, 5, 6];
    let frame = build_ethernet_frame(BROADCAST_MAC, src, ETH_P_ARP, &[]);
    assert_eq!(frame, vec![0xff, 0xff, 0xff, 0xff, 0xff, 0xff, 1, 2, 3, 4, 5, 6, 0x08, 0x06]);
}
