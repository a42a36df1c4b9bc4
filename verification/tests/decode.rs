use wsl_manager::decode::decode_output;

#[test]
fn decodes_each_encoding() {
    assert_eq!(decode_output(&[]), "");
    assert_eq!(decode_output(&[0xEF, 0xBB, 0xBF, b'h', b'i']), "hi");
    assert_eq!(decode_output(&[0xFF, 0xFE, b'h', 0, b'i', 0]), "hi");
    assert_eq!(decode_output(&[0xFE, 0xFF, 0, b'h', 0, b'i']), "hi");
    assert_eq!(decode_output(&[b'h', 0, b'i', 0]), "hi");
    assert_eq!(decode_output(&[0x41, 0x00, 0x42]), "AB");
    assert_eq!(decode_output("abc é".as_bytes()), "abc é");
    assert_eq!(decode_output(&[0xC4, 0xE3, 0xBA, 0xC3]), "你好");
}

#[test]
fn lossy_cases() {
    assert_eq!(decode_output(&[0xFF, 0xFE, 0x00, 0xD8]), "\u{FFFD}");
    assert_eq!(decode_output(&[0xFF, 0xFE, 0x3D, 0xD8, 0x00, 0xDE]), "😀");
    assert_eq!(decode_output(&[0xEF, 0xBB, 0xBF, 0xFF]), "\u{FFFD}");
}

fn le(s: &str) -> Vec<u8> {
    s.encode_utf16().flat_map(u16::to_le_bytes).collect()
}

fn be(s: &str) -> Vec<u8> {
    s.encode_utf16().flat_map(u16::to_be_bytes).collect()
}

#[test]
fn marked_text_round_trips() {
    for s in ["", "Ubuntu 22.04", "héllo 😀 你好"] {
        assert_eq!(decode_output(&[&[0xEF, 0xBB, 0xBF][..], s.as_bytes()].concat()), s);
        assert_eq!(decode_output(&[vec![0xFF, 0xFE], le(s)].concat()), s);
        assert_eq!(decode_output(&[vec![0xFE, 0xFF], be(s)].concat()), s);
    }
}

#[test]
fn unmarked_text_round_trips() {
    assert_eq!(decode_output(&[0x55, 0, 0x62, 0, 0x75, 0]), "Ubu");
    assert_eq!(decode_output(&le("  NAME STATE\r\n")), "  NAME STATE\r\n");
    for s in ["x\ty", "名称 状态", "\u{FFFD}ok"] {
        assert_eq!(decode_output(s.as_bytes()), s);
    }
}
