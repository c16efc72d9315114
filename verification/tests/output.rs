use pyroscope_kit::bytes::{position, trim, trim_ascii};
use pyroscope_kit::debug::{format_hex, puts, write_hex, writes, DebugOutput};
use pyroscope_kit::numbers::{parse_trimmed_decimal, parse_uint};

#[test]
fn hexadecimal_digits() {
    assert_eq!(format_hex(0), b"0");
    assert_eq!(format_hex(9), b"9");
    assert_eq!(format_hex(10), b"a");
    assert_eq!(format_hex(15), b"f");
    assert_eq!(format_hex(16), b"10");
    assert_eq!(format_hex(0xdead_beef), b"deadbeef");
    assert_eq!(format_hex(usize::MAX), b"ffffffffffffffff");
    assert_eq!(format_hex(usize::MAX).len(), 16);
}

#[test]
fn printed_numbers_read_back() {
    for v in [0usize, 1, 15, 16, 255, 4096, 0x7f12_3456_0000, usize::MAX] {
        assert_eq!(parse_uint(&format_hex(v), 16, u64::MAX), Some(v as u64));
        assert_eq!(format!("{v:x}").as_bytes(), format_hex(v).as_slice());
    }
}

#[test]
fn writes_in_order() {
    let mut out = DebugOutput::new(true);
    writes(&mut out, "0x");
    write_hex(&mut out, 255);
    puts(&mut out, " end");
    puts(&mut out, "");
    let expected: Vec<&[u8]> = vec![b"0x", b"ff", b" end", b"\n", b"", b"\n"];
    assert_eq!(out.pending, expected);
    assert!(out.enabled);
}

#[test]
fn disabled_output_stays_empty() {
    let mut out = DebugOutput::new(false);
    writes(&mut out, "0x");
    write_hex(&mut out, 255);
    puts(&mut out, "end");
    assert!(out.pending.is_empty());
    assert!(!out.enabled);
}

#[test]
fn number_limits() {
    assert_eq!(parse_uint(b"ff", 16, 255), Some(255));
    assert_eq!(parse_uint(b"100", 16, 255), None);
    assert_eq!(parse_uint(b"000000000000000000000001", 16, 255), Some(1));
    assert_eq!(parse_uint(b"", 16, 255), None);
    assert_eq!(parse_uint(b"+", 16, 255), None);
    assert_eq!(parse_uint(b"g", 16, 255), None);
    assert_eq!(parse_uint(b"z", 36, 255), Some(35));
    assert_eq!(parse_trimmed_decimal(b"  42\n"), Some(42));
    assert_eq!(parse_trimmed_decimal(b" 4 2 "), None);
    assert_eq!(parse_trimmed_decimal(b"a"), None);
}

#[test]
fn trimming() {
    assert_eq!(trim_ascii(b" \t\x0c a b \r\n"), b"a b");
    assert_eq!(trim_ascii(b" \n"), b"");
    // A vertical tab is no ASCII white space, but it has the Unicode property.
    assert_eq!(trim_ascii(b"\x0ba"), b"\x0ba");
    assert_eq!(trim(b"\x0ba"), b"a");
    assert_eq!(trim("\u{a0}\u{1680}x\u{2028}\u{202f}\u{205f}".as_bytes()), b"x");
}

#[test]
fn positions() {
    assert_eq!(position(b"a-b-c", b'-'), Some(1));
    assert_eq!(position(b"abc", b'-'), None);
}
