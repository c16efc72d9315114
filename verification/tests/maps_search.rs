use pyroscope_kit::errors::InitError;
use pyroscope_kit::maps::{
    find_mapping, find_python_in_maps_reader, parse_maps_line, path_contains, python_binary,
    Mapping, MapsRead, MapsScan, ScanStep, FLAGS_EXEC, FLAGS_READ, FLAGS_SHARED, FLAGS_WRITE,
};

const LIB: &[u8] = b"7f0000000000-7f0000020000 r--p 00000000 08:01 111 /usr/lib/libpython3.11.so\n";
const EXE: &[u8] = b"555500000000-555500020000 r--p 00000000 08:01 222 /usr/bin/python3\n";
const OTHER: &[u8] = b"7e0000000000-7e0000020000 r--p 00000000 08:01 333 /usr/lib/libc.so.6\n";

fn text(parts: &[&[u8]]) -> Vec<u8> {
    parts.concat()
}

fn base(maps: &[u8]) -> Option<u64> {
    find_mapping(maps).ok().map(|m| m.base)
}

#[test]
fn every_field_of_a_line() {
    let line = b"1a-2B rwxs 3c 4d:5E 67 /a b\tc \r\n";
    assert_eq!(
        parse_maps_line(line),
        Some((
            0x1a,
            0x2b,
            FLAGS_READ | FLAGS_WRITE | FLAGS_EXEC | FLAGS_SHARED,
            0x3c,
            0x4d,
            0x5e,
            67,
            b"/a b\tc".as_slice()
        ))
    );
}

#[test]
fn permission_letters_count_at_their_place_only() {
    let flags = |perms: &str| {
        let line = format!("1-2 {perms} 0 0:0 0\n");
        parse_maps_line(line.as_bytes()).map(|f| f.2)
    };
    assert_eq!(flags("r---"), Some(FLAGS_READ));
    assert_eq!(flags("-w--"), Some(FLAGS_WRITE));
    assert_eq!(flags("--x-"), Some(FLAGS_EXEC));
    assert_eq!(flags("---s"), Some(FLAGS_SHARED));
    assert_eq!(flags("srwx"), Some(0));
    assert_eq!(flags("r-xps"), Some(FLAGS_READ | FLAGS_EXEC));
    assert_eq!(flags("r-x"), None);
}

#[test]
fn numbers_have_to_fit() {
    assert!(parse_maps_line(b"0-ffffffffffffffff r--p 0 ffffffff:0 18446744073709551615 p").is_some());
    assert_eq!(parse_maps_line(b"0-10000000000000000 r--p 0 0:0 0 p"), None);
    assert_eq!(parse_maps_line(b"0-1 r--p 10000000000000000 0:0 0 p"), None);
    assert_eq!(parse_maps_line(b"0-1 r--p 0 100000000:0 0 p"), None);
    assert_eq!(parse_maps_line(b"0-1 r--p 0 0:0 18446744073709551616 p"), None);
}

#[test]
fn numbers_may_have_a_plus_sign_and_no_minus_sign() {
    assert_eq!(parse_maps_line(b"+1-+2 r--p +3 +4:+5 +6").map(|f| (f.0, f.1, f.3, f.6)), Some((1, 2, 3, 6)));
    assert_eq!(parse_maps_line(b"++1-2 r--p 3 4:5 6"), None);
    assert_eq!(parse_maps_line(b"+-2 r--p 3 4:5 6"), None);
    assert_eq!(parse_maps_line(b"1-2 r--p 3 4:5 -6"), None);
}

#[test]
fn empty_fields_are_malformed() {
    assert_eq!(parse_maps_line(b""), None);
    assert_eq!(parse_maps_line(b"-2 r--p 3 4:5 6"), None);
    assert_eq!(parse_maps_line(b"1- r--p 3 4:5 6"), None);
    assert_eq!(parse_maps_line(b"1-2  r--p 3 4:5 6"), None);
    assert_eq!(parse_maps_line(b"1-2 r--p  4:5 6"), None);
    assert_eq!(parse_maps_line(b"1-2 r--p 3 45 6"), None);
    assert_eq!(parse_maps_line(b"1-2 r--p 3 4:5"), None);
    assert_eq!(parse_maps_line(b"1-2 r--p 3 4:5  /path"), None);
}

#[test]
fn white_space_around_the_inode() {
    assert_eq!(parse_maps_line(b"1-2 r--p 3 4:5 \t6\n").map(|f| f.6), Some(6));
    // A vertical tab and U+2003 are white space to `str::trim`; U+200B is not.
    assert_eq!(parse_maps_line("1-2 r--p 3 4:5 \u{b}7\u{2003}".as_bytes()).map(|f| f.6), Some(7));
    assert_eq!(parse_maps_line("1-2 r--p 3 4:5 \u{3000}\u{85}8 x".as_bytes()).map(|f| f.6), Some(8));
    assert_eq!(parse_maps_line("1-2 r--p 3 4:5 8\u{200b}".as_bytes()), None);
    assert_eq!(parse_maps_line(b"1-2 r--p 3 4:5 \xff8"), None);
}

#[test]
fn substring_search() {
    assert!(path_contains(b"abcd", b"bc"));
    assert!(path_contains(b"abcd", b"abcd"));
    assert!(path_contains(b"aab", b"ab"));
    assert!(!path_contains(b"abcd", b"bd"));
    assert!(!path_contains(b"abc", b"abcd"));
    assert!(!path_contains(b"abc", b""));
    assert!(!path_contains(b"", b""));
}

#[test]
fn first_libpython3_decides() {
    let second = b"600000-700000 r--p 00000000 08:01 9 /opt/libpython3.12.so\n".as_slice();
    assert_eq!(base(&text(&[EXE, LIB, second])), Some(0x7f0000000000));
    assert_eq!(base(&text(&[second, EXE, LIB])), Some(0x600000));
}

#[test]
fn first_python3_is_the_fallback() {
    let second = b"600000-700000 r--p 00000000 08:01 9 /opt/python3.12\n".as_slice();
    assert_eq!(base(&text(&[OTHER, EXE, second])), Some(0x555500000000));
}

#[test]
fn other_and_malformed_lines_change_nothing() {
    let bad = b"python3 is not a line of fields\n".as_slice();
    assert_eq!(base(&text(&[bad, OTHER, EXE, bad, LIB])), base(&text(&[EXE, LIB])));
    assert_eq!(base(&text(&[bad, OTHER, bad])), None);
}

#[test]
fn final_line_feed_changes_nothing() {
    for maps in [text(&[]), text(&[OTHER]), text(&[EXE, LIB]), text(&[LIB, EXE]), text(&[EXE])] {
        assert_eq!(base(&text(&[&maps, b"\n"])), base(&maps));
        if let Some((_, cut)) = maps.split_last() {
            assert_eq!(base(cut), base(&maps));
        }
    }
    // The line feed belongs to the inode where there is no path.
    let with = parse_maps_line(b"1-2 r--p 3 4:5 6\n");
    assert!(with.is_some());
    assert_eq!(with, parse_maps_line(b"1-2 r--p 3 4:5 6"));
}

#[test]
fn last_line_may_lack_its_line_feed() {
    assert_eq!(base(&text(&[OTHER, &LIB[..LIB.len() - 1]])), Some(0x7f0000000000));
}

#[test]
fn path_that_is_no_utf8_is_replaced() {
    let maps = text(&[b"1000-2000 r--p 00000000 08:01 9 /opt/\xff/libpython3.so\n"]);
    let bin = find_python_in_maps_reader(&maps).unwrap();
    assert_eq!(bin.base, 0x1000);
    assert_eq!(bin.path, "/opt/\u{fffd}/libpython3.so");
    let mapping = find_mapping(&maps).unwrap();
    assert_eq!(mapping.path, b"/opt/\xff/libpython3.so");
}

#[test]
fn path_that_is_utf8_stays_as_it_is() {
    let mapping = Mapping { base: 7, path: "/höme/python3".as_bytes().to_vec() };
    let bin = python_binary(&mapping);
    assert_eq!(bin.base, 7);
    assert_eq!(bin.path, "/höme/python3");
}

fn done(step: ScanStep) -> Option<Result<Mapping, InitError>> {
    match step {
        ScanStep::ReadNext => None,
        ScanStep::Done(r) => Some(r),
    }
}

#[test]
fn failed_read_finds_nothing() {
    let mut scan = MapsScan::new();
    assert_eq!(done(scan.step(MapsRead::Line(EXE))), None);
    assert_eq!(done(scan.step(MapsRead::Failed)), Some(Err(InitError::PythonNotFound)));
}

#[test]
fn libpython3_ends_the_scan_at_once() {
    let mut scan = MapsScan::new();
    assert_eq!(done(scan.step(MapsRead::Line(EXE))), None);
    let found = done(scan.step(MapsRead::Line(LIB))).unwrap().unwrap();
    assert_eq!(found, Mapping { base: 0x7f0000000000, path: b"/usr/lib/libpython3.11.so".to_vec() });
}

#[test]
fn end_of_the_text_gives_the_fallback() {
    let mut scan = MapsScan::new();
    assert_eq!(done(scan.step(MapsRead::Line(OTHER))), None);
    assert_eq!(done(scan.step(MapsRead::Line(EXE))), None);
    let found = done(scan.step(MapsRead::End)).unwrap().unwrap();
    assert_eq!(found, Mapping { base: 0x555500000000, path: b"/usr/bin/python3".to_vec() });
    let mut empty = MapsScan::new();
    assert_eq!(done(empty.step(MapsRead::End)), Some(Err(InitError::PythonNotFound)));
}
