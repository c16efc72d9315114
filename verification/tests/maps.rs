use pyroscope_kit::errors::InitError;
use pyroscope_kit::maps::{
    find_python_in_maps_reader, parse_maps_line, PythonBinary, FLAGS_EXEC, FLAGS_READ,
    FLAGS_SHARED, FLAGS_WRITE,
};

#[test]
fn parse_libpython3_ro_header() {
    let line =
        b"7f1234560000-7f1234580000 r--p 00000000 08:01 123456 /usr/lib/libpython3.11.so.1.0\n";
    let (start, end, flags, offset, dev_major, dev_minor, inode, path) =
        parse_maps_line(line).unwrap();
    assert_eq!(start, 0x7f1234560000);
    assert_eq!(end, 0x7f1234580000);
    assert_eq!(flags, FLAGS_READ);
    assert_eq!(offset, 0);
    assert_eq!(dev_major, 8);
    assert_eq!(dev_minor, 1);
    assert_eq!(inode, 123456);
    assert_eq!(path, b"/usr/lib/libpython3.11.so.1.0");
}

#[test]
fn parse_libpython3_exec_mapping() {
    let line =
        b"7f1234580000-7f1234600000 r-xp 00020000 08:01 123456 /usr/lib/libpython3.11.so.1.0\n";
    let (start, _end, flags, offset, _dmaj, _dmin, _inode, path) =
        parse_maps_line(line).unwrap();
    assert_eq!(start, 0x7f1234580000);
    assert_eq!(flags, FLAGS_READ | FLAGS_EXEC);
    assert_eq!(offset, 0x20000);
    assert_eq!(path, b"/usr/lib/libpython3.11.so.1.0");
}

#[test]
fn parse_static_python3() {
    let line = b"555555554000-5555555b2000 r--p 00000000 08:01 654321 /usr/bin/python3\n";
    let (start, _end, flags, _off, _dmaj, _dmin, inode, path) = parse_maps_line(line).unwrap();
    assert_eq!(start, 0x555555554000);
    assert_eq!(flags, FLAGS_READ);
    assert_eq!(inode, 654321);
    assert_eq!(path, b"/usr/bin/python3");
}

#[test]
fn parse_anonymous_mapping() {
    let line = b"7fff12340000-7fff12360000 rw-p 00000000 00:00 0 \n";
    let (start, _end, flags, _off, dev_major, dev_minor, inode, path) =
        parse_maps_line(line).unwrap();
    assert_eq!(start, 0x7fff12340000);
    assert_eq!(flags, FLAGS_READ | FLAGS_WRITE);
    assert_eq!(dev_major, 0);
    assert_eq!(dev_minor, 0);
    assert_eq!(inode, 0);
    assert_eq!(path, b"");
}

#[test]
fn parse_anonymous_mapping_no_trailing_space() {
    // Some kernels emit no trailing space for anonymous mappings
    let line = b"7fff12340000-7fff12360000 rw-p 00000000 00:00 0\n";
    let result = parse_maps_line(line);
    assert!(result.is_some());
    let (_s, _e, _f, _o, _dm, _dn, _i, path) = result.unwrap();
    assert_eq!(path, b"");
}

#[test]
fn parse_vdso() {
    let line = b"7fff12370000-7fff12372000 r-xp 00000000 00:00 0 [vdso]\n";
    let (_s, _e, flags, _o, _dm, _dn, _i, path) = parse_maps_line(line).unwrap();
    assert_eq!(flags, FLAGS_READ | FLAGS_EXEC);
    assert_eq!(path, b"[vdso]");
}

#[test]
fn parse_shared_mapping() {
    let line = b"7f0000000000-7f0000010000 rw-s 00000000 00:05 0 /dev/zero\n";
    let (_s, _e, flags, _o, _dm, _dn, _i, _path) = parse_maps_line(line).unwrap();
    assert_eq!(flags, FLAGS_READ | FLAGS_WRITE | FLAGS_SHARED);
}

#[test]
fn parse_malformed_line_returns_none() {
    assert!(parse_maps_line(b"not a valid maps line\n").is_none());
    assert!(parse_maps_line(b"\n").is_none());
}


const MAPS_LIBPYTHON3_ONLY: &[u8] = b"\
7f0000000000-7f0000020000 r--p 00000000 08:01 111 /usr/lib/libpython3.11.so.1.0\n\
7f0000020000-7f0000100000 r-xp 00020000 08:01 111 /usr/lib/libpython3.11.so.1.0\n\
7fff00000000-7fff00020000 rw-p 00000000 00:00 0\n\
";

const MAPS_PYTHON3_ONLY: &[u8] = b"\
555555554000-5555555b2000 r--p 00000000 08:01 222 /usr/bin/python3\n\
5555555b2000-555555600000 r-xp 0005e000 08:01 222 /usr/bin/python3\n\
7fff00000000-7fff00020000 rw-p 00000000 00:00 0\n\
";

const MAPS_BOTH: &[u8] = b"\
555555554000-5555555b2000 r--p 00000000 08:01 222 /usr/bin/python3\n\
7f0000000000-7f0000020000 r--p 00000000 08:01 111 /usr/lib/libpython3.11.so.1.0\n\
7f0000020000-7f0000100000 r-xp 00020000 08:01 111 /usr/lib/libpython3.11.so.1.0\n\
";

const MAPS_LIBPYTHON3_MULTIPLE: &[u8] = b"\
7f0000000000-7f0000020000 r--p 00000000 08:01 111 /usr/lib/libpython3.11.so.1.0\n\
7f0000020000-7f0000100000 r-xp 00020000 08:01 111 /usr/lib/libpython3.11.so.1.0\n\
7f0000200000-7f0000210000 r--p 00000000 08:01 111 /usr/lib/libpython3.11.so.1.0\n\
";

const MAPS_NO_PYTHON: &[u8] = b"\
7f0000000000-7f0000020000 r--p 00000000 08:01 333 /usr/lib/libc.so.6\n\
7fff00000000-7fff00020000 rw-p 00000000 00:00 0\n\
";

fn run(maps: &[u8]) -> Result<PythonBinary, InitError> {
    find_python_in_maps_reader(maps)
}

#[test]
fn finds_libpython3_only() {
    let bin = run(MAPS_LIBPYTHON3_ONLY).unwrap();
    assert_eq!(bin.base, 0x7f0000000000);
    assert!(bin.path.contains("libpython3"));
}

#[test]
fn finds_python3_only() {
    let bin = run(MAPS_PYTHON3_ONLY).unwrap();
    assert_eq!(bin.base, 0x555555554000);
    assert!(bin.path.contains("python3"));
}

#[test]
fn prefers_libpython3_over_python3() {
    let bin = run(MAPS_BOTH).unwrap();
    assert!(
        bin.path.contains("libpython3"),
        "expected libpython3, got {}",
        bin.path
    );
    assert_eq!(bin.base, 0x7f0000000000);
}

#[test]
fn returns_first_mapping_base() {
    // The first mapping (r--p, offset 0) should be the base, not the r-xp one.
    let bin = run(MAPS_LIBPYTHON3_MULTIPLE).unwrap();
    assert_eq!(bin.base, 0x7f0000000000);
}

#[test]
fn returns_python_not_found_when_absent() {
    assert_eq!(run(MAPS_NO_PYTHON), Err(InitError::PythonNotFound));
}

#[test]
fn empty_maps_returns_not_found() {
    assert_eq!(run(b""), Err(InitError::PythonNotFound));
}

#[test]
fn python3_before_libpython3_still_prefers_libpython3() {
    // python3 entry appears first, but libpython3 comes later - must prefer libpython3
    let maps = b"\
555555554000-5555555b2000 r--p 00000000 08:01 222 /usr/bin/python3\n\
7f0000000000-7f0000020000 r--p 00000000 08:01 111 /usr/lib/libpython3.11.so.1.0\n\
";
    let bin = run(maps).unwrap();
    assert!(bin.path.contains("libpython3"), "should prefer libpython3");
}
