//! Finding the Python interpreter in the text of `/proc/<pid>/maps`.
use crate::bytes::{
    contains_bytes, cut, cut_at, first_index, occurs_at, position, same_bytes, splitn, trim_ascii,
    trimmed_ascii,
};
use crate::errors::InitError;
use crate::numbers::{parse_trimmed_decimal, parse_uint, trimmed_decimal, uint};
use vstd::prelude::*;
use vstd::slice::{slice_subrange, slice_to_vec};
use vstd::utf8::{decode_utf8, encode_utf8, valid_utf8};

verus! {

/// The ASCII space.
pub const SPACE: u8 = 0x20;

/// The ASCII hyphen.
pub const DASH: u8 = 0x2d;

/// The ASCII colon.
pub const COLON: u8 = 0x3a;

/// The ASCII line feed.
pub const NEWLINE: u8 = 0x0a;

/// The mapping can be read.
pub const FLAGS_READ: u32 = 0x1;

/// The mapping can be written.
pub const FLAGS_WRITE: u32 = 0x2;

/// The mapping can be executed.
pub const FLAGS_EXEC: u32 = 0x4;

/// The mapping is shared; without this flag it is private.
pub const FLAGS_SHARED: u32 = 0x8;

/// The fields of one line, in order: start, end, flags, offset, device major, device minor,
/// inode, path. The path is a part of the line.
pub type MapsLineFields<'a> = (u64, u64, u32, u64, u32, u32, u64, &'a [u8]);

/// What one line says.
pub struct MapsLine {
    pub start: nat,
    pub end: nat,
    pub flags: u32,
    pub offset: nat,
    pub dev_major: nat,
    pub dev_minor: nat,
    pub inode: nat,
    pub path: Seq<u8>,
}

/// The fields of a line as mathematical values.
pub open spec fn fields_view(f: MapsLineFields<'_>) -> MapsLine {
    MapsLine {
        start: f.0 as nat,
        end: f.1 as nat,
        flags: f.2,
        offset: f.3 as nat,
        dev_major: f.4 as nat,
        dev_minor: f.5 as nat,
        inode: f.6 as nat,
        path: f.7@,
    }
}

/// Two hexadecimal numbers of at most `max` with `sep` between them.
pub open spec fn hex_pair(s: Seq<u8>, sep: u8, max: nat) -> Option<(nat, nat)> {
    match cut_at(s, sep) {
        Some((a, b)) => match (uint(a, 16, max), uint(b, 16, max)) {
            (Some(x), Some(y)) => Some((x, y)),
            _ => None,
        },
        None => None,
    }
}

/// The flag `flag` where `set` holds, no flag otherwise.
pub open spec fn flag_if(set: bool, flag: u32) -> u32 {
    if set {
        flag
    } else {
        0
    }
}

/// The flags that a permission field such as `r-xp` stands for. It has at least four
/// characters; what follows the fourth says nothing.
pub open spec fn perm_flags(perms: Seq<u8>) -> Option<u32> {
    if perms.len() < 4 {
        None
    } else {
        Some(
            flag_if(perms[0] == 'r' as u8, FLAGS_READ)
                | flag_if(perms[1] == 'w' as u8, FLAGS_WRITE)
                | flag_if(perms[2] == 'x' as u8, FLAGS_EXEC)
                | flag_if(perms[3] == 's' as u8, FLAGS_SHARED),
        )
    }
}

/// The meaning of the line `start-end perms offset major:minor inode [path]`; `None` where the
/// line is malformed. One space ends each of the first five fields, and the path is all that
/// follows, without the white space around it.
pub open spec fn maps_line(line: Seq<u8>) -> Option<MapsLine> {
    let f = splitn(line, SPACE, 6);
    if f.len() < 5 {
        None
    } else {
        match (
            hex_pair(f[0], DASH, u64::MAX as nat),
            perm_flags(f[1]),
            uint(f[2], 16, u64::MAX as nat),
            hex_pair(f[3], COLON, u32::MAX as nat),
            trimmed_decimal(f[4]),
        ) {
            (Some((start, end)), Some(flags), Some(offset), Some((major, minor)), Some(inode)) => Some(
                MapsLine {
                    start,
                    end,
                    flags,
                    offset,
                    dev_major: major,
                    dev_minor: minor,
                    inode,
                    path: if f.len() == 6 {
                        trimmed_ascii(f[5])
                    } else {
                        seq![]
                    },
                },
            ),
            _ => None,
        }
    }
}

fn parse_hex_pair(s: &[u8], sep: u8, max: u64) -> (r: Option<(u64, u64)>)
    ensures
        r is Some <==> hex_pair(s@, sep, max as nat) is Some,
        r matches Some((a, b)) ==> hex_pair(s@, sep, max as nat) == Some((a as nat, b as nat)),
        r matches Some((a, b)) ==> a <= max && b <= max,
{
    match cut(s, sep) {
        Some((a, b)) => match (parse_uint(a, 16, max), parse_uint(b, 16, max)) {
            (Some(x), Some(y)) => Some((x, y)),
            _ => None,
        },
        None => None,
    }
}

fn parse_perms(perms: &[u8]) -> (r: Option<u32>)
    ensures
        r == perm_flags(perms@),
{
    if perms.len() < 4 {
        return None;
    }
    let read: u32 = if perms[0] == 'r' as u8 {
        FLAGS_READ
    } else {
        0
    };
    let write: u32 = if perms[1] == 'w' as u8 {
        FLAGS_WRITE
    } else {
        0
    };
    let exec: u32 = if perms[2] == 'x' as u8 {
        FLAGS_EXEC
    } else {
        0
    };
    let shared: u32 = if perms[3] == 's' as u8 {
        FLAGS_SHARED
    } else {
        0
    };
    Some(read | write | exec | shared)
}

/// Parses a single line of `/proc/<pid>/maps`; `None` where the line is malformed.
pub fn parse_maps_line(line: &[u8]) -> (r: Option<MapsLineFields<'_>>)
    ensures
        r is Some <==> maps_line(line@) is Some,
        r matches Some(f) ==> maps_line(line@) == Some(fields_view(f)),
{
    proof {
        reveal_with_fuel(splitn, 7);
    }
    let ghost fields = splitn(line@, SPACE, 6);
    let (addr, rest1) = match cut(line, SPACE) {
        Some(p) => p,
        None => {
            return None;
        },
    };
    let (perms, rest2) = match cut(rest1, SPACE) {
        Some(p) => p,
        None => {
            return None;
        },
    };
    let (offset_field, rest3) = match cut(rest2, SPACE) {
        Some(p) => p,
        None => {
            return None;
        },
    };
    let (dev, rest4) = match cut(rest3, SPACE) {
        Some(p) => p,
        None => {
            return None;
        },
    };
    let (inode_field, path) = match cut(rest4, SPACE) {
        Some((inode_field, rest5)) => (inode_field, trim_ascii(rest5)),
        None => (rest4, slice_subrange(rest4, 0, 0)),
    };
    assert(fields.len() == 5 || fields.len() == 6);
    assert(fields[0] == addr@);
    assert(fields[1] == perms@);
    assert(fields[2] == offset_field@);
    assert(fields[3] == dev@);
    assert(fields[4] == inode_field@);
    assert(path@ == if fields.len() == 6 {
        trimmed_ascii(fields[5])
    } else {
        Seq::<u8>::empty()
    });
    match (
        parse_hex_pair(addr, DASH, u64::MAX),
        parse_perms(perms),
        parse_uint(offset_field, 16, u64::MAX),
        parse_hex_pair(dev, COLON, u32::MAX as u64),
        parse_trimmed_decimal(inode_field),
    ) {
        (Some((start, end)), Some(flags), Some(offset), Some((major, minor)), Some(inode)) => {
            Some((start, end, flags, offset, major as u32, minor as u32, inode, path))
        },
        _ => None,
    }
}

/// Checks whether `haystack` contains the byte string `needle`.
pub fn path_contains(haystack: &[u8], needle: &[u8]) -> (r: bool)
    ensures
        r == contains_bytes(haystack@, needle@),
{
    let n: usize = needle.len();
    let len: usize = haystack.len();
    if n == 0 || len < n {
        assert(forall|i: int| occurs_at(haystack@, needle@, i) ==> needle@.len() <= haystack@.len());
        return false;
    }
    let last: usize = len - n;
    let mut i: usize = 0;
    while i <= last
        invariant
            n == needle@.len(),
            n > 0,
            len == haystack@.len(),
            last == len - n,
            0 <= i <= last + 1,
            forall|j: int| 0 <= j < i ==> !occurs_at(haystack@, needle@, j),
        decreases last + 1 - i,
    {
        if same_bytes(slice_subrange(haystack, i, i + n), needle) {
            assert(occurs_at(haystack@, needle@, i as int));
            return true;
        }
        i += 1;
    }
    assert(forall|j: int| occurs_at(haystack@, needle@, j) ==> 0 <= j < i);
    false
}

/// Where the Python interpreter is loaded.
#[derive(Debug, PartialEq)]
pub struct PythonBinary {
    pub base: u64,
    pub path: String,
}

/// The first address of a mapping and the bytes of its path.
#[derive(Debug, PartialEq)]
pub struct Mapping {
    pub base: u64,
    pub path: Vec<u8>,
}

impl View for Mapping {
    type V = (u64, Seq<u8>);

    open spec fn view(&self) -> (u64, Seq<u8>) {
        (self.base, self.path@)
    }
}

/// The bytes of `libpython3`.
pub open spec fn libpython3() -> Seq<u8> {
    seq![0x6c, 0x69, 0x62, 0x70, 0x79, 0x74, 0x68, 0x6f, 0x6e, 0x33]
}

/// The bytes of `python3`.
pub open spec fn python3() -> Seq<u8> {
    seq![0x70, 0x79, 0x74, 0x68, 0x6f, 0x6e, 0x33]
}

/// The line is well formed and its path contains `needle`.
pub open spec fn line_names(line: Seq<u8>, needle: Seq<u8>) -> bool {
    maps_line(line) matches Some(m) && contains_bytes(m.path, needle)
}

/// The first address and the path of a well-formed line.
pub open spec fn mapping_of(line: Seq<u8>) -> (u64, Seq<u8>) {
    let m = maps_line(line).unwrap();
    (m.start as u64, m.path)
}

/// `i` is the first of the lines whose path contains `needle`.
pub open spec fn is_first_naming(lines: Seq<Seq<u8>>, needle: Seq<u8>, i: int) -> bool {
    &&& 0 <= i < lines.len()
    &&& line_names(lines[i], needle)
    &&& forall|j: int| 0 <= j < i ==> !line_names(#[trigger] lines[j], needle)
}

/// The mapping of the first line whose path contains `needle`.
pub open spec fn first_naming(lines: Seq<Seq<u8>>, needle: Seq<u8>) -> Option<(u64, Seq<u8>)> {
    if exists|i: int| is_first_naming(lines, needle, i) {
        Some(mapping_of(lines[choose|i: int| is_first_naming(lines, needle, i)]))
    } else {
        None
    }
}

/// The mapping that the interpreter is taken from: the first of `libpython3` where there is
/// one, else the first of `python3`.
pub open spec fn python_mapping(lines: Seq<Seq<u8>>) -> Option<(u64, Seq<u8>)> {
    match first_naming(lines, libpython3()) {
        Some(m) => Some(m),
        None => first_naming(lines, python3()),
    }
}

/// The lines of a text. A line feed ends a line and belongs to it; the last line may lack one.
pub open spec fn text_lines(text: Seq<u8>) -> Seq<Seq<u8>>
    decreases text.len(),
{
    if text.len() == 0 {
        seq![]
    } else {
        match first_index(text, NEWLINE) {
            Some(i) => seq![text.take(i + 1)] + text_lines(text.skip(i + 1)),
            None => seq![text],
        }
    }
}

/// What reading on in the text gave.
pub enum MapsRead<'a> {
    /// One line, with the line feed that ends it.
    Line(&'a [u8]),
    /// The text has ended.
    End,
    /// The text could not be read on.
    Failed,
}

/// What to do after a read.
pub enum ScanStep {
    /// Read on.
    ReadNext,
    /// Stop: the interpreter's mapping is found, or there is none.
    Done(Result<Mapping, InitError>),
}

/// A search through the lines of `/proc/<pid>/maps` under way. It keeps the first mapping of
/// `python3`, which counts only while no `libpython3` turns up.
pub struct MapsScan {
    pub python3: Option<Mapping>,
}

/// A mapping that may be there, by its view.
pub open spec fn opt_view(m: Option<Mapping>) -> Option<(u64, Seq<u8>)> {
    match m {
        Some(x) => Some(x@),
        None => None,
    }
}

/// The fallback after a line, where `seen` was the fallback before it.
pub open spec fn fallback_after(
    seen: Option<(u64, Seq<u8>)>,
    line: Seq<u8>,
) -> Option<(u64, Seq<u8>)> {
    if seen is None && line_names(line, python3()) {
        Some(mapping_of(line))
    } else {
        seen
    }
}

/// What a search comes to that has the fallback `seen` and reads `lines` and then the end of
/// the text, or, where `complete` does not hold, a failed read. `None` stands for
/// [`InitError::PythonNotFound`].
pub open spec fn scan_result(
    seen: Option<(u64, Seq<u8>)>,
    lines: Seq<Seq<u8>>,
    complete: bool,
) -> Option<(u64, Seq<u8>)>
    decreases lines.len(),
{
    if lines.len() == 0 {
        if complete {
            seen
        } else {
            None
        }
    } else if line_names(lines[0], libpython3()) {
        Some(mapping_of(lines[0]))
    } else {
        scan_result(fallback_after(seen, lines[0]), lines.skip(1), complete)
    }
}

impl MapsScan {
    /// A search that has read nothing.
    pub fn new() -> (r: MapsScan)
        ensures
            r.python3 is None,
    {
        MapsScan { python3: None }
    }

    /// Takes in one read. A line of `libpython3` ends the search at once, a failed read ends it
    /// with nothing found, and the end of the text with the fallback.
    pub fn step(&mut self, read: MapsRead<'_>) -> (r: ScanStep)
        ensures
            match read {
                MapsRead::Line(line) => if line_names(line@, libpython3()) {
                    &&& r matches ScanStep::Done(Ok(m)) && m@ == mapping_of(line@)
                    &&& opt_view(final(self).python3) == opt_view(old(self).python3)
                } else {
                    &&& r is ReadNext
                    &&& opt_view(final(self).python3) == fallback_after(
                        opt_view(old(self).python3),
                        line@,
                    )
                },
                MapsRead::End => {
                    &&& final(self).python3 is None
                    &&& match old(self).python3 {
                        Some(m) => r == ScanStep::Done(Ok(m)),
                        None => r == ScanStep::Done(Err(InitError::PythonNotFound)),
                    }
                },
                MapsRead::Failed => {
                    &&& final(self).python3 == old(self).python3
                    &&& r == ScanStep::Done(Err(InitError::PythonNotFound))
                },
            },
            match read {
                MapsRead::Line(line) => forall|rest: Seq<Seq<u8>>, complete: bool| #[trigger]
                    scan_result(opt_view(old(self).python3), seq![line@] + rest, complete) == (
                    match r {
                        ScanStep::ReadNext => scan_result(
                            opt_view(final(self).python3),
                            rest,
                            complete,
                        ),
                        ScanStep::Done(Ok(m)) => Some((m.base, m.path@)),
                        ScanStep::Done(Err(_)) => None,
                    }),
                MapsRead::End => r is Done && scan_result(
                    opt_view(old(self).python3),
                    Seq::empty(),
                    true,
                ) == (match r {
                    ScanStep::Done(Ok(m)) => Some((m.base, m.path@)),
                    _ => None,
                }),
                MapsRead::Failed => r is Done && scan_result(
                    opt_view(old(self).python3),
                    Seq::empty(),
                    false,
                ) == (match r {
                    ScanStep::Done(Ok(m)) => Some((m.base, m.path@)),
                    _ => None,
                }),
            },
    {
        proof {
            if let MapsRead::Line(line) = read {
                assert forall|rest: Seq<Seq<u8>>|
                    (#[trigger] (seq![line@] + rest))[0] == line@ && (seq![line@] + rest).skip(1)
                        == rest by {
                    assert((seq![line@] + rest).skip(1) =~= rest);
                }
            }
        }
        match read {
            MapsRead::Line(line) => {
                let (start, path) = match parse_maps_line(line) {
                    Some(f) => (f.0, f.7),
                    None => {
                        return ScanStep::ReadNext;
                    },
                };
                let lib: [u8; 10] = [0x6c, 0x69, 0x62, 0x70, 0x79, 0x74, 0x68, 0x6f, 0x6e, 0x33];
                let exe: [u8; 7] = [0x70, 0x79, 0x74, 0x68, 0x6f, 0x6e, 0x33];
                assert(lib@ =~= libpython3());
                assert(exe@ =~= python3());
                if path_contains(path, lib.as_slice()) {
                    return ScanStep::Done(Ok(Mapping { base: start, path: slice_to_vec(path) }));
                }
                if self.python3.is_none() && path_contains(path, exe.as_slice()) {
                    self.python3 = Some(Mapping { base: start, path: slice_to_vec(path) });
                }
                ScanStep::ReadNext
            },
            MapsRead::End => match self.python3.take() {
                Some(m) => ScanStep::Done(Ok(m)),
                None => ScanStep::Done(Err(InitError::PythonNotFound)),
            },
            MapsRead::Failed => ScanStep::Done(Err(InitError::PythonNotFound)),
        }
    }
}

proof fn lemma_first_naming(lines: Seq<Seq<u8>>, needle: Seq<u8>, i: int)
    requires
        is_first_naming(lines, needle, i),
    ensures
        first_naming(lines, needle) == Some(mapping_of(lines[i])),
{
    let k = choose|k: int| is_first_naming(lines, needle, k);
    assert(is_first_naming(lines, needle, k));
    if k < i {
        assert(!line_names(lines[k], needle));
    } else if i < k {
        assert(!line_names(lines[i], needle));
    }
}

/// The first line decides, or else the lines behind it.
proof fn lemma_first_naming_step(lines: Seq<Seq<u8>>, needle: Seq<u8>)
    requires
        lines.len() > 0,
    ensures
        first_naming(lines, needle) == if line_names(lines[0], needle) {
            Some(mapping_of(lines[0]))
        } else {
            first_naming(lines.skip(1), needle)
        },
{
    let rest = lines.skip(1);
    if line_names(lines[0], needle) {
        assert(is_first_naming(lines, needle, 0));
        lemma_first_naming(lines, needle, 0);
    } else {
        assert forall|i: int| is_first_naming(rest, needle, i) implies is_first_naming(
            lines,
            needle,
            i + 1,
        ) by {
            assert(lines[i + 1] == rest[i]);
            assert forall|j: int| 0 <= j < i + 1 implies !line_names(#[trigger] lines[j], needle) by {
                if j > 0 {
                    assert(lines[j] == rest[j - 1]);
                }
            }
        }
        assert forall|i: int| is_first_naming(lines, needle, i) implies is_first_naming(
            rest,
            needle,
            i - 1,
        ) by {
            assert(lines[i] == rest[i - 1]);
            assert forall|j: int| 0 <= j < i - 1 implies !line_names(#[trigger] rest[j], needle) by {
                assert(rest[j] == lines[j + 1]);
            }
        }
        if exists|i: int| is_first_naming(rest, needle, i) {
            let i = choose|i: int| is_first_naming(rest, needle, i);
            assert(is_first_naming(lines, needle, i + 1));
            lemma_first_naming(rest, needle, i);
            lemma_first_naming(lines, needle, i + 1);
        } else if exists|i: int| is_first_naming(lines, needle, i) {
            let i = choose|i: int| is_first_naming(lines, needle, i);
            assert(is_first_naming(rest, needle, i - 1));
        }
    }
}

/// A search that reads to the end of the text finds the mapping of the first `libpython3`, or
/// without one the fallback, which is the first `python3`. A search that a failed read cuts
/// short finds a `libpython3` that it had read by then, and nothing else.
pub proof fn law_scan_result(seen: Option<(u64, Seq<u8>)>, lines: Seq<Seq<u8>>)
    ensures
        scan_result(seen, lines, true) == match first_naming(lines, libpython3()) {
            Some(m) => Some(m),
            None => match seen {
                Some(m) => Some(m),
                None => first_naming(lines, python3()),
            },
        },
        scan_result(seen, lines, false) == first_naming(lines, libpython3()),
        scan_result(None, lines, true) == python_mapping(lines),
    decreases lines.len(),
{
    if lines.len() > 0 {
        lemma_first_naming_step(lines, libpython3());
        lemma_first_naming_step(lines, python3());
        law_scan_result(fallback_after(seen, lines[0]), lines.skip(1));
        law_scan_result(fallback_after(None, lines[0]), lines.skip(1));
    }
}

/// The text that `bytes` stand for in UTF-8, with replacement characters in place of what is
/// no UTF-8.
pub uninterp spec fn utf8_lossy(bytes: Seq<u8>) -> Seq<char>;

/// Calls `String::from_utf8_lossy` and takes ownership of the text. Assumed of it: the text
/// depends on the bytes alone, and bytes that are valid UTF-8 are decoded as they stand. Which
/// replacement characters stand for invalid bytes is left unsaid.
#[verifier::external_body]
fn string_from_utf8_lossy(bytes: &[u8]) -> (r: String)
    ensures
        r@ == utf8_lossy(bytes@),
        valid_utf8(bytes@) ==> r@ == decode_utf8(bytes@),
{
    String::from_utf8_lossy(bytes).into_owned()
}

/// The interpreter that a mapping belongs to: the same base, and the path as text.
pub fn python_binary(mapping: &Mapping) -> (r: PythonBinary)
    ensures
        r.base == mapping.base,
        r.path@ == utf8_lossy(mapping.path@),
        valid_utf8(mapping.path@) ==> r.path@ == decode_utf8(mapping.path@),
        valid_utf8(mapping.path@) ==> encode_utf8(r.path@) == mapping.path@,
{
    broadcast use vstd::utf8::decode_utf8_encode_utf8;

    PythonBinary { base: mapping.base, path: string_from_utf8_lossy(mapping.path.as_slice()) }
}

/// Searches the text of `/proc/<pid>/maps` for the interpreter's mapping.
pub fn find_mapping(maps: &[u8]) -> (r: Result<Mapping, InitError>)
    ensures
        match python_mapping(text_lines(maps@)) {
            Some(m) => r matches Ok(x) && x@ == m,
            None => r == Err::<Mapping, InitError>(InitError::PythonNotFound),
        },
{
    let mut scan = MapsScan::new();
    let mut pos: usize = 0;
    let end: usize = maps.len();
    proof {
        law_scan_result(None, text_lines(maps@));
    }
    assert(maps@.skip(0) =~= maps@);
    while pos < end
        invariant
            0 <= pos <= end == maps@.len(),
            scan_result(opt_view(scan.python3), text_lines(maps@.skip(pos as int)), true)
                == python_mapping(text_lines(maps@)),
        decreases end - pos,
    {
        let rest = slice_subrange(maps, pos, end);
        assert(rest@ =~= maps@.skip(pos as int));
        let n: usize = match position(rest, NEWLINE) {
            Some(i) => i + 1,
            None => end - pos,
        };
        let line = slice_subrange(rest, 0, n);
        proof {
            let lines = text_lines(rest@);
            assert(line@ =~= rest@.take(n as int));
            assert(line@ == lines[0]);
            assert(rest@.skip(n as int) =~= maps@.skip(pos + n));
            assert(lines.skip(1) =~= text_lines(maps@.skip(pos + n)));
        }
        match scan.step(MapsRead::Line(line)) {
            ScanStep::ReadNext => {},
            ScanStep::Done(r) => {
                return r;
            },
        }
        pos += n;
    }
    match scan.step(MapsRead::End) {
        ScanStep::Done(r) => r,
        ScanStep::ReadNext => Err(InitError::PythonNotFound),
    }
}

/// Parses the text of `/proc/<pid>/maps` and says where Python is loaded. A mapping of
/// `libpython3` is preferred over one of `python3`, and of several the first is taken.
pub fn find_python_in_maps_reader(maps: &[u8]) -> (r: Result<PythonBinary, InitError>)
    ensures
        match python_mapping(text_lines(maps@)) {
            Some((base, path)) => {
                &&& r matches Ok(b)
                &&& b.base == base
                &&& b.path@ == utf8_lossy(path)
                &&& valid_utf8(path) ==> b.path@ == decode_utf8(path)
                &&& valid_utf8(path) ==> encode_utf8(b.path@) == path
            },
            None => r == Err::<PythonBinary, InitError>(InitError::PythonNotFound),
        },
{
    match find_mapping(maps) {
        Ok(m) => Ok(python_binary(&m)),
        Err(e) => Err(e),
    }
}

} // verus!
