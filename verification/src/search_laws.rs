//! What the search for Python gives back of the lines that it reads.
use crate::bytes::{contains_bytes, cut_at, splitn, trimmed_ascii};
use crate::maps::{
    fields_view, first_naming, is_first_naming, libpython3, line_names, maps_line, mapping_of,
    opt_view, perm_flags, python3, python_mapping, text_lines, Mapping, MapsLineFields, COLON, DASH,
    FLAGS_EXEC, FLAGS_READ, FLAGS_SHARED, FLAGS_WRITE, NEWLINE, SPACE,
};
use crate::maps_laws::{
    joined, law_flags, law_found_where_named, law_libpython3_decides_a_text,
    law_line_feed_of_a_line, law_well_formed_line, line_text, whole_lines,
};
use crate::numbers::{trimmed_decimal, uint};
use crate::text_laws::{ascii_blank, law_contains, law_cut, law_trim_ascii};
use vstd::prelude::*;

verus! {

/// The names that are searched for are `libpython3` and `python3`.
pub proof fn law_names()
    ensures
        libpython3().len() == "libpython3"@.len(),
        forall|i: int|
            0 <= i < libpython3().len() ==> #[trigger] libpython3()[i] == "libpython3"@[i] as u8,
        python3().len() == "python3"@.len(),
        forall|i: int| 0 <= i < python3().len() ==> #[trigger] python3()[i] == "python3"@[i] as u8,
{
    reveal_strlit("libpython3");
    reveal_strlit("python3");
}

/// The fields of a parsed line stand for the numbers and bytes that they are.
pub proof fn law_fields_are_told(f: MapsLineFields<'_>)
    ensures
        fields_view(f).start == f.0,
        fields_view(f).end == f.1,
        fields_view(f).flags == f.2,
        fields_view(f).offset == f.3,
        fields_view(f).dev_major == f.4,
        fields_view(f).dev_minor == f.5,
        fields_view(f).inode == f.6,
        fields_view(f).path == f.7@,
{
}

/// A mapping stands for its whole base and its whole path.
pub proof fn law_mapping_is_told(m: Mapping)
    ensures
        m@.0 == m.base,
        m@.1 == m.path@,
        opt_view(Some(m)) == Some((m.base, m.path@)),
        opt_view(None) is None,
{
}

/// Permissions of four or more characters have flags: bit 0 for `r`, bit 1 for `w`, bit 2 for
/// `x`, bit 3 for `s`, each at its place. Shorter ones have none.
pub proof fn law_flag_bits(perms: Seq<u8>)
    ensures
        perm_flags(perms) is None <==> perms.len() < 4,
        perm_flags(perms) matches Some(flags) ==> {
            &&& flags & 1 != 0 <==> perms[0] == 114
            &&& flags & 2 != 0 <==> perms[1] == 119
            &&& flags & 4 != 0 <==> perms[2] == 120
            &&& flags & 8 != 0 <==> perms[3] == 115
            &&& flags < 16
        },
        FLAGS_READ == 1 && FLAGS_WRITE == 2 && FLAGS_EXEC == 4 && FLAGS_SHARED == 8,
{
    if perms.len() >= 4 {
        law_flags(perms);
    }
}

/// A line names `needle` exactly where it is well formed and its path consists of something,
/// `needle` and something.
pub proof fn law_line_names(line: Seq<u8>, needle: Seq<u8>)
    requires
        needle.len() > 0,
    ensures
        line_names(line, needle) <==> maps_line(line) is Some && exists|a: Seq<u8>, b: Seq<u8>|
            maps_line(line).unwrap().path == #[trigger] (a + needle + b),
{
    if maps_line(line) is Some {
        law_contains(maps_line(line).unwrap().path, needle);
    }
}

/// Only well-formed lines mean anything: such a line consists of the two addresses, the
/// permissions, the offset, the two device numbers, the inode and, where a space follows the
/// inode, the rest, and means just what these are read as. They are the result.
pub proof fn law_only_well_formed_lines(line: Seq<u8>) -> (f: (
    (Seq<u8>, Seq<u8>),
    Seq<u8>,
    Seq<u8>,
    (Seq<u8>, Seq<u8>),
    Seq<u8>,
    Option<Seq<u8>>,
))
    requires
        maps_line(line) is Some,
    ensures
        ({
            let m = maps_line(line).unwrap();
            let ((start, end), perms, offset, (major, minor), inode, rest) = f;
            &&& line == line_text(
                start,
                end,
                perms,
                offset,
                major,
                minor,
                match rest {
                    Some(rest) => joined(inode, SPACE, rest),
                    None => inode,
                },
            )
            &&& uint(start, 16, 0xffff_ffff_ffff_ffff) == Some(m.start)
            &&& uint(end, 16, 0xffff_ffff_ffff_ffff) == Some(m.end)
            &&& perm_flags(perms) == Some(m.flags)
            &&& uint(offset, 16, 0xffff_ffff_ffff_ffff) == Some(m.offset)
            &&& uint(major, 16, 0xffff_ffff) == Some(m.dev_major)
            &&& uint(minor, 16, 0xffff_ffff) == Some(m.dev_minor)
            &&& trimmed_decimal(inode) == Some(m.inode)
            &&& forall|i: int| 0 <= i < perms.len() ==> perms[i] != 32
            &&& forall|i: int| 0 <= i < inode.len() ==> inode[i] != 32
            &&& match rest {
                Some(rest) => m.path == trimmed_ascii(rest),
                None => m.path.len() == 0,
            }
        }),
{
    let p = splitn(line, SPACE, 6);
    let (addresses, rest1) = lemma_first_piece(line, 6);
    let (perms, rest2) = lemma_first_piece(rest1, 5);
    let (offset, rest3) = lemma_first_piece(rest2, 4);
    let (device, tail) = lemma_first_piece(rest3, 3);
    let last = splitn(tail, SPACE, 2);
    assert(p =~= seq![addresses, perms, offset, device] + last);
    law_cut(addresses, DASH);
    law_cut(device, COLON);
    assert(p[0] == addresses && p[1] == perms && p[2] == offset && p[3] == device);
    assert(p[4] == last[0]);
    let (start, end) = cut_at(addresses, DASH).unwrap();
    let (major, minor) = cut_at(device, COLON).unwrap();
    let (inode, rest) = lemma_inode_and_rest(tail);
    ((start, end), perms, offset, (major, minor), inode, rest)
}

proof fn lemma_first_piece(s: Seq<u8>, n: nat) -> (r: (Seq<u8>, Seq<u8>))
    requires
        n >= 3,
        splitn(s, SPACE, n).len() >= n - 1,
    ensures
        s == joined(r.0, SPACE, r.1),
        splitn(s, SPACE, n) == seq![r.0] + splitn(r.1, SPACE, (n - 1) as nat),
        forall|i: int| 0 <= i < r.0.len() ==> r.0[i] != 32,
{
    law_cut(s, SPACE);
    cut_at(s, SPACE).unwrap()
}

proof fn lemma_inode_and_rest(tail: Seq<u8>) -> (r: (Seq<u8>, Option<Seq<u8>>))
    ensures
        forall|i: int| 0 <= i < r.0.len() ==> r.0[i] != 32,
        r.1 matches Some(rest) ==> tail == joined(r.0, SPACE, rest) && splitn(tail, SPACE, 2)
            == seq![r.0, rest],
        r.1 is None ==> tail == r.0 && splitn(tail, SPACE, 2) == seq![r.0],
{
    reveal_with_fuel(splitn, 2);
    law_cut(tail, SPACE);
    match cut_at(tail, SPACE) {
        Some((inode, rest)) => {
            assert(splitn(tail, SPACE, 2) =~= seq![inode, rest]);
            (inode, Some(rest))
        },
        None => (tail, None),
    }
}

/// What a mapping takes from a well-formed line is the number in the first field, whole, and the
/// bytes behind the inode, whole but for the blanks around them.
pub proof fn law_mapping_of_a_line(
    start: Seq<u8>,
    end: Seq<u8>,
    perms: Seq<u8>,
    offset: Seq<u8>,
    major: Seq<u8>,
    minor: Seq<u8>,
    inode: Seq<u8>,
    path: Seq<u8>,
)
    requires
        uint(start, 16, u64::MAX as nat) is Some,
        uint(end, 16, u64::MAX as nat) is Some,
        perms.len() >= 4,
        !perms.contains(SPACE),
        uint(offset, 16, u64::MAX as nat) is Some,
        uint(major, 16, u32::MAX as nat) is Some,
        uint(minor, 16, u32::MAX as nat) is Some,
        trimmed_decimal(inode) is Some,
        !inode.contains(SPACE),
    ensures
        ({
            let line = line_text(start, end, perms, offset, major, minor, joined(inode, SPACE, path));
            let (base, found) = mapping_of(line);
            &&& uint(start, 16, u64::MAX as nat) == Some(base as nat)
            &&& found == trimmed_ascii(path)
            &&& path.len() > 0 && !ascii_blank(path[0]) && !ascii_blank(path.last()) ==> found
                == path
            &&& mapping_of(line.push(NEWLINE)) == (base, found)
            &&& maps_line(line) is Some && maps_line(line.push(NEWLINE)) is Some
        }),
{
    law_well_formed_line(start, end, perms, offset, major, minor, inode, path);
    let line = line_text(start, end, perms, offset, major, minor, joined(inode, SPACE, path));
    law_line_feed_of_a_line(line);
    law_trim_ascii(path, 32);
}

/// What a search finds has a path that names `python3`, and it is the start address and the
/// path of one of the lines.
pub proof fn law_found_is_of_a_line(lines: Seq<Seq<u8>>)
    ensures
        python_mapping(lines) matches Some((base, path)) ==> {
            &&& contains_bytes(path, python3())
            &&& exists|i: int|
                0 <= i < lines.len() && maps_line(#[trigger] lines[i]) is Some && maps_line(
                    lines[i],
                ).unwrap().start == base && maps_line(lines[i]).unwrap().path == path
        },
{
    law_found_where_named(lines);
    if python_mapping(lines) is Some {
        let m = python_mapping(lines).unwrap();
        let i = choose|i: int|
            0 <= i < lines.len() && line_names(#[trigger] lines[i], python3()) && m == mapping_of(
                lines[i],
            );
        assert(line_names(lines[i], python3()));
        lemma_start_fits(lines[i]);
        assert(maps_line(lines[i]) is Some);
    }
}

proof fn lemma_start_fits(line: Seq<u8>)
    requires
        maps_line(line) is Some,
    ensures
        maps_line(line).unwrap().start <= u64::MAX,
{
    let f = law_only_well_formed_lines(line);
}

/// Where no line names `libpython3`, the first line that names `python3` decides.
pub proof fn law_python3_decides(before: Seq<Seq<u8>>, line: Seq<u8>, behind: Seq<Seq<u8>>)
    requires
        line_names(line, python3()),
        forall|i: int| 0 <= i < before.len() ==> !line_names(#[trigger] before[i], python3()),
        forall|i: int|
            0 <= i < (before + seq![line] + behind).len() ==> !line_names(
                #[trigger] (before + seq![line] + behind)[i],
                libpython3(),
            ),
    ensures
        python_mapping(before + seq![line] + behind) == Some(mapping_of(line)),
{
    let lines = before + seq![line] + behind;
    let k = before.len() as int;
    assert(lines[k] == line);
    assert forall|j: int| 0 <= j < k implies !line_names(#[trigger] lines[j], python3()) by {
        assert(lines[j] == before[j]);
    }
    assert(is_first_naming(lines, python3(), k));
    let i = choose|i: int| is_first_naming(lines, python3(), i);
    assert(is_first_naming(lines, python3(), i));
    if i < k {
        assert(!line_names(lines[i], python3()));
    } else if k < i {
        assert(!line_names(lines[k], python3()));
    }
    assert(first_naming(lines, libpython3()) is None) by {
        if exists|i: int| is_first_naming(lines, libpython3(), i) {
            let i = choose|i: int| is_first_naming(lines, libpython3(), i);
            assert(!line_names(lines[i], libpython3()));
        }
    }
}

/// A text of whole lines, none of which names `libpython3`, then a well-formed line whose path
/// is something, `libpython3` and something, then anything: the search finds the number in the
/// first field of that line and exactly that path.
pub proof fn law_libpython3_is_found(
    before: Seq<u8>,
    start: Seq<u8>,
    end: Seq<u8>,
    perms: Seq<u8>,
    offset: Seq<u8>,
    major: Seq<u8>,
    minor: Seq<u8>,
    inode: Seq<u8>,
    a: Seq<u8>,
    b: Seq<u8>,
    behind: Seq<u8>,
)
    requires
        whole_lines(before),
        forall|i: int|
            0 <= i < text_lines(before).len() ==> !line_names(
                #[trigger] text_lines(before)[i],
                libpython3(),
            ),
        uint(start, 16, u64::MAX as nat) is Some,
        uint(end, 16, u64::MAX as nat) is Some,
        perms.len() >= 4,
        !perms.contains(SPACE),
        uint(offset, 16, u64::MAX as nat) is Some,
        uint(major, 16, u32::MAX as nat) is Some,
        uint(minor, 16, u32::MAX as nat) is Some,
        trimmed_decimal(inode) is Some,
        !inode.contains(SPACE),
        a.len() > 0 && !ascii_blank(a[0]),
        b.len() > 0 && !ascii_blank(b.last()),
        !line_text(
            start,
            end,
            perms,
            offset,
            major,
            minor,
            joined(inode, SPACE, a + libpython3() + b),
        ).contains(NEWLINE),
    ensures
        ({
            let line = line_text(
                start,
                end,
                perms,
                offset,
                major,
                minor,
                joined(inode, SPACE, a + libpython3() + b),
            ).push(NEWLINE);
            &&& python_mapping(text_lines(before + line + behind)) matches Some((base, path))
            &&& uint(start, 16, u64::MAX as nat) == Some(base as nat)
            &&& path == a + libpython3() + b
        }),
{
    let path = a + libpython3() + b;
    let bare = line_text(start, end, perms, offset, major, minor, joined(inode, SPACE, path));
    assert(path[0] == a[0] && path.last() == b.last());
    lemma_path_of_a_line(start, end, perms, offset, major, minor, inode, path);
    lemma_named_line_is_found(before, bare, a, b, behind);
}

proof fn lemma_path_of_a_line(
    start: Seq<u8>,
    end: Seq<u8>,
    perms: Seq<u8>,
    offset: Seq<u8>,
    major: Seq<u8>,
    minor: Seq<u8>,
    inode: Seq<u8>,
    path: Seq<u8>,
)
    requires
        uint(start, 16, u64::MAX as nat) is Some,
        uint(end, 16, u64::MAX as nat) is Some,
        perms.len() >= 4,
        !perms.contains(SPACE),
        uint(offset, 16, u64::MAX as nat) is Some,
        uint(major, 16, u32::MAX as nat) is Some,
        uint(minor, 16, u32::MAX as nat) is Some,
        trimmed_decimal(inode) is Some,
        !inode.contains(SPACE),
        path.len() > 0 && !ascii_blank(path[0]) && !ascii_blank(path.last()),
    ensures
        maps_line(
            line_text(start, end, perms, offset, major, minor, joined(inode, SPACE, path)),
        ) matches Some(m) && m.path == path && Some(m.start) == uint(start, 16, u64::MAX as nat),
{
    law_well_formed_line(start, end, perms, offset, major, minor, inode, path);
    law_trim_ascii(path, 32);
}

proof fn lemma_named_line_is_found(
    before: Seq<u8>,
    bare: Seq<u8>,
    a: Seq<u8>,
    b: Seq<u8>,
    behind: Seq<u8>,
)
    requires
        whole_lines(before),
        forall|i: int|
            0 <= i < text_lines(before).len() ==> !line_names(
                #[trigger] text_lines(before)[i],
                libpython3(),
            ),
        maps_line(bare) is Some,
        maps_line(bare).unwrap().path == a + libpython3() + b,
        maps_line(bare).unwrap().start <= u64::MAX,
        !bare.contains(NEWLINE),
    ensures
        python_mapping(text_lines(before + bare.push(NEWLINE) + behind)) == Some(
            (maps_line(bare).unwrap().start as u64, a + libpython3() + b),
        ),
{
    let line = bare.push(NEWLINE);
    law_line_feed_of_a_line(bare);
    law_contains(a + libpython3() + b, libpython3());
    assert(line_names(line, libpython3()));
    assert(line.drop_last() =~= bare);
    law_libpython3_decides_a_text(before, line, behind);
}

} // verus!
