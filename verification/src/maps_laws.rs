//! What holds of every text of `/proc/<pid>/maps`.
use crate::bytes::{
    contains_bytes, cut_at, first_index, is_first_index, is_white_space, lemma_first_index,
    lemma_first_index_none, occurs_at, splitn, trim_ascii_end, trim_ascii_start, trim_end,
    trim_start, trimmed, trimmed_ascii, white_space_at_end, white_space_at_start,
};
use crate::maps::{
    fallback_after, first_naming, hex_pair, is_first_naming, law_scan_result, libpython3,
    line_names, maps_line, mapping_of, perm_flags, python3, python_mapping, scan_result,
    text_lines, MapsLine, COLON, DASH, FLAGS_EXEC, FLAGS_READ, FLAGS_SHARED, FLAGS_WRITE, NEWLINE,
    SPACE,
};
use crate::numbers::{digit, trimmed_decimal, uint, unsigned_part};
use vstd::prelude::*;

verus! {

/// A path that names `libpython3` also names `python3`.
pub proof fn law_libpython3_is_python3(path: Seq<u8>)
    ensures
        contains_bytes(path, libpython3()) ==> contains_bytes(path, python3()),
{
    if contains_bytes(path, libpython3()) {
        let i = choose|i: int| occurs_at(path, libpython3(), i);
        assert(libpython3().subrange(3, 10) =~= python3());
        assert(path.subrange(i + 3, i + 10) =~= path.subrange(i, i + 10).subrange(3, 10));
        assert(occurs_at(path, python3(), i + 3));
    }
}

/// A search finds something exactly where a line names `python3`, and then it is the mapping of
/// such a line.
pub proof fn law_found_where_named(lines: Seq<Seq<u8>>)
    ensures
        python_mapping(lines) is Some <==> exists|i: int|
            0 <= i < lines.len() && line_names(#[trigger] lines[i], python3()),
        python_mapping(lines) matches Some(m) ==> exists|i: int|
            0 <= i < lines.len() && line_names(#[trigger] lines[i], python3()) && m == mapping_of(
                lines[i],
            ),
{
    if python_mapping(lines) is Some {
        if first_naming(lines, libpython3()) is Some {
            let i = choose|i: int| is_first_naming(lines, libpython3(), i);
            law_libpython3_is_python3(maps_line(lines[i]).unwrap().path);
            assert(line_names(lines[i], python3()));
        } else {
            let i = choose|i: int| is_first_naming(lines, python3(), i);
            assert(line_names(lines[i], python3()));
        }
    }
    if exists|i: int| 0 <= i < lines.len() && line_names(#[trigger] lines[i], python3()) {
        let i = choose|i: int| 0 <= i < lines.len() && line_names(#[trigger] lines[i], python3());
        lemma_some_first_naming(lines, python3(), i);
    }
}

proof fn lemma_some_first_naming(lines: Seq<Seq<u8>>, needle: Seq<u8>, i: int)
    requires
        0 <= i < lines.len(),
        line_names(lines[i], needle),
    ensures
        first_naming(lines, needle) is Some,
    decreases i,
{
    if exists|j: int| 0 <= j < i && line_names(#[trigger] lines[j], needle) {
        let j = choose|j: int| 0 <= j < i && line_names(#[trigger] lines[j], needle);
        lemma_some_first_naming(lines, needle, j);
    } else {
        assert(is_first_naming(lines, needle, i));
    }
}

/// A line that names `libpython3` decides the search: what stands behind it is of no account,
/// and so is what does not name `libpython3` before it.
pub proof fn law_libpython3_decides(before: Seq<Seq<u8>>, line: Seq<u8>, behind: Seq<Seq<u8>>)
    requires
        line_names(line, libpython3()),
        forall|i: int| 0 <= i < before.len() ==> !line_names(#[trigger] before[i], libpython3()),
    ensures
        python_mapping(before + seq![line] + behind) == Some(mapping_of(line)),
{
    let lines = before + seq![line] + behind;
    let k = before.len() as int;
    assert(lines[k] == line);
    assert forall|j: int| 0 <= j < k implies !line_names(#[trigger] lines[j], libpython3()) by {
        assert(lines[j] == before[j]);
    }
    assert(is_first_naming(lines, libpython3(), k));
    let i = choose|i: int| is_first_naming(lines, libpython3(), i);
    assert(is_first_naming(lines, libpython3(), i));
    if i < k {
        assert(!line_names(lines[i], libpython3()));
    } else if k < i {
        assert(!line_names(lines[k], libpython3()));
    }
}

proof fn lemma_scan_skips(
    seen: Option<(u64, Seq<u8>)>,
    before: Seq<Seq<u8>>,
    line: Seq<u8>,
    behind: Seq<Seq<u8>>,
    complete: bool,
)
    requires
        !line_names(line, python3()),
    ensures
        scan_result(seen, before + seq![line] + behind, complete) == scan_result(
            seen,
            before + behind,
            complete,
        ),
    decreases before.len(),
{
    let with = before + seq![line] + behind;
    let without = before + behind;
    if before.len() == 0 {
        if line_names(line, libpython3()) {
            law_libpython3_is_python3(maps_line(line).unwrap().path);
        }
        assert(with[0] == line);
        assert(with.skip(1) =~= behind);
        assert(without =~= behind);
    } else {
        assert(with[0] == before[0] && without[0] == before[0]);
        assert(with.skip(1) =~= before.skip(1) + seq![line] + behind);
        assert(without.skip(1) =~= before.skip(1) + behind);
        lemma_scan_skips(
            fallback_after(seen, before[0]),
            before.skip(1),
            line,
            behind,
            complete,
        );
    }
}

/// A line that does not name `python3`, be it malformed or that of another file, changes
/// nothing, wherever it stands, also where a failed read cuts the search short.
pub proof fn law_other_lines_are_skipped(
    seen: Option<(u64, Seq<u8>)>,
    before: Seq<Seq<u8>>,
    line: Seq<u8>,
    behind: Seq<Seq<u8>>,
    complete: bool,
)
    requires
        !line_names(line, python3()),
    ensures
        scan_result(seen, before + seq![line] + behind, complete) == scan_result(
            seen,
            before + behind,
            complete,
        ),
        python_mapping(before + seq![line] + behind) == python_mapping(before + behind),
{
    lemma_scan_skips(seen, before, line, behind, complete);
    lemma_scan_skips(None, before, line, behind, true);
    law_scan_result(None, before + seq![line] + behind);
    law_scan_result(None, before + behind);
}

/// The lines of a text are all of it, in order; none is empty, each but the last ends with a
/// line feed, and there is no line feed elsewhere in a line.
pub proof fn law_text_lines(text: Seq<u8>)
    ensures
        text_lines(text).flatten() == text,
        forall|i: int|
            0 <= i < text_lines(text).len() ==> {
                let line = #[trigger] text_lines(text)[i];
                &&& line.len() > 0
                &&& !line.drop_last().contains(NEWLINE)
                &&& i < text_lines(text).len() - 1 ==> line.last() == NEWLINE
            },
    decreases text.len(),
{
    let lines = text_lines(text);
    lemma_first_index_none(text, NEWLINE);
    if text.len() > 0 {
        match first_index(text, NEWLINE) {
            Some(k) => {
                let n = choose|n: int| is_first_index(text, NEWLINE, n);
                assert(is_first_index(text, NEWLINE, n) && n == k);
                let rest = text.skip(k + 1);
                law_text_lines(rest);
                assert(lines[0] == text.take(k + 1));
                assert(lines.drop_first() =~= text_lines(rest));
                assert(text.take(k + 1) + rest =~= text);
                assert forall|i: int| 0 <= i < lines.len() implies {
                    let line = #[trigger] lines[i];
                    &&& line.len() > 0
                    &&& !line.drop_last().contains(NEWLINE)
                    &&& i < lines.len() - 1 ==> line.last() == NEWLINE
                } by {
                    if i > 0 {
                        assert(lines[i] == text_lines(rest)[i - 1]);
                    } else {
                        let head = lines[0].drop_last();
                        assert forall|j: int| 0 <= j < head.len() implies head[j] != NEWLINE by {
                            assert(head[j] == text[j]);
                        }
                    }
                }
            },
            None => {
                assert(lines.drop_first() =~= Seq::<Seq<u8>>::empty());
                assert(Seq::<Seq<u8>>::empty().flatten() =~= Seq::<u8>::empty());
                assert(lines.flatten() =~= text);
                let head = text.drop_last();
                assert forall|j: int| 0 <= j < head.len() implies head[j] != NEWLINE by {
                    assert(head[j] == text[j]);
                    assert(text.contains(text[j]));
                }
            },
        }
    }
}

/// `text` consists of whole lines: it is empty or ends with a line feed.
pub open spec fn whole_lines(text: Seq<u8>) -> bool {
    text.len() > 0 ==> text.last() == NEWLINE
}

/// The lines of whole lines and a text behind them are the lines of the one and then those of
/// the other.
pub proof fn law_lines_of_parts(a: Seq<u8>, b: Seq<u8>)
    requires
        whole_lines(a),
    ensures
        text_lines(a + b) == text_lines(a) + text_lines(b),
    decreases a.len(),
{
    if a.len() == 0 {
        assert(a + b =~= b);
        assert(text_lines(a) + text_lines(b) =~= text_lines(b));
    } else {
        assert(a.contains(a.last()));
        lemma_first_index_none(a, NEWLINE);
        let k = choose|k: int| is_first_index(a, NEWLINE, k);
        let rest = a.skip(k + 1);
        assert(is_first_index(a, NEWLINE, k));
        assert forall|j: int| 0 <= j < k implies (a + b)[j] != NEWLINE by {
            assert((a + b)[j] == a[j]);
        }
        assert(is_first_index(a + b, NEWLINE, k));
        lemma_first_index(a, NEWLINE, k);
        lemma_first_index(a + b, NEWLINE, k);
        assert((a + b).take(k + 1) =~= a.take(k + 1));
        assert((a + b).skip(k + 1) =~= rest + b);
        law_lines_of_parts(rest, b);
        assert(text_lines(a + b) =~= text_lines(a) + text_lines(b));
    }
}

proof fn lemma_one_line(line: Seq<u8>)
    requires
        line.len() > 0,
        line.last() == NEWLINE,
        !line.drop_last().contains(NEWLINE),
    ensures
        text_lines(line) == seq![line],
{
    let k = line.len() - 1;
    assert forall|j: int| 0 <= j < k implies line[j] != NEWLINE by {
        assert(line.drop_last().contains(line.drop_last()[j]));
    }
    assert(is_first_index(line, NEWLINE, k));
    lemma_first_index(line, NEWLINE, k);
    assert(line.take(k + 1) =~= line);
    let rest = line.skip(k + 1);
    assert(rest.len() == 0);
    assert(text_lines(rest) =~= Seq::<Seq<u8>>::empty());
    assert(text_lines(line) =~= seq![line]);
}

/// A text in which a line names `libpython3` and no line before it does: the search finds that
/// line's mapping, whatever stands behind it.
pub proof fn law_libpython3_decides_a_text(before: Seq<u8>, line: Seq<u8>, behind: Seq<u8>)
    requires
        whole_lines(before),
        line.len() > 0,
        line.last() == NEWLINE,
        !line.drop_last().contains(NEWLINE),
        line_names(line, libpython3()),
        forall|i: int|
            0 <= i < text_lines(before).len() ==> !line_names(
                #[trigger] text_lines(before)[i],
                libpython3(),
            ),
    ensures
        python_mapping(text_lines(before + line + behind)) == Some(mapping_of(line)),
{
    lemma_lines_around(before, line, behind);
    law_libpython3_decides(text_lines(before), line, text_lines(behind));
}

/// A line that does not name `python3` can be taken out of a text without changing what the
/// search finds.
pub proof fn law_other_lines_of_a_text_are_skipped(
    before: Seq<u8>,
    line: Seq<u8>,
    behind: Seq<u8>,
)
    requires
        whole_lines(before),
        line.len() > 0,
        line.last() == NEWLINE,
        !line.drop_last().contains(NEWLINE),
        !line_names(line, python3()),
    ensures
        python_mapping(text_lines(before + line + behind)) == python_mapping(
            text_lines(before + behind),
        ),
{
    lemma_lines_around(before, line, behind);
    law_lines_of_parts(before, behind);
    law_other_lines_are_skipped(None, text_lines(before), line, text_lines(behind), true);
}

proof fn lemma_lines_around(before: Seq<u8>, line: Seq<u8>, behind: Seq<u8>)
    requires
        whole_lines(before),
        line.len() > 0,
        line.last() == NEWLINE,
        !line.drop_last().contains(NEWLINE),
    ensures
        text_lines(before + line + behind) == text_lines(before) + seq![line] + text_lines(behind),
{
    lemma_one_line(line);
    law_lines_of_parts(before, line);
    assert((before + line).last() == NEWLINE);
    law_lines_of_parts(before + line, behind);
}

proof fn lemma_splitn_push(s: Seq<u8>, x: u8, sep: u8, n: nat)
    requires
        n >= 1,
        x != sep,
    ensures
        splitn(s, sep, n).len() >= 1,
        splitn(s.push(x), sep, n) == splitn(s, sep, n).drop_last().push(
            splitn(s, sep, n).last().push(x),
        ),
    decreases n,
{
    let t = s.push(x);
    lemma_first_index_none(s, sep);
    lemma_first_index_none(t, sep);
    if n > 1 && s.contains(sep) {
        let i = choose|i: int| is_first_index(s, sep, i);
        assert(is_first_index(s, sep, i));
        assert forall|j: int| 0 <= j < i implies t[j] != sep by {
            assert(t[j] == s[j]);
        }
        assert(is_first_index(t, sep, i));
        lemma_first_index(s, sep, i);
        lemma_first_index(t, sep, i);
        assert(t.take(i) =~= s.take(i));
        assert(t.skip(i + 1) =~= s.skip(i + 1).push(x));
        lemma_splitn_push(s.skip(i + 1), x, sep, (n - 1) as nat);
    } else if n > 1 {
        assert forall|j: int| 0 <= j < t.len() implies t[j] != sep by {
            if j < s.len() {
                assert(s.contains(s[j]));
            }
        }
    }
    assert(splitn(t, sep, n) =~= splitn(s, sep, n).drop_last().push(
        splitn(s, sep, n).last().push(x),
    ));
}

proof fn lemma_trim_ascii_push(s: Seq<u8>)
    ensures
        trim_ascii_start(s.push(NEWLINE)) == if trim_ascii_start(s).len() == 0 {
            Seq::empty()
        } else {
            trim_ascii_start(s).push(NEWLINE)
        },
    decreases s.len(),
{
    let t = s.push(NEWLINE);
    if s.len() == 0 {
        assert(t.skip(1) =~= Seq::<u8>::empty());
        assert(trim_ascii_start(t.skip(1)) =~= Seq::<u8>::empty());
    } else {
        assert(t.skip(1) =~= s.skip(1).push(NEWLINE));
        lemma_trim_ascii_push(s.skip(1));
    }
}

proof fn lemma_trimmed_ascii_push(s: Seq<u8>)
    ensures
        trimmed_ascii(s.push(NEWLINE)) == trimmed_ascii(s),
{
    lemma_trim_ascii_push(s);
    let t = trim_ascii_start(s);
    if t.len() == 0 {
        assert(t =~= Seq::<u8>::empty());
    } else {
        assert(t.push(NEWLINE).drop_last() =~= t);
        assert(trim_ascii_end(t.push(NEWLINE)) == trim_ascii_end(t));
    }
}

proof fn lemma_white_space_push(s: Seq<u8>)
    requires
        s.len() > 0,
    ensures
        white_space_at_start(s.push(NEWLINE)) == white_space_at_start(s),
{
    let t = s.push(NEWLINE);
    assert(t.take(1) =~= s.take(1));
    if s.len() >= 2 {
        assert(t.take(2) =~= s.take(2));
    } else {
        assert(!is_white_space(t.take(2)));
    }
    if s.len() >= 3 {
        assert(t.take(3) =~= s.take(3));
    } else if s.len() == 2 {
        assert(!is_white_space(t.take(3)));
    }
}

proof fn lemma_trim_start_push(s: Seq<u8>)
    ensures
        trim_start(s.push(NEWLINE)) == if trim_start(s).len() == 0 {
            Seq::empty()
        } else {
            trim_start(s).push(NEWLINE)
        },
    decreases s.len(),
{
    let t = s.push(NEWLINE);
    if s.len() == 0 {
        assert(is_white_space(t.take(1)));
        assert(t.skip(1) =~= Seq::<u8>::empty());
        assert(trim_start(t.skip(1)) =~= Seq::<u8>::empty());
    } else {
        lemma_white_space_push(s);
        let n = white_space_at_start(s);
        if n > 0 {
            assert(t.skip(n) =~= s.skip(n).push(NEWLINE));
            lemma_trim_start_push(s.skip(n));
        }
    }
}

proof fn lemma_trimmed_push(s: Seq<u8>)
    ensures
        trimmed(s.push(NEWLINE)) == trimmed(s),
{
    lemma_trim_start_push(s);
    let t = trim_start(s);
    if t.len() == 0 {
        assert(t =~= Seq::<u8>::empty());
    } else {
        let u = t.push(NEWLINE);
        assert(is_white_space(u.skip(u.len() - 1)));
        assert(white_space_at_end(u) == 1);
        assert(u.take(u.len() - 1) =~= t);
        assert(trim_end(u) == trim_end(t));
    }
}

/// A line means the same with and without a line feed behind it.
pub proof fn law_line_feed_of_a_line(line: Seq<u8>)
    ensures
        maps_line(line.push(NEWLINE)) == maps_line(line),
{
    let f = splitn(line, SPACE, 6);
    let g = splitn(line.push(NEWLINE), SPACE, 6);
    lemma_splitn_push(line, NEWLINE, SPACE, 6);
    lemma_trimmed_push(f.last());
    lemma_trimmed_ascii_push(f.last());
    assert(g.len() == f.len());
    assert(forall|i: int| 0 <= i < f.len() - 1 ==> g[i] == f[i]);
    lemma_splitn_length(line, SPACE, 6);
    if f.len() == 5 {
        assert(g[4] == f[4].push(NEWLINE));
    } else if f.len() == 6 {
        assert(g[5] == f[5].push(NEWLINE));
    }
}

proof fn lemma_splitn_length(s: Seq<u8>, sep: u8, n: nat)
    ensures
        splitn(s, sep, n).len() <= n,
    decreases n,
{
    if n > 1 && cut_at(s, sep) is Some {
        lemma_splitn_length(cut_at(s, sep).unwrap().1, sep, (n - 1) as nat);
    }
}

/// A line feed at the end of a text changes nothing about what a search finds, also where it
/// follows another one.
pub proof fn law_final_line_feed(
    seen: Option<(u64, Seq<u8>)>,
    text: Seq<u8>,
    complete: bool,
)
    ensures
        scan_result(seen, text_lines(text.push(NEWLINE)), complete) == scan_result(
            seen,
            text_lines(text),
            complete,
        ),
        python_mapping(text_lines(text.push(NEWLINE))) == python_mapping(text_lines(text)),
{
    lemma_scan_line_feed(seen, text, complete);
    lemma_scan_line_feed(None, text, true);
    law_scan_result(None, text_lines(text.push(NEWLINE)));
    law_scan_result(None, text_lines(text));
}

proof fn lemma_scan_line_feed(seen: Option<(u64, Seq<u8>)>, text: Seq<u8>, complete: bool)
    ensures
        scan_result(seen, text_lines(text.push(NEWLINE)), complete) == scan_result(
            seen,
            text_lines(text),
            complete,
        ),
    decreases text.len(),
{
    let more = text.push(NEWLINE);
    lemma_first_index_none(text, NEWLINE);
    if text.contains(NEWLINE) {
        let k = choose|k: int| is_first_index(text, NEWLINE, k);
        assert(is_first_index(text, NEWLINE, k));
        assert forall|j: int| 0 <= j < k implies more[j] != NEWLINE by {
            assert(more[j] == text[j]);
        }
        assert(is_first_index(more, NEWLINE, k));
        lemma_first_index(text, NEWLINE, k);
        lemma_first_index(more, NEWLINE, k);
        let head = text.take(k + 1);
        let rest = text.skip(k + 1);
        assert(more.take(k + 1) =~= head);
        assert(more.skip(k + 1) =~= rest.push(NEWLINE));
        assert(text_lines(more).skip(1) =~= text_lines(rest.push(NEWLINE)));
        assert(text_lines(text).skip(1) =~= text_lines(rest));
        assert(text_lines(more)[0] == head && text_lines(text)[0] == head);
        lemma_scan_line_feed(fallback_after(seen, head), rest, complete);
    } else {
        assert(more.drop_last() =~= text);
        lemma_one_line(more);
        law_line_feed_of_a_line(text);
        let none = Seq::<Seq<u8>>::empty();
        assert(seq![more].skip(1) =~= none);
        if text.len() == 0 {
            assert(text_lines(text) =~= none);
            lemma_empty_line();
            assert(text =~= Seq::<u8>::empty());
            assert(maps_line(more) is None);
            assert(scan_result(seen, seq![more], complete) == scan_result(seen, none, complete));
        } else {
            assert(text_lines(text) =~= seq![text]);
            assert(seq![text].skip(1) =~= none);
        }
    }
}

proof fn lemma_empty_line()
    ensures
        maps_line(Seq::<u8>::empty()) is None,
{
    lemma_first_index_none(Seq::<u8>::empty(), SPACE);
}

/// Each flag is set exactly where its letter stands at its place, and no other bit ever is.
pub proof fn law_flags(perms: Seq<u8>)
    requires
        perms.len() >= 4,
    ensures
        ({
            let flags = perm_flags(perms).unwrap();
            &&& perm_flags(perms) is Some
            &&& flags & FLAGS_READ != 0 <==> perms[0] == 'r' as u8
            &&& flags & FLAGS_WRITE != 0 <==> perms[1] == 'w' as u8
            &&& flags & FLAGS_EXEC != 0 <==> perms[2] == 'x' as u8
            &&& flags & FLAGS_SHARED != 0 <==> perms[3] == 's' as u8
            &&& flags < 16
        }),
{
    let r: u32 = if perms[0] == 'r' as u8 {
        1
    } else {
        0
    };
    let w: u32 = if perms[1] == 'w' as u8 {
        2
    } else {
        0
    };
    let x: u32 = if perms[2] == 'x' as u8 {
        4
    } else {
        0
    };
    let s: u32 = if perms[3] == 's' as u8 {
        8
    } else {
        0
    };
    let flags: u32 = r | w | x | s;
    assert({
        &&& flags & 1 != 0 <==> r == 1
        &&& flags & 2 != 0 <==> w == 2
        &&& flags & 4 != 0 <==> x == 4
        &&& flags & 8 != 0 <==> s == 8
        &&& flags < 16
    }) by (bit_vector)
        requires
            flags == r | w | x | s,
            r == 0 || r == 1,
            w == 0 || w == 2,
            x == 0 || x == 4,
            s == 0 || s == 8,
    ;
}

/// `a`, `sep` and `b`, one behind the other.
pub open spec fn joined(a: Seq<u8>, sep: u8, b: Seq<u8>) -> Seq<u8> {
    a + seq![sep] + b
}

/// A line of `/proc/<pid>/maps` with these fields; `tail` is the inode, or the inode, a space
/// and all that follows.
pub open spec fn line_text(
    start: Seq<u8>,
    end: Seq<u8>,
    perms: Seq<u8>,
    offset: Seq<u8>,
    major: Seq<u8>,
    minor: Seq<u8>,
    tail: Seq<u8>,
) -> Seq<u8> {
    joined(
        joined(start, DASH, end),
        SPACE,
        joined(
            perms,
            SPACE,
            joined(offset, SPACE, joined(joined(major, COLON, minor), SPACE, tail)),
        ),
    )
}

proof fn lemma_cut_joined(a: Seq<u8>, sep: u8, b: Seq<u8>)
    requires
        !a.contains(sep),
    ensures
        cut_at(joined(a, sep, b), sep) == Some((a, b)),
{
    let s = joined(a, sep, b);
    let n = a.len() as int;
    assert forall|j: int| 0 <= j < n implies s[j] != sep by {
        assert(s[j] == a[j]);
        assert(a.contains(a[j]));
    }
    assert(is_first_index(s, sep, n));
    lemma_first_index(s, sep, n);
    assert(s.take(n) =~= a);
    assert(s.skip(n + 1) =~= b);
}

proof fn lemma_no_separator(s: Seq<u8>, radix: nat, max: nat, b: u8)
    requires
        uint(s, radix, max) is Some,
        radix <= 36,
        b == SPACE || b == DASH || b == COLON,
    ensures
        !s.contains(b),
{
    let d = unsigned_part(s);
    assert forall|i: int| 0 <= i < s.len() implies s[i] != b by {
        if s.len() > 1 && s[0] == 0x2b {
            if i > 0 {
                assert(d[i - 1] == s[i]);
                assert(digit(d[i - 1]) < radix);
            }
        } else {
            assert(digit(d[i]) < radix);
        }
    }
}

proof fn lemma_joined_lacks(a: Seq<u8>, sep: u8, b: Seq<u8>, x: u8)
    requires
        !a.contains(x),
        !b.contains(x),
        x != sep,
    ensures
        !joined(a, sep, b).contains(x),
{
    let s = joined(a, sep, b);
    assert forall|i: int| 0 <= i < s.len() implies s[i] != x by {
        if i < a.len() {
            assert(s[i] == a[i]);
            assert(a.contains(a[i]));
        } else if i > a.len() {
            assert(s[i] == b[i - a.len() - 1]);
            assert(b.contains(b[i - a.len() - 1]));
        }
    }
}

/// A line whose fields are numbers in range and at least four permission characters, none with
/// a space in it, means just that: the numbers, the flags, and the path without the white space
/// around it. Without anything behind the inode the path is empty.
pub proof fn law_well_formed_line(
    start: Seq<u8>,
    end: Seq<u8>,
    perms: Seq<u8>,
    offset: Seq<u8>,
    major: Seq<u8>,
    minor: Seq<u8>,
    inode: Seq<u8>,
    path: Seq<u8>,
)
    requires
        uint(start, 16, u64::MAX as nat) is Some,
        uint(end, 16, u64::MAX as nat) is Some,
        perms.len() >= 4,
        !perms.contains(SPACE),
        uint(offset, 16, u64::MAX as nat) is Some,
        uint(major, 16, u32::MAX as nat) is Some,
        uint(minor, 16, u32::MAX as nat) is Some,
        trimmed_decimal(inode) is Some,
        !inode.contains(SPACE),
    ensures
        ({
            let m = MapsLine {
                start: uint(start, 16, u64::MAX as nat).unwrap(),
                end: uint(end, 16, u64::MAX as nat).unwrap(),
                flags: perm_flags(perms).unwrap(),
                offset: uint(offset, 16, u64::MAX as nat).unwrap(),
                dev_major: uint(major, 16, u32::MAX as nat).unwrap(),
                dev_minor: uint(minor, 16, u32::MAX as nat).unwrap(),
                inode: trimmed_decimal(inode).unwrap(),
                path: trimmed_ascii(path),
            };
            &&& maps_line(
                line_text(start, end, perms, offset, major, minor, joined(inode, SPACE, path)),
            ) == Some(m)
            &&& maps_line(line_text(start, end, perms, offset, major, minor, inode)) == Some(
                MapsLine { path: seq![], ..m },
            )
        }),
{
    let whole = joined(inode, SPACE, path);
    lemma_lacks_spaces(start, end, offset, major, minor);
    lemma_line_fields(start, end, perms, offset, major, minor, whole);
    lemma_line_fields(start, end, perms, offset, major, minor, inode);
    lemma_tail_fields(inode, path);
    lemma_hex_pair(start, DASH, end, u64::MAX as nat);
    lemma_hex_pair(major, COLON, minor, u32::MAX as nat);
    let long = line_text(start, end, perms, offset, major, minor, whole);
    let short = line_text(start, end, perms, offset, major, minor, inode);
    let addresses = joined(start, DASH, end);
    let device = joined(major, COLON, minor);
    assert(splitn(long, SPACE, 6) =~= seq![addresses, perms, offset, device, inode, path]);
    assert(splitn(short, SPACE, 6) =~= seq![addresses, perms, offset, device, inode]);
    lemma_fields_mean(long, seq![addresses, perms, offset, device, inode, path]);
    lemma_fields_mean(short, seq![addresses, perms, offset, device, inode]);
}

proof fn lemma_lacks_spaces(
    start: Seq<u8>,
    end: Seq<u8>,
    offset: Seq<u8>,
    major: Seq<u8>,
    minor: Seq<u8>,
)
    requires
        uint(start, 16, u64::MAX as nat) is Some,
        uint(end, 16, u64::MAX as nat) is Some,
        uint(offset, 16, u64::MAX as nat) is Some,
        uint(major, 16, u32::MAX as nat) is Some,
        uint(minor, 16, u32::MAX as nat) is Some,
    ensures
        !start.contains(SPACE),
        !end.contains(SPACE),
        !offset.contains(SPACE),
        !major.contains(SPACE),
        !minor.contains(SPACE),
{
    lemma_no_separator(start, 16, u64::MAX as nat, SPACE);
    lemma_no_separator(end, 16, u64::MAX as nat, SPACE);
    lemma_no_separator(offset, 16, u64::MAX as nat, SPACE);
    lemma_no_separator(major, 16, u32::MAX as nat, SPACE);
    lemma_no_separator(minor, 16, u32::MAX as nat, SPACE);
}

proof fn lemma_hex_pair(a: Seq<u8>, sep: u8, b: Seq<u8>, max: nat)
    requires
        uint(a, 16, max) is Some,
        uint(b, 16, max) is Some,
        sep == DASH || sep == COLON,
    ensures
        hex_pair(joined(a, sep, b), sep, max) == Some(
            (uint(a, 16, max).unwrap(), uint(b, 16, max).unwrap()),
        ),
{
    lemma_no_separator(a, 16, max, sep);
    lemma_cut_joined(a, sep, b);
}

proof fn lemma_tail_fields(inode: Seq<u8>, path: Seq<u8>)
    requires
        !inode.contains(SPACE),
    ensures
        splitn(joined(inode, SPACE, path), SPACE, 2) == seq![inode, path],
        splitn(inode, SPACE, 2) == seq![inode],
{
    reveal_with_fuel(splitn, 2);
    lemma_cut_joined(inode, SPACE, path);
    lemma_first_index_none(inode, SPACE);
    assert(splitn(joined(inode, SPACE, path), SPACE, 2) =~= seq![inode, path]);
}

proof fn lemma_fields_mean(line: Seq<u8>, f: Seq<Seq<u8>>)
    requires
        splitn(line, SPACE, 6) == f,
        f.len() == 5 || f.len() == 6,
        hex_pair(f[0], DASH, u64::MAX as nat) is Some,
        perm_flags(f[1]) is Some,
        uint(f[2], 16, u64::MAX as nat) is Some,
        hex_pair(f[3], COLON, u32::MAX as nat) is Some,
        trimmed_decimal(f[4]) is Some,
    ensures
        maps_line(line) == Some(
            MapsLine {
                start: hex_pair(f[0], DASH, u64::MAX as nat).unwrap().0,
                end: hex_pair(f[0], DASH, u64::MAX as nat).unwrap().1,
                flags: perm_flags(f[1]).unwrap(),
                offset: uint(f[2], 16, u64::MAX as nat).unwrap(),
                dev_major: hex_pair(f[3], COLON, u32::MAX as nat).unwrap().0,
                dev_minor: hex_pair(f[3], COLON, u32::MAX as nat).unwrap().1,
                inode: trimmed_decimal(f[4]).unwrap(),
                path: if f.len() == 6 {
                    trimmed_ascii(f[5])
                } else {
                    seq![]
                },
            },
        ),
{
}

proof fn lemma_split_joined(a: Seq<u8>, sep: u8, b: Seq<u8>, n: nat)
    requires
        n >= 2,
        !a.contains(sep),
    ensures
        splitn(joined(a, sep, b), sep, n) == seq![a] + splitn(b, sep, (n - 1) as nat),
{
    lemma_cut_joined(a, sep, b);
}

proof fn lemma_line_fields(
    start: Seq<u8>,
    end: Seq<u8>,
    perms: Seq<u8>,
    offset: Seq<u8>,
    major: Seq<u8>,
    minor: Seq<u8>,
    tail: Seq<u8>,
)
    requires
        !start.contains(SPACE),
        !end.contains(SPACE),
        !perms.contains(SPACE),
        !offset.contains(SPACE),
        !major.contains(SPACE),
        !minor.contains(SPACE),
    ensures
        splitn(line_text(start, end, perms, offset, major, minor, tail), SPACE, 6) == seq![
            joined(start, DASH, end),
            perms,
            offset,
            joined(major, COLON, minor),
        ] + splitn(tail, SPACE, 2),
{
    lemma_joined_lacks(start, DASH, end, SPACE);
    lemma_joined_lacks(major, COLON, minor, SPACE);
    let rest3 = joined(joined(major, COLON, minor), SPACE, tail);
    let rest2 = joined(offset, SPACE, rest3);
    let rest1 = joined(perms, SPACE, rest2);
    lemma_split_joined(joined(start, DASH, end), SPACE, rest1, 6);
    lemma_split_joined(perms, SPACE, rest2, 5);
    lemma_split_joined(offset, SPACE, rest3, 4);
    lemma_split_joined(joined(major, COLON, minor), SPACE, tail, 3);
    assert(splitn(line_text(start, end, perms, offset, major, minor, tail), SPACE, 6) =~= seq![
        joined(start, DASH, end),
        perms,
        offset,
        joined(major, COLON, minor),
    ] + splitn(tail, SPACE, 2));
}

} // verus!
