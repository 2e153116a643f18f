//! Proved laws of the dump: how many lines a dump has, that the windows
//! account for every source byte exactly once, and that the dump is a
//! function of the bytes and the mode alone.

use vstd::prelude::*;
use crate::hex::{hex_rep, offset_field};
use crate::line::{compact_body, canon_slots, sidebar_char, sidebar, dump_line};
use crate::dump::{dump_text_from, dump_text};

verus! {

/// The number of newline characters in a text; since every line ends in
/// exactly one newline and contains no other, this is the line count.
pub open spec fn newline_count(s: Seq<char>) -> nat
    decreases s.len(),
{
    if s.len() == 0 {
        0
    } else {
        newline_count(s.drop_last()) + (if s.last() == '\n' {
            1nat
        } else {
            0nat
        })
    }
}

/// No character of `s` is a newline.
pub open spec fn has_no_newline(s: Seq<char>) -> bool {
    forall|i: int| 0 <= i < s.len() ==> s[i] != '\n'
}

proof fn lemma_newline_count_add(a: Seq<char>, b: Seq<char>)
    ensures
        newline_count(a + b) == newline_count(a) + newline_count(b),
    decreases b.len(),
{
    if b.len() == 0 {
        assert(a + b =~= a);
    } else {
        lemma_newline_count_add(a, b.drop_last());
        assert((a + b).drop_last() =~= a + b.drop_last());
        assert((a + b).last() == b.last());
    }
}

proof fn lemma_no_newline_count(s: Seq<char>)
    requires
        has_no_newline(s),
    ensures
        newline_count(s) == 0,
    decreases s.len(),
{
    if s.len() > 0 {
        assert(forall|i: int| 0 <= i < s.drop_last().len() ==> s.drop_last()[i] == s[i]);
        lemma_no_newline_count(s.drop_last());
    }
}

proof fn lemma_hex_rep_no_newline(n: nat)
    ensures
        has_no_newline(hex_rep(n)),
    decreases n,
{
    if n >= 16 {
        lemma_hex_rep_no_newline(n / 16);
    }
}

proof fn lemma_offset_field_no_newline(n: nat, w: nat)
    ensures
        has_no_newline(offset_field(n, w)),
{
    lemma_hex_rep_no_newline(n);
}

proof fn lemma_compact_body_no_newline(w: Seq<u8>)
    ensures
        has_no_newline(compact_body(w)),
    decreases w.len(),
{
    if w.len() > 2 {
        lemma_compact_body_no_newline(w.skip(2));
    }
}

proof fn lemma_canon_slots_no_newline(w: Seq<u8>, i: int)
    ensures
        has_no_newline(canon_slots(w, i)),
    decreases 16 - i,
{
    if i < 16 {
        lemma_canon_slots_no_newline(w, i + 1);
    }
}

proof fn lemma_sidebar_char_not_newline(b: u8)
    ensures
        sidebar_char(b) != '\n',
{
    if b != 10 && b != 13 {
        assert(((b as char) as u32) == b as u32);
        assert(('\n' as u32) == 10);
    }
}

proof fn lemma_sidebar_no_newline(w: Seq<u8>)
    ensures
        has_no_newline(sidebar(w)),
{
    if w.len() > 0 {
        let chars = Seq::new(w.len(), |i: int| sidebar_char(w[i]));
        assert forall|i: int| 0 <= i < sidebar(w).len() implies sidebar(w)[i] != '\n' by {
            if 2 <= i < 2 + w.len() {
                assert(sidebar(w)[i] == chars[i - 2]);
                lemma_sidebar_char_not_newline(w[i - 2]);
            }
        }
    }
}

/// Every line, in either mode, ends in exactly one newline and contains no
/// other newline character.
proof fn lemma_line_one_newline(w: Seq<u8>, off: nat, canonical: bool)
    ensures
        newline_count(dump_line(w, off, canonical)) == 1,
{
    assert(seq!['\n'].drop_last() =~= Seq::<char>::empty());
    assert(newline_count(Seq::<char>::empty()) == 0);
    assert(newline_count(seq!['\n']) == 1);
    if canonical {
        let head = offset_field(off, 8) + seq![' ', ' '] + canon_slots(w, 0) + sidebar(w);
        lemma_offset_field_no_newline(off, 8);
        lemma_canon_slots_no_newline(w, 0);
        lemma_sidebar_no_newline(w);
        lemma_no_newline_count(head);
        lemma_newline_count_add(head, seq!['\n']);
        assert(dump_line(w, off, canonical) == head + seq!['\n']);
    } else {
        let head = offset_field(off, 7) + seq![' '] + compact_body(w);
        lemma_offset_field_no_newline(off, 7);
        lemma_compact_body_no_newline(w);
        lemma_no_newline_count(head);
        lemma_newline_count_add(head, seq!['\n']);
        assert(dump_line(w, off, canonical) == head + seq!['\n']);
    }
}

/// The dump of a source of length `L` contains exactly `ceil(L/16) + 1`
/// newline characters, hence that many lines.
pub proof fn lemma_dump_text_from_line_count(data: Seq<u8>, off: nat, canonical: bool)
    ensures
        newline_count(dump_text_from(data, off, canonical)) == (data.len() + 15) / 16 + 1,
    decreases data.len(),
{
    if data.len() == 0 {
        lemma_line_one_newline(data, off, canonical);
    } else {
        let k = if data.len() >= 16 {
            16int
        } else {
            data.len() as int
        };
        lemma_line_one_newline(data.take(k), off, canonical);
        lemma_dump_text_from_line_count(data.skip(k), (off + k) as nat, canonical);
        lemma_newline_count_add(
            dump_line(data.take(k), off, canonical),
            dump_text_from(data.skip(k), (off + k) as nat, canonical),
        );
    }
}

/// The number of lines of a dump equals `ceil(L/16) + 1` for a source of
/// length `L`, in either mode.
pub proof fn lemma_dump_line_count(data: Seq<u8>, canonical: bool)
    ensures
        newline_count(dump_text(data, canonical)) == (data.len() + 15) / 16 + 1,
{
    lemma_dump_text_from_line_count(data, 0, canonical);
}

/// The 16-byte windows the dump walks over, in order: full windows of
/// sixteen bytes, then one final shorter window when the length is not a
/// multiple of sixteen. The terminal empty window is not included.
pub open spec fn windows_of(data: Seq<u8>) -> Seq<Seq<u8>>
    decreases data.len(),
{
    if data.len() == 0 {
        Seq::empty()
    } else {
        let k = if data.len() >= 16 {
            16int
        } else {
            data.len() as int
        };
        seq![data.take(k)] + windows_of(data.skip(k))
    }
}

/// The total number of bytes held by a sequence of windows.
pub open spec fn window_len_sum(ws: Seq<Seq<u8>>) -> nat
    decreases ws.len(),
{
    if ws.len() == 0 {
        0
    } else {
        ws.first().len() + window_len_sum(ws.drop_first())
    }
}

/// Concatenating the windows in order restores the source exactly; in
/// particular the window lengths sum to the source length, so each source
/// byte is accounted for by exactly one non-terminal line.
pub proof fn lemma_windows_cover_source(data: Seq<u8>)
    ensures
        windows_of(data).flatten() == data,
        window_len_sum(windows_of(data)) == data.len(),
    decreases data.len(),
{
    if data.len() == 0 {
        assert(windows_of(data).flatten() =~= data);
    } else {
        let k = if data.len() >= 16 {
            16int
        } else {
            data.len() as int
        };
        lemma_windows_cover_source(data.skip(k));
        let ws = windows_of(data);
        assert(ws.first() == data.take(k));
        assert(ws.drop_first() =~= windows_of(data.skip(k)));
        assert(ws.flatten() == data.take(k) + windows_of(data.skip(k)).flatten());
        assert(data.take(k) + data.skip(k) =~= data);
    }
}

/// The dump as its sequence of lines: one line per window, then the
/// terminal line.
pub open spec fn dump_lines_from(data: Seq<u8>, off: nat, canonical: bool) -> Seq<Seq<char>>
    decreases data.len(),
{
    if data.len() == 0 {
        seq![dump_line(data, off, canonical)]
    } else {
        let k = if data.len() >= 16 {
            16int
        } else {
            data.len() as int
        };
        seq![dump_line(data.take(k), off, canonical)] + dump_lines_from(
            data.skip(k),
            (off + k) as nat,
            canonical,
        )
    }
}

/// The sequence of lines of a complete dump.
pub open spec fn dump_lines(data: Seq<u8>, canonical: bool) -> Seq<Seq<char>> {
    dump_lines_from(data, 0, canonical)
}

/// The dump text is exactly the concatenation of its lines.
pub proof fn lemma_dump_text_is_lines(data: Seq<u8>, off: nat, canonical: bool)
    ensures
        dump_text_from(data, off, canonical) == dump_lines_from(data, off, canonical).flatten(),
    decreases data.len(),
{
    if data.len() == 0 {
        let ls = dump_lines_from(data, off, canonical);
        assert(ls.drop_first() =~= Seq::<Seq<char>>::empty());
        assert(Seq::<Seq<char>>::empty().flatten() == Seq::<char>::empty());
        assert(ls.flatten() == dump_line(data, off, canonical) + Seq::<char>::empty());
        assert(dump_line(data, off, canonical) + Seq::<char>::empty() =~= dump_line(
            data,
            off,
            canonical,
        ));
    } else {
        let k = if data.len() >= 16 {
            16int
        } else {
            data.len() as int
        };
        lemma_dump_text_is_lines(data.skip(k), (off + k) as nat, canonical);
        let ls = dump_lines_from(data, off, canonical);
        assert(ls.first() == dump_line(data.take(k), off, canonical));
        assert(ls.drop_first() =~= dump_lines_from(data.skip(k), (off + k) as nat, canonical));
    }
}

/// A dump has one line per window plus the terminal line; the terminal line
/// comes last, carries the offset `off + L` (the total length consumed), and
/// renders the empty window, so its body is empty.
pub proof fn lemma_dump_lines_shape(data: Seq<u8>, off: nat, canonical: bool)
    ensures
        dump_lines_from(data, off, canonical).len() == windows_of(data).len() + 1,
        dump_lines_from(data, off, canonical).len() == (data.len() + 15) / 16 + 1,
        dump_lines_from(data, off, canonical).last() == dump_line(
            Seq::empty(),
            (off + data.len()) as nat,
            canonical,
        ),
    decreases data.len(),
{
    if data.len() == 0 {
        assert(data =~= Seq::<u8>::empty());
    } else {
        let k = if data.len() >= 16 {
            16int
        } else {
            data.len() as int
        };
        lemma_dump_lines_shape(data.skip(k), (off + k) as nat, canonical);
        let ls = dump_lines_from(data, off, canonical);
        let rest = dump_lines_from(data.skip(k), (off + k) as nat, canonical);
        assert(ls.last() == rest.last());
    }
}

/// Each non-terminal line of the dump renders its window at the offset of
/// that window's first byte: line `i` is the rendering of window `i` at
/// offset `off + 16*i`.
pub proof fn lemma_lines_render_windows(data: Seq<u8>, off: nat, canonical: bool)
    ensures
        forall|i: int|
            0 <= i < windows_of(data).len() ==> dump_lines_from(data, off, canonical)[i]
                == dump_line(windows_of(data)[i], (off + 16 * i) as nat, canonical),
    decreases data.len(),
{
    if data.len() == 0 {
    } else {
        let k = if data.len() >= 16 {
            16int
        } else {
            data.len() as int
        };
        lemma_lines_render_windows(data.skip(k), (off + k) as nat, canonical);
        lemma_dump_lines_shape(data.skip(k), (off + k) as nat, canonical);
        let ws = windows_of(data);
        let ls = dump_lines_from(data, off, canonical);
        let rest_ws = windows_of(data.skip(k));
        let rest_ls = dump_lines_from(data.skip(k), (off + k) as nat, canonical);
        assert forall|i: int| 0 <= i < ws.len() implies ls[i] == dump_line(
            ws[i],
            (off + 16 * i) as nat,
            canonical,
        ) by {
            if i == 0 {
                assert(ls[0] == dump_line(data.take(k), off, canonical));
                assert(ws[0] == data.take(k));
            } else {
                assert(ws[i] == rest_ws[i - 1]);
                assert(ls[i] == rest_ls[i - 1]);
                assert(rest_ws.len() > 0);
                assert(data.skip(k).len() > 0);
                assert(k == 16);
                assert((off + k) + 16 * (i - 1) == off + 16 * i);
            }
        }
    }
}

/// The dump is a function of the source bytes and the mode alone: dumping
/// the same unchanged source twice in the same mode yields identical text.
pub proof fn lemma_dump_deterministic(data1: Seq<u8>, data2: Seq<u8>, canonical: bool)
    requires
        data1 == data2,
    ensures
        dump_text(data1, canonical) == dump_text(data2, canonical),
{
}

} // verus!
