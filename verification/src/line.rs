//! Formatting of one output line from one byte window, in either mode.

use vstd::prelude::*;
use crate::hex::{hex_pair, offset_field, push_hex_pair, push_offset};

verus! {

/// One compact-mode group: a byte pair rendered second byte first (a
/// byte-swapped 16-bit word), or a lone trailing byte as its own two digits.
pub open spec fn compact_group(w: Seq<u8>) -> Seq<char>
    recommends
        w.len() > 0,
{
    if w.len() >= 2 {
        hex_pair(w[1]) + hex_pair(w[0])
    } else {
        hex_pair(w[0])
    }
}

/// The compact-mode body: groups separated by single spaces, with no
/// trailing separator; empty for an empty window.
pub open spec fn compact_body(w: Seq<u8>) -> Seq<char>
    decreases w.len(),
{
    if w.len() == 0 {
        Seq::empty()
    } else if w.len() <= 2 {
        compact_group(w)
    } else {
        compact_group(w) + seq![' '] + compact_body(w.skip(2))
    }
}

/// One canonical-mode hex slot: two digits and a space for a present byte,
/// three blanks for a slot beyond the window's length.
pub open spec fn canon_slot(w: Seq<u8>, i: int) -> Seq<char>
    recommends
        0 <= i < 16,
{
    if i < w.len() {
        hex_pair(w[i]) + seq![' ']
    } else {
        seq![' ', ' ', ' ']
    }
}

/// The canonical-mode hex field from slot `i` up: always sixteen slots, with
/// one extra space after the eighth slot as a visual midpoint gap.
pub open spec fn canon_slots(w: Seq<u8>, i: int) -> Seq<char>
    decreases 16 - i,
{
    if i >= 16 {
        Seq::empty()
    } else {
        canon_slot(w, i) + (if i == 7 {
            seq![' ']
        } else {
            Seq::<char>::empty()
        }) + canon_slots(w, i + 1)
    }
}

/// The character shown in the ASCII sidebar for one byte: the byte itself,
/// with newline and carriage return replaced by `.`.
pub open spec fn sidebar_char(b: u8) -> char {
    if b == 10 || b == 13 {
        '.'
    } else {
        b as char
    }
}

/// The ASCII sidebar: `" |chars|"` for a nonempty window, a single space for
/// the terminal (empty) window.
pub open spec fn sidebar(w: Seq<u8>) -> Seq<char> {
    if w.len() == 0 {
        seq![' ']
    } else {
        seq![' ', '|'] + Seq::new(w.len(), |i: int| sidebar_char(w[i])) + seq!['|']
    }
}

/// A whole compact-mode line: 7-digit offset, one space, body, newline.
pub open spec fn compact_line(w: Seq<u8>, off: nat) -> Seq<char> {
    offset_field(off, 7) + seq![' '] + compact_body(w) + seq!['\n']
}

/// A whole canonical-mode line: 8-digit offset, two spaces, the sixteen hex
/// slots, the sidebar, newline.
pub open spec fn canonical_line(w: Seq<u8>, off: nat) -> Seq<char> {
    offset_field(off, 8) + seq![' ', ' '] + canon_slots(w, 0) + sidebar(w) + seq!['\n']
}

/// The line produced for one window at offset `off` in the selected mode.
pub open spec fn dump_line(w: Seq<u8>, off: nat, canonical: bool) -> Seq<char> {
    if canonical {
        canonical_line(w, off)
    } else {
        compact_line(w, off)
    }
}

fn push_compact_body(out: &mut Vec<char>, w: &Vec<u8>)
    ensures
        final(out)@ == old(out)@ + compact_body(w@),
{
    let ghost base = old(out)@;
    proof {
        assert(w@.skip(0) =~= w@);
    }
    let mut i: usize = 0;
    while i < w.len()
        invariant
            i <= w@.len(),
            out@ + compact_body(w@.skip(i as int)) == base + compact_body(w@),
        decreases w@.len() - i,
    {
        let ghost pre = out@;
        let ghost s = w@.skip(i as int);
        if i + 1 < w.len() {
            proof {
                assert(s.skip(2) =~= w@.skip(i as int + 2));
            }
            push_hex_pair(out, w[i + 1]);
            push_hex_pair(out, w[i]);
            if i + 2 < w.len() {
                out.push(' ');
                proof {
                    assert(out@ =~= pre + compact_group(s) + seq![' ']);
                    assert(out@ + compact_body(w@.skip(i as int + 2)) =~= pre + compact_body(s));
                }
            } else {
                proof {
                    assert(out@ =~= pre + compact_group(s));
                    assert(w@.skip(i as int + 2) =~= Seq::<u8>::empty());
                    assert(out@ + compact_body(w@.skip(i as int + 2)) =~= pre + compact_body(s));
                }
            }
            i = i + 2;
        } else {
            push_hex_pair(out, w[i]);
            proof {
                assert(s.skip(1) =~= w@.skip(i as int + 1));
                assert(out@ =~= pre + compact_group(s));
                assert(w@.skip(i as int + 1) =~= Seq::<u8>::empty());
                assert(out@ + compact_body(w@.skip(i as int + 1)) =~= pre + compact_body(s));
            }
            i = i + 1;
        }
    }
    proof {
        assert(w@.skip(w@.len() as int) =~= Seq::<u8>::empty());
        assert(out@ + compact_body(Seq::<u8>::empty()) =~= out@);
    }
}

fn push_canon_slots(out: &mut Vec<char>, w: &Vec<u8>)
    requires
        w@.len() <= 16,
    ensures
        final(out)@ == old(out)@ + canon_slots(w@, 0),
{
    let ghost base = old(out)@;
    let mut i: usize = 0;
    while i < 16
        invariant
            i <= 16,
            w@.len() <= 16,
            out@ + canon_slots(w@, i as int) == base + canon_slots(w@, 0),
        decreases 16 - i,
    {
        let ghost pre = out@;
        if i < w.len() {
            push_hex_pair(out, w[i]);
            out.push(' ');
            proof {
                assert(out@ =~= pre + canon_slot(w@, i as int));
            }
        } else {
            out.push(' ');
            out.push(' ');
            out.push(' ');
            proof {
                assert(out@ =~= pre + canon_slot(w@, i as int));
            }
        }
        if i == 7 {
            out.push(' ');
            proof {
                assert(out@ =~= pre + canon_slot(w@, i as int) + seq![' ']);
            }
        }
        proof {
            assert(out@ + canon_slots(w@, i as int + 1) =~= pre + canon_slots(w@, i as int));
        }
        i = i + 1;
    }
    proof {
        assert(out@ + canon_slots(w@, 16) =~= out@);
    }
}

fn sidebar_char_ex(b: u8) -> (c: char)
    ensures
        c == sidebar_char(b),
{
    if b == 10 || b == 13 {
        '.'
    } else {
        b as char
    }
}

fn push_sidebar(out: &mut Vec<char>, w: &Vec<u8>)
    ensures
        final(out)@ == old(out)@ + sidebar(w@),
{
    let ghost base = old(out)@;
    if w.len() == 0 {
        out.push(' ');
        proof {
            assert(out@ =~= base + sidebar(w@));
        }
        return ;
    }
    out.push(' ');
    out.push('|');
    let ghost chars = Seq::new(w@.len(), |i: int| sidebar_char(w@[i]));
    let mut j: usize = 0;
    proof {
        assert(out@ =~= base + seq![' ', '|'] + chars.take(0));
    }
    while j < w.len()
        invariant
            j <= w@.len(),
            out@ == base + seq![' ', '|'] + chars.take(j as int),
            chars == Seq::new(w@.len(), |i: int| sidebar_char(w@[i])),
        decreases w@.len() - j,
    {
        let c = sidebar_char_ex(w[j]);
        out.push(c);
        j = j + 1;
        proof {
            assert(out@ =~= base + seq![' ', '|'] + chars.take(j as int));
        }
    }
    out.push('|');
    proof {
        assert(chars.take(w@.len() as int) =~= chars);
        assert(out@ =~= base + sidebar(w@));
    }
}

/// Appends the whole line for window `w` at offset `off` to `out`, in the
/// selected mode.
pub(crate) fn push_line(out: &mut Vec<char>, w: &Vec<u8>, off: usize, canonical: bool)
    requires
        w@.len() <= 16,
    ensures
        final(out)@ == old(out)@ + dump_line(w@, off as nat, canonical),
{
    let ghost base = old(out)@;
    if canonical {
        push_offset(out, off, 8);
        out.push(' ');
        out.push(' ');
        proof {
            assert(out@ =~= base + offset_field(off as nat, 8) + seq![' ', ' ']);
        }
        push_canon_slots(out, w);
        push_sidebar(out, w);
        out.push('\n');
        proof {
            assert(out@ =~= base + canonical_line(w@, off as nat));
        }
    } else {
        push_offset(out, off, 7);
        out.push(' ');
        proof {
            assert(out@ =~= base + offset_field(off as nat, 7) + seq![' ']);
        }
        push_compact_body(out, w);
        out.push('\n');
        proof {
            assert(out@ =~= base + compact_line(w@, off as nat));
        }
    }
}

} // verus!
