//! The dump proper: walk the source in 16-byte windows, emit one line per
//! window and one terminal line, and return the concatenation.

use vstd::prelude::*;
use crate::line::{dump_line, push_line};

verus! {

/// The dump text for the bytes of `data`, the first line carrying offset
/// `off`: one line per 16-byte window, then the terminal line, whose offset
/// is `off` plus the length of `data` and whose body is empty.
pub open spec fn dump_text_from(data: Seq<u8>, off: nat, canonical: bool) -> Seq<char>
    decreases data.len(),
{
    if data.len() == 0 {
        dump_line(data, off, canonical)
    } else {
        let k = if data.len() >= 16 {
            16int
        } else {
            data.len() as int
        };
        dump_line(data.take(k), off, canonical) + dump_text_from(
            data.skip(k),
            (off + k) as nat,
            canonical,
        )
    }
}

/// The complete dump text for a source, in the selected mode.
pub open spec fn dump_text(data: Seq<u8>, canonical: bool) -> Seq<char> {
    dump_text_from(data, 0, canonical)
}

/// Relies on String's FromIterator<char> impl: the collected string holds
/// exactly the characters of the vector, in order.
#[verifier::external_body]
fn chars_to_string(v: Vec<char>) -> (s: String)
    ensures
        s@ == v@,
{
    String::from_iter(v)
}

/// Renders the bytes of `data` as dump text in the selected mode: compact
/// when `canonical` is false, canonical when it is true.
pub fn dump_bytes(data: &Vec<u8>, canonical: bool) -> (text: String)
    ensures
        text@ == dump_text(data@, canonical),
{
    let mut out: Vec<char> = Vec::new();
    let mut pos: usize = 0;
    proof {
        assert(data@.skip(0) =~= data@);
        assert(out@ + dump_text_from(data@, 0, canonical) =~= dump_text(data@, canonical));
    }
    while pos < data.len()
        invariant
            pos <= data@.len(),
            out@ + dump_text_from(data@.skip(pos as int), pos as nat, canonical) == dump_text(
                data@,
                canonical,
            ),
        decreases data@.len() - pos,
    {
        let ghost pre = out@;
        let ghost rest = data@.skip(pos as int);
        let end: usize = if data.len() - pos >= 16 {
            pos + 16
        } else {
            data.len()
        };
        let mut window: Vec<u8> = Vec::new();
        let mut j: usize = pos;
        proof {
            assert(window@ =~= data@.subrange(pos as int, pos as int));
        }
        while j < end
            invariant
                pos <= j <= end,
                end <= data@.len(),
                window@ == data@.subrange(pos as int, j as int),
            decreases end - j,
        {
            let b = data[j];
            window.push(b);
            j = j + 1;
            proof {
                assert(window@ =~= data@.subrange(pos as int, j as int));
            }
        }
        push_line(&mut out, &window, pos, canonical);
        proof {
            let k = end - pos;
            assert(window@ =~= rest.take(k));
            assert(rest.skip(k) =~= data@.skip(end as int));
            assert(out@ + dump_text_from(data@.skip(end as int), end as nat, canonical) =~= pre
                + dump_text_from(rest, pos as nat, canonical));
        }
        pos = end;
    }
    let window: Vec<u8> = Vec::new();
    push_line(&mut out, &window, pos, canonical);
    proof {
        assert(window@ =~= data@.skip(pos as int));
        assert(out@ =~= dump_text(data@, canonical));
    }
    chars_to_string(out)
}

} // verus!
