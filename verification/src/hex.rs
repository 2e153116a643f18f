//! Hexadecimal digits and zero-padded offset fields.

use vstd::prelude::*;

verus! {

/// The hexadecimal digit character for a value below sixteen, lower case.
pub open spec fn hex_digit(n: u8) -> char
    recommends
        n < 16,
{
    if n == 0 {
        '0'
    } else if n == 1 {
        '1'
    } else if n == 2 {
        '2'
    } else if n == 3 {
        '3'
    } else if n == 4 {
        '4'
    } else if n == 5 {
        '5'
    } else if n == 6 {
        '6'
    } else if n == 7 {
        '7'
    } else if n == 8 {
        '8'
    } else if n == 9 {
        '9'
    } else if n == 10 {
        'a'
    } else if n == 11 {
        'b'
    } else if n == 12 {
        'c'
    } else if n == 13 {
        'd'
    } else if n == 14 {
        'e'
    } else {
        'f'
    }
}

/// The two hex digits of one byte, high nibble first.
pub open spec fn hex_pair(b: u8) -> Seq<char> {
    seq![hex_digit(b / 16), hex_digit(b % 16)]
}

/// The hex representation of `n`, most significant digit first, without
/// leading zeros (a single `0` when `n` is zero).
pub open spec fn hex_rep(n: nat) -> Seq<char>
    decreases n,
{
    if n < 16 {
        seq![hex_digit(n as u8)]
    } else {
        hex_rep(n / 16).push(hex_digit((n % 16) as u8))
    }
}

/// `s` left-padded with `0` up to width `w`; unchanged when already that wide.
pub open spec fn zero_pad(s: Seq<char>, w: nat) -> Seq<char> {
    if s.len() >= w {
        s
    } else {
        Seq::new((w - s.len()) as nat, |i: int| '0') + s
    }
}

/// A line's offset field: the offset in hex, zero-padded to `w` digits.
pub open spec fn offset_field(n: nat, w: nat) -> Seq<char> {
    zero_pad(hex_rep(n), w)
}

fn hex_digit_ex(n: u8) -> (c: char)
    requires
        n < 16,
    ensures
        c == hex_digit(n),
{
    match n {
        0 => '0',
        1 => '1',
        2 => '2',
        3 => '3',
        4 => '4',
        5 => '5',
        6 => '6',
        7 => '7',
        8 => '8',
        9 => '9',
        10 => 'a',
        11 => 'b',
        12 => 'c',
        13 => 'd',
        14 => 'e',
        _ => 'f',
    }
}

/// Appends the two hex digits of `b` to `out`.
pub(crate) fn push_hex_pair(out: &mut Vec<char>, b: u8)
    ensures
        final(out)@ == old(out)@ + hex_pair(b),
{
    out.push(hex_digit_ex(b / 16));
    out.push(hex_digit_ex(b % 16));
    proof {
        assert(out@ =~= old(out)@ + hex_pair(b));
    }
}

fn hex_rep_vec(n: usize) -> (v: Vec<char>)
    ensures
        v@ == hex_rep(n as nat),
    decreases n,
{
    if n < 16 {
        let mut v: Vec<char> = Vec::new();
        v.push(hex_digit_ex(n as u8));
        proof {
            assert(v@ =~= hex_rep(n as nat));
        }
        v
    } else {
        let mut v = hex_rep_vec(n / 16);
        v.push(hex_digit_ex((n % 16) as u8));
        proof {
            assert(v@ =~= hex_rep(n as nat));
        }
        v
    }
}

/// Appends the offset field for `n`, zero-padded to `w` hex digits, to `out`.
pub(crate) fn push_offset(out: &mut Vec<char>, n: usize, w: usize)
    ensures
        final(out)@ == old(out)@ + offset_field(n as nat, w as nat),
{
    let ghost base = out@;
    let digits = hex_rep_vec(n);
    let pad: usize = if digits.len() >= w {
        0
    } else {
        w - digits.len()
    };
    let mut i: usize = 0;
    proof {
        assert(out@ =~= base + Seq::new(0nat, |k: int| '0'));
    }
    while i < pad
        invariant
            i <= pad,
            out@ == base + Seq::new(i as nat, |k: int| '0'),
        decreases pad - i,
    {
        out.push('0');
        i = i + 1;
        proof {
            assert(out@ =~= base + Seq::new(i as nat, |k: int| '0'));
        }
    }
    let mut j: usize = 0;
    while j < digits.len()
        invariant
            j <= digits@.len(),
            out@ == base + Seq::new(pad as nat, |k: int| '0') + digits@.take(j as int),
        decreases digits@.len() - j,
    {
        let c = digits[j];
        out.push(c);
        j = j + 1;
        proof {
            assert(out@ =~= base + Seq::new(pad as nat, |k: int| '0') + digits@.take(j as int));
        }
    }
    proof {
        assert(digits@.take(digits@.len() as int) =~= digits@);
        if digits@.len() >= w as nat {
            assert(Seq::new(0nat, |k: int| '0') =~= Seq::<char>::empty());
            assert(base + Seq::new(0nat, |k: int| '0') + digits@ =~= base + offset_field(
                n as nat,
                w as nat,
            ));
        } else {
            assert(base + Seq::new(pad as nat, |k: int| '0') + digits@ =~= base + offset_field(
                n as nat,
                w as nat,
            ));
        }
    }
}

} // verus!
