//! Fixed-width text of numbers, for step summaries.

use vstd::prelude::*;

verus! {

/// The upper-case hex digit of `d` (below 16).
pub open spec fn hex_char(d: u64) -> char {
    if d < 10 {
        ((d + 48) as u8) as char
    } else {
        ((d + 55) as u8) as char
    }
}

/// `v` as 16 upper-case hex digits, most significant first.
pub open spec fn hex16(v: u64) -> Seq<char> {
    Seq::new(16, |i: int| hex_char((v >> ((60 - 4 * i) as u64)) & 0xF))
}

/// The decimal digit of `d` (below 10).
pub open spec fn dec_char(d: nat) -> char {
    ((d + 48) as u8) as char
}

/// `n` in decimal, without leading zeros.
pub open spec fn decimal(n: nat) -> Seq<char>
    decreases n,
{
    if n < 10 {
        seq![dec_char(n)]
    } else {
        decimal(n / 10).push(dec_char(n % 10))
    }
}

fn digit_str(d: u64) -> (r: &'static str)
    requires
        d < 16,
    ensures
        r@ =~= seq![hex_char(d)],
{
    proof {
        reveal_strlit("0");
        reveal_strlit("1");
        reveal_strlit("2");
        reveal_strlit("3");
        reveal_strlit("4");
        reveal_strlit("5");
        reveal_strlit("6");
        reveal_strlit("7");
        reveal_strlit("8");
        reveal_strlit("9");
        reveal_strlit("A");
        reveal_strlit("B");
        reveal_strlit("C");
        reveal_strlit("D");
        reveal_strlit("E");
        reveal_strlit("F");
    }
    match d {
        0 => "0",
        1 => "1",
        2 => "2",
        3 => "3",
        4 => "4",
        5 => "5",
        6 => "6",
        7 => "7",
        8 => "8",
        9 => "9",
        10 => "A",
        11 => "B",
        12 => "C",
        13 => "D",
        14 => "E",
        _ => "F",
    }
}

/// Appends `v` as 16 upper-case hex digits.
pub fn push_hex16(s: &mut String, v: u64)
    ensures
        final(s)@ == old(s)@ + hex16(v),
{
    let mut i: u64 = 0;
    while i < 16
        invariant
            i <= 16,
            s@ == old(s)@ + hex16(v).subrange(0, i as int),
        decreases 16 - i,
    {
        let shift = 60 - 4 * i;
        let d = (v >> shift) & 0xF;
        proof {
            assert(d < 16) by (bit_vector)
                requires
                    d == (v >> shift) & 0xF,
            ;
        }
        s.append(digit_str(d));
        proof {
            assert(hex16(v)[i as int] == hex_char(d));
            assert(s@ =~= old(s)@ + hex16(v).subrange(0, i + 1));
        }
        i = i + 1;
    }
    proof {
        assert(hex16(v).subrange(0, 16) =~= hex16(v));
    }
}

/// Appends `n` in decimal.
pub fn push_decimal(s: &mut String, n: usize)
    ensures
        final(s)@ == old(s)@ + decimal(n as nat),
    decreases n,
{
    if n >= 10 {
        push_decimal(s, n / 10);
    }
    let d = (n % 10) as u64;
    s.append(digit_str(d));
    proof {
        assert(hex_char(d) == dec_char((n % 10) as nat));
        if n >= 10 {
            assert(decimal(n as nat) == decimal((n / 10) as nat).push(dec_char((n % 10) as nat)));
        } else {
            assert(decimal(n as nat) == seq![dec_char(n as nat)]);
        }
        assert(s@ =~= old(s)@ + decimal(n as nat));
    }
}

} // verus!
