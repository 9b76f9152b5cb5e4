//! Human-readable rendering of a cleaned frame for the console: each byte
//! as `0xHH` with uppercase digits, joined by a comma and a space.

use vstd::prelude::*;
use vstd::string::StringExecFns;

verus! {

broadcast use vstd::seq_lib::lemma_seq_skip_index, vstd::seq_lib::lemma_seq_skip_len;

/// The uppercase hexadecimal digit for one value below sixteen.
pub open spec fn hex_char(n: u8) -> char {
    if n == 0 {
        '0'
    } else if n == 1 {
        '1'
    } else if n == 2 {
        '2'
    } else if n == 3 {
        '3'
    } else if n == 4 {
        '4'
    } else if n == 5 {
        '5'
    } else if n == 6 {
        '6'
    } else if n == 7 {
        '7'
    } else if n == 8 {
        '8'
    } else if n == 9 {
        '9'
    } else if n == 10 {
        'A'
    } else if n == 11 {
        'B'
    } else if n == 12 {
        'C'
    } else if n == 13 {
        'D'
    } else if n == 14 {
        'E'
    } else {
        'F'
    }
}

/// One byte rendered as `0xHH`, uppercase, always two digits.
pub open spec fn hex_of_byte(b: u8) -> Seq<char> {
    seq!['0', 'x', hex_char(b / 16), hex_char(b % 16)]
}

/// What follows the first byte: a ", " separator before each further byte.
pub open spec fn hex_rest(s: Seq<u8>) -> Seq<char>
    decreases s.len(),
{
    if s.len() == 0 {
        Seq::empty()
    } else {
        seq![',', ' '] + hex_of_byte(s[0]) + hex_rest(s.skip(1))
    }
}

/// The whole frame: bytes as `0xHH`, joined by ", ".
pub open spec fn hex_list(s: Seq<u8>) -> Seq<char> {
    if s.len() == 0 {
        Seq::empty()
    } else {
        hex_of_byte(s[0]) + hex_rest(s.skip(1))
    }
}

fn hex_digit_str(n: u8) -> (r: &'static str)
    requires
        n < 16,
    ensures
        r@ == seq![hex_char(n)],
{
    proof {
        reveal_strlit("0");
        reveal_strlit("1");
        reveal_strlit("2");
        reveal_strlit("3");
        reveal_strlit("4");
        reveal_strlit("5");
        reveal_strlit("6");
        reveal_strlit("7");
        reveal_strlit("8");
        reveal_strlit("9");
        reveal_strlit("A");
        reveal_strlit("B");
        reveal_strlit("C");
        reveal_strlit("D");
        reveal_strlit("E");
        reveal_strlit("F");
    }
    match n {
        0 => "0",
        1 => "1",
        2 => "2",
        3 => "3",
        4 => "4",
        5 => "5",
        6 => "6",
        7 => "7",
        8 => "8",
        9 => "9",
        10 => "A",
        11 => "B",
        12 => "C",
        13 => "D",
        14 => "E",
        _ => "F",
    }
}

fn push_hex_byte(out: &mut String, b: u8)
    ensures
        final(out)@ == old(out)@ + hex_of_byte(b),
{
    proof {
        reveal_strlit("0x");
    }
    out.append("0x");
    let hi = hex_digit_str(b / 16);
    let lo = hex_digit_str(b % 16);
    out.append(hi);
    out.append(lo);
    proof {
        assert(out@ =~= old(out)@ + hex_of_byte(b));
    }
}

/// Render a cleaned frame as the console shows it: `0xHH` per byte,
/// uppercase, joined by ", "; empty input gives the empty string.
pub fn format_frame_hex(frame: &Vec<u8>) -> (r: String)
    ensures
        r@ == hex_list(frame@),
{
    let mut out = String::new();
    if frame.len() == 0 {
        proof {
            assert(out@ =~= hex_list(frame@));
        }
        return out;
    }
    push_hex_byte(&mut out, frame[0]);
    let mut n: usize = 1;
    proof {
        assert(out@ + hex_rest(frame@.skip(1)) =~= hex_list(frame@));
    }
    while n < frame.len()
        invariant
            1 <= n <= frame@.len(),
            out@ + hex_rest(frame@.skip(n as int)) == hex_list(frame@),
        decreases frame@.len() - n,
    {
        let ghost outpre = out@;
        proof {
            reveal_strlit(", ");
            assert(frame@.skip(n as int)[0] == frame@[n as int]);
            assert(frame@.skip(n as int).skip(1) =~= frame@.skip(n as int + 1));
        }
        out.append(", ");
        push_hex_byte(&mut out, frame[n]);
        proof {
            assert(out@ + hex_rest(frame@.skip(n as int + 1)) =~= outpre + hex_rest(
                frame@.skip(n as int),
            ));
        }
        n += 1;
    }
    proof {
        assert(frame@.skip(frame@.len() as int).len() == 0);
        assert(out@ =~= out@ + hex_rest(frame@.skip(frame@.len() as int)));
    }
    out
}

} // verus!
