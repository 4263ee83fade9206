use vstd::prelude::*;
use vstd::string::*;

verus! {

/// The character of the digit `d` (`0`-`9`, then `A`-`F`).
pub open spec fn hex_digit(d: nat) -> char {
    if d < 10 {
        (48 + d) as char
    } else {
        (55 + d) as char
    }
}

/// `n` written in decimal, without leading zeros.
pub open spec fn decimal(n: nat) -> Seq<char>
    decreases n,
{
    if n < 10 {
        seq![hex_digit(n)]
    } else {
        decimal(n / 10) + seq![hex_digit(n % 10)]
    }
}

/// The bytes of `b` in decimal, separated by `", "`.
pub open spec fn byte_items(b: Seq<u8>) -> Seq<char>
    decreases b.len(),
{
    if b.len() == 0 {
        Seq::empty()
    } else if b.len() == 1 {
        decimal(b[0] as nat)
    } else {
        byte_items(b.drop_last()) + ", "@ + decimal(b.last() as nat)
    }
}

/// `b` as a bracketed list of decimal bytes, as `[1, 2, 3]`.
pub open spec fn byte_list(b: Seq<u8>) -> Seq<char> {
    "["@ + byte_items(b) + "]"@
}

/// `v` in upper-case hexadecimal, right-aligned with spaces in a field of
/// two characters.
pub open spec fn hex_width2(v: u8) -> Seq<char> {
    if v < 16 {
        seq![' ', hex_digit(v as nat)]
    } else {
        seq![hex_digit((v / 16) as nat), hex_digit((v % 16) as nat)]
    }
}

fn digit_text(d: u8) -> (r: &'static str)
    requires
        d < 16,
    ensures
        r@ == seq![hex_digit(d as nat)],
{
    match d {
        0 => {
            proof {
                reveal_strlit("0");
            }
            "0"
        },
        1 => {
            proof {
                reveal_strlit("1");
            }
            "1"
        },
        2 => {
            proof {
                reveal_strlit("2");
            }
            "2"
        },
        3 => {
            proof {
                reveal_strlit("3");
            }
            "3"
        },
        4 => {
            proof {
                reveal_strlit("4");
            }
            "4"
        },
        5 => {
            proof {
                reveal_strlit("5");
            }
            "5"
        },
        6 => {
            proof {
                reveal_strlit("6");
            }
            "6"
        },
        7 => {
            proof {
                reveal_strlit("7");
            }
            "7"
        },
        8 => {
            proof {
                reveal_strlit("8");
            }
            "8"
        },
        9 => {
            proof {
                reveal_strlit("9");
            }
            "9"
        },
        10 => {
            proof {
                reveal_strlit("A");
            }
            "A"
        },
        11 => {
            proof {
                reveal_strlit("B");
            }
            "B"
        },
        12 => {
            proof {
                reveal_strlit("C");
            }
            "C"
        },
        13 => {
            proof {
                reveal_strlit("D");
            }
            "D"
        },
        14 => {
            proof {
                reveal_strlit("E");
            }
            "E"
        },
        _ => {
            proof {
                reveal_strlit("F");
            }
            "F"
        },
    }
}

/// Appends `n` in decimal to `s`.
pub fn push_decimal(s: &mut String, n: u8)
    ensures
        final(s)@ == old(s)@ + decimal(n as nat),
{
    proof {
        reveal_with_fuel(decimal, 3);
    }
    if n < 10 {
        s.append(digit_text(n));
    } else if n < 100 {
        s.append(digit_text(n / 10));
        s.append(digit_text(n % 10));
    } else {
        s.append(digit_text(n / 100));
        s.append(digit_text((n / 10) % 10));
        s.append(digit_text(n % 10));
        assert((n / 10) / 10 == n / 100);
    }
}

/// Appends `b` to `s` as a bracketed list of decimal bytes.
pub fn push_byte_list(s: &mut String, b: &[u8])
    ensures
        final(s)@ == old(s)@ + byte_list(b@),
{
    let ghost start = s@;
    s.append("[");
    let mut i: usize = 0;
    while i < b.len()
        invariant
            i <= b@.len(),
            s@ == start + "["@ + byte_items(b@.take(i as int)),
        decreases b@.len() - i,
    {
        if i > 0 {
            s.append(", ");
        }
        push_decimal(s, b[i]);
        proof {
            assert(b@.take(i + 1).drop_last() =~= b@.take(i as int));
            if i == 0 {
                assert(byte_items(b@.take(0)) =~= Seq::<char>::empty());
            }
        }
        i = i + 1;
    }
    assert(b@.take(b@.len() as int) =~= b@);
    s.append("]");
}

/// Appends `v` to `s` in upper-case hexadecimal, right-aligned in two
/// characters.
pub fn push_hex_width2(s: &mut String, v: u8)
    ensures
        final(s)@ == old(s)@ + hex_width2(v),
{
    if v < 16 {
        proof {
            reveal_strlit(" ");
        }
        s.append(" ");
        s.append(digit_text(v));
    } else {
        s.append(digit_text(v / 16));
        s.append(digit_text(v % 16));
    }
}

} // verus!
