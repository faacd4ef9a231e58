//! Rendering of unsigned numbers as upper-case hexadecimal (fixed width)
//! and decimal (no leading zeros) text, with the injectivity facts that
//! the deterministic remote-object naming scheme rests on.

use vstd::prelude::*;

verus! {

/// The character for one digit value below sixteen.
pub open spec fn digit_char(d: int) -> char {
    if d == 0 {
        '0'
    } else if d == 1 {
        '1'
    } else if d == 2 {
        '2'
    } else if d == 3 {
        '3'
    } else if d == 4 {
        '4'
    } else if d == 5 {
        '5'
    } else if d == 6 {
        '6'
    } else if d == 7 {
        '7'
    } else if d == 8 {
        '8'
    } else if d == 9 {
        '9'
    } else if d == 10 {
        'A'
    } else if d == 11 {
        'B'
    } else if d == 12 {
        'C'
    } else if d == 13 {
        'D'
    } else if d == 14 {
        'E'
    } else {
        'F'
    }
}

/// `v` written in hexadecimal, zero-padded to exactly `width` digits
/// (high digits beyond the width are dropped).
pub open spec fn spec_hex(v: int, width: nat) -> Seq<char>
    decreases width,
{
    if width == 0 {
        Seq::empty()
    } else {
        spec_hex(v / 16, (width - 1) as nat) + seq![digit_char(v % 16)]
    }
}

/// `v` written in decimal with no leading zeros.
pub open spec fn spec_dec(v: int) -> Seq<char>
    decreases v,
{
    if v < 10 {
        seq![digit_char(v)]
    } else {
        spec_dec(v / 10) + seq![digit_char(v % 10)]
    }
}

/// Sixteen to the power `w`: the number of distinct `w`-digit strings.
pub open spec fn pow16(w: nat) -> int
    decreases w,
{
    if w == 0 {
        1
    } else {
        16 * pow16((w - 1) as nat)
    }
}

pub proof fn lemma_spec_hex_len(v: int, width: nat)
    ensures
        spec_hex(v, width).len() == width,
    decreases width,
{
    if width > 0 {
        lemma_spec_hex_len(v / 16, (width - 1) as nat);
    }
}

proof fn lemma_digit_char_injective(a: int, b: int)
    requires
        0 <= a < 16,
        0 <= b < 16,
        digit_char(a) == digit_char(b),
    ensures
        a == b,
{
}

/// Two numbers below `16^width` with the same `width`-digit rendering
/// are the same number.
pub proof fn lemma_spec_hex_injective(v1: int, v2: int, width: nat)
    requires
        0 <= v1 < pow16(width),
        0 <= v2 < pow16(width),
        spec_hex(v1, width) == spec_hex(v2, width),
    ensures
        v1 == v2,
    decreases width,
{
    if width == 0 {
        assert(pow16(0) == 1);
    } else {
        let w1 = (width - 1) as nat;
        let s1 = spec_hex(v1 / 16, w1);
        let s2 = spec_hex(v2 / 16, w1);
        lemma_spec_hex_len(v1 / 16, w1);
        lemma_spec_hex_len(v2 / 16, w1);
        let whole1 = s1 + seq![digit_char(v1 % 16)];
        let whole2 = s2 + seq![digit_char(v2 % 16)];
        assert(whole1 == whole2);
        assert(whole1[width - 1] == digit_char(v1 % 16));
        assert(whole2[width - 1] == digit_char(v2 % 16));
        lemma_digit_char_injective(v1 % 16, v2 % 16);
        assert(s1 =~= s2) by {
            assert forall|i: int| 0 <= i < w1 implies s1[i] == s2[i] by {
                assert(whole1[i] == s1[i]);
                assert(whole2[i] == s2[i]);
            }
        }
        assert(v1 / 16 < pow16(w1));
        assert(v2 / 16 < pow16(w1));
        lemma_spec_hex_injective(v1 / 16, v2 / 16, w1);
        assert(v1 == 16 * (v1 / 16) + v1 % 16);
        assert(v2 == 16 * (v2 / 16) + v2 % 16);
    }
}

/// Hex digits are never a path separator, so a name built from them can
/// stand as one path component.
pub proof fn lemma_spec_hex_no_slash(v: int, width: nat)
    ensures
        forall|i: int| 0 <= i < width ==> spec_hex(v, width)[i] != '/',
    decreases width,
{
    if width > 0 {
        let w1 = (width - 1) as nat;
        lemma_spec_hex_no_slash(v / 16, w1);
        lemma_spec_hex_len(v / 16, w1);
        assert(digit_char(v % 16) != '/');
        assert forall|i: int| 0 <= i < width implies spec_hex(v, width)[i] != '/' by {
            if i < width - 1 {
                assert(spec_hex(v, width)[i] == spec_hex(v / 16, w1)[i]);
            } else {
                assert(spec_hex(v, width)[i] == digit_char(v % 16));
            }
        }
    }
}

/// Every `u64` is below `16^16`, so sixteen hex digits render it faithfully.
pub proof fn lemma_u64_fits_hex16(v: u64)
    ensures
        (v as int) < pow16(16),
{
    reveal_with_fuel(pow16, 17);
}

/// One digit as text.
fn digit_str(d: u64) -> (r: &'static str)
    requires
        d < 16,
    ensures
        r@ == seq![digit_char(d as int)],
{
    if d == 0 {
        proof {
            reveal_strlit("0");
            assert("0"@ =~= seq![digit_char(0)]);
        }
        "0"
    } else if d == 1 {
        proof {
            reveal_strlit("1");
            assert("1"@ =~= seq![digit_char(1)]);
        }
        "1"
    } else if d == 2 {
        proof {
            reveal_strlit("2");
            assert("2"@ =~= seq![digit_char(2)]);
        }
        "2"
    } else if d == 3 {
        proof {
            reveal_strlit("3");
            assert("3"@ =~= seq![digit_char(3)]);
        }
        "3"
    } else if d == 4 {
        proof {
            reveal_strlit("4");
            assert("4"@ =~= seq![digit_char(4)]);
        }
        "4"
    } else if d == 5 {
        proof {
            reveal_strlit("5");
            assert("5"@ =~= seq![digit_char(5)]);
        }
        "5"
    } else if d == 6 {
        proof {
            reveal_strlit("6");
            assert("6"@ =~= seq![digit_char(6)]);
        }
        "6"
    } else if d == 7 {
        proof {
            reveal_strlit("7");
            assert("7"@ =~= seq![digit_char(7)]);
        }
        "7"
    } else if d == 8 {
        proof {
            reveal_strlit("8");
            assert("8"@ =~= seq![digit_char(8)]);
        }
        "8"
    } else if d == 9 {
        proof {
            reveal_strlit("9");
            assert("9"@ =~= seq![digit_char(9)]);
        }
        "9"
    } else if d == 10 {
        proof {
            reveal_strlit("A");
            assert("A"@ =~= seq![digit_char(10)]);
        }
        "A"
    } else if d == 11 {
        proof {
            reveal_strlit("B");
            assert("B"@ =~= seq![digit_char(11)]);
        }
        "B"
    } else if d == 12 {
        proof {
            reveal_strlit("C");
            assert("C"@ =~= seq![digit_char(12)]);
        }
        "C"
    } else if d == 13 {
        proof {
            reveal_strlit("D");
            assert("D"@ =~= seq![digit_char(13)]);
        }
        "D"
    } else if d == 14 {
        proof {
            reveal_strlit("E");
            assert("E"@ =~= seq![digit_char(14)]);
        }
        "E"
    } else {
        proof {
            reveal_strlit("F");
            assert("F"@ =~= seq![digit_char(15)]);
        }
        "F"
    }
}

/// `v` in hexadecimal, zero-padded to `width` digits.
pub fn format_hex(v: u64, width: u64) -> (r: String)
    ensures
        r@ == spec_hex(v as int, width as nat),
    decreases width,
{
    if width == 0 {
        let r = String::new();
        proof {
            assert(r@ =~= spec_hex(v as int, 0));
        }
        r
    } else {
        let mut r = format_hex(v / 16, width - 1);
        r.append(digit_str(v % 16));
        proof {
            assert(v as int / 16 == (v / 16) as int);
            assert(v as int % 16 == (v % 16) as int);
        }
        r
    }
}

/// `v` in decimal with no leading zeros.
pub fn format_dec(v: u64) -> (r: String)
    ensures
        r@ == spec_dec(v as int),
    decreases v,
{
    if v < 10 {
        let mut r = String::new();
        r.append(digit_str(v));
        proof {
            assert(r@ =~= spec_dec(v as int));
        }
        r
    } else {
        let mut r = format_dec(v / 10);
        r.append(digit_str(v % 10));
        proof {
            assert(v as int / 10 == (v / 10) as int);
            assert(v as int % 10 == (v % 10) as int);
        }
        r
    }
}

} // verus!
