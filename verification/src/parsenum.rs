//! Parsing of unsigned numbers and space-separated tokens from raw
//! bytes, as the out-of-band streaming-read command arrives on the
//! wire.

use vstd::prelude::*;
use vstd::slice::{slice_subrange, slice_to_vec};

verus! {

/// The numeric value of one decimal digit byte, or 10 if it is none.
pub open spec fn spec_dec_digit(b: u8) -> int {
    if 48 <= b <= 57 {
        b - 48
    } else {
        10
    }
}

/// True of a non-empty run of decimal digits.
pub open spec fn spec_is_dec(d: Seq<u8>) -> bool {
    d.len() > 0 && forall|i: int| 0 <= i < d.len() ==> 48 <= #[trigger] d[i] <= 57
}

/// The number the digits spell, most significant first.
pub open spec fn spec_dec_value(d: Seq<u8>) -> int
    decreases d.len(),
{
    if d.len() == 0 {
        0
    } else {
        spec_dec_value(d.drop_last()) * 10 + spec_dec_digit(d.last())
    }
}

/// What a decimal token means: its value, if it is a digit run whose
/// value fits in a `u64`.
pub open spec fn spec_parse_dec(d: Seq<u8>) -> Option<u64> {
    if spec_is_dec(d) && spec_dec_value(d) <= u64::MAX {
        Option::Some(spec_dec_value(d) as u64)
    } else {
        Option::None
    }
}

/// The numeric value of one hexadecimal digit byte (either case), or
/// 16 if it is none.
pub open spec fn spec_hex_digit(b: u8) -> int {
    if 48 <= b <= 57 {
        b - 48
    } else if 97 <= b <= 102 {
        b - 97 + 10
    } else if 65 <= b <= 70 {
        b - 65 + 10
    } else {
        16
    }
}

/// True of a run of exactly 32 hexadecimal digits: the textual form
/// of a 128-bit identifier.
pub open spec fn spec_is_hex32(d: Seq<u8>) -> bool {
    d.len() == 32 && forall|i: int| 0 <= i < d.len() ==> spec_hex_digit(#[trigger] d[i]) < 16
}

/// The number the hex digits spell, most significant first.
pub open spec fn spec_hex_value(d: Seq<u8>) -> int
    decreases d.len(),
{
    if d.len() == 0 {
        0
    } else {
        spec_hex_value(d.drop_last()) * 16 + spec_hex_digit(d.last())
    }
}

/// What a 128-bit identifier token means.
pub open spec fn spec_parse_hex32(d: Seq<u8>) -> Option<u128> {
    if spec_is_hex32(d) && spec_hex_value(d) <= u128::MAX {
        Option::Some(spec_hex_value(d) as u128)
    } else {
        Option::None
    }
}

/// A byte-for-byte copy.
pub fn copy_bytes(v: &Vec<u8>) -> (r: Vec<u8>)
    ensures
        r@ == v@,
{
    slice_to_vec(v.as_slice())
}

/// Parse a decimal `u64`, refusing empty input, non-digits and
/// overflow.
pub fn parse_dec_u64(d: &[u8]) -> (r: Option<u64>)
    ensures
        r == spec_parse_dec(d@),
{
    if d.len() == 0 {
        return None;
    }
    let mut acc: u64 = 0;
    let mut i: usize = 0;
    while i < d.len()
        invariant
            i <= d.len(),
            forall|j: int| 0 <= j < i ==> 48 <= #[trigger] d@[j] <= 57,
            acc == spec_dec_value(d@.subrange(0, i as int)),
        decreases d.len() - i,
    {
        proof {
            assert(d@.subrange(0, i + 1).drop_last() =~= d@.subrange(0, i as int));
            assert(d@.subrange(0, i + 1).last() == d@[i as int]);
        }
        let b = d[i];
        if !(48 <= b && b <= 57) {
            proof {
                assert(!spec_is_dec(d@));
            }
            return None;
        }
        let digit = (b - 48) as u64;
        if acc > (u64::MAX - digit) / 10 {
            proof {
                lemma_dec_value_grows(d@, i as int);
                assert(spec_dec_value(d@.subrange(0, i + 1)) > u64::MAX);
            }
            return None;
        }
        acc = acc * 10 + digit;
        i += 1;
    }
    proof {
        assert(d@.subrange(0, d@.len() as int) =~= d@);
    }
    Some(acc)
}

/// A longer digit run never spells a smaller number: every digit
/// multiplies what came before by ten.
proof fn lemma_dec_value_grows(d: Seq<u8>, i: int)
    requires
        0 <= i < d.len(),
    ensures
        spec_dec_value(d) >= spec_dec_value(d.subrange(0, i + 1)),
    decreases d.len() - i,
{
    if i + 1 == d.len() {
        assert(d.subrange(0, i + 1) =~= d);
    } else {
        lemma_dec_value_grows(d, i + 1);
        assert(d.subrange(0, i + 2).drop_last() =~= d.subrange(0, i + 1));
        assert(spec_dec_value(d.subrange(0, i + 2)) == spec_dec_value(d.subrange(0, i + 1)) * 10
            + spec_dec_digit(d.subrange(0, i + 2).last()));
        assert(spec_dec_value(d.subrange(0, i + 1)) >= 0) by {
            lemma_dec_value_nonneg(d.subrange(0, i + 1));
        }
    }
}

proof fn lemma_dec_value_nonneg(d: Seq<u8>)
    ensures
        spec_dec_value(d) >= 0,
    decreases d.len(),
{
    if d.len() > 0 {
        lemma_dec_value_nonneg(d.drop_last());
    }
}

/// Parse exactly 32 hexadecimal digits as a 128-bit identifier.
pub fn parse_hex32_u128(d: &[u8]) -> (r: Option<u128>)
    ensures
        r == spec_parse_hex32(d@),
{
    if d.len() != 32 {
        return None;
    }
    let mut acc: u128 = 0;
    let mut i: usize = 0;
    while i < 32
        invariant
            i <= 32,
            d@.len() == 32,
            forall|j: int| 0 <= j < i ==> spec_hex_digit(#[trigger] d@[j]) < 16,
            acc == spec_hex_value(d@.subrange(0, i as int)),
            acc < pow16_u128(i as nat),
        decreases 32 - i,
    {
        proof {
            assert(d@.subrange(0, i + 1).drop_last() =~= d@.subrange(0, i as int));
            assert(d@.subrange(0, i + 1).last() == d@[i as int]);
        }
        let b = d[i];
        let digit: u128 = if 48 <= b && b <= 57 {
            (b - 48) as u128
        } else if 97 <= b && b <= 102 {
            (b - 97) as u128 + 10
        } else if 65 <= b && b <= 70 {
            (b - 65) as u128 + 10
        } else {
            proof {
                assert(spec_hex_digit(d@[i as int]) == 16);
                assert(!spec_is_hex32(d@));
            }
            return None;
        };
        proof {
            assert(digit == spec_hex_digit(d@[i as int]));
            lemma_pow16_u128_next(i as nat);
        }
        acc = acc * 16 + digit;
        i += 1;
    }
    proof {
        assert(d@.subrange(0, 32) =~= d@);
    }
    Some(acc)
}

/// Sixteen to the power `w`, bounded to reason about 32 hex digits.
pub open spec fn pow16_u128(w: nat) -> int
    decreases w,
{
    if w == 0 {
        1
    } else {
        16 * pow16_u128((w - 1) as nat)
    }
}

proof fn lemma_pow16_u128_next(w: nat)
    requires
        w < 32,
    ensures
        16 * pow16_u128(w) <= 0x1_0000_0000_0000_0000_0000_0000_0000_0000,
    decreases 32 - w,
{
    if w + 1 == 32 {
        reveal_with_fuel(pow16_u128, 33);
    } else {
        lemma_pow16_u128_next((w + 1) as nat);
        assert(pow16_u128((w + 1) as nat) == 16 * pow16_u128(w));
        lemma_pow16_u128_pos(w);
    }
}

proof fn lemma_pow16_u128_pos(w: nat)
    ensures
        pow16_u128(w) >= 1,
    decreases w,
{
    if w > 0 {
        lemma_pow16_u128_pos((w - 1) as nat);
    }
}

/// Where the first `sep` stands in `d`, if anywhere.
pub open spec fn spec_find_sep(d: Seq<u8>, sep: u8) -> Option<int>
    decreases d.len(),
{
    if d.len() == 0 {
        Option::None
    } else if d[0] == sep {
        Option::Some(0)
    } else {
        match spec_find_sep(d.drop_first(), sep) {
            Option::Some(i) => Option::Some(i + 1),
            Option::None => Option::None,
        }
    }
}

pub proof fn lemma_find_sep_properties(d: Seq<u8>, sep: u8)
    ensures
        match spec_find_sep(d, sep) {
            Option::Some(i) => 0 <= i < d.len() && d[i] == sep && forall|j: int|
                0 <= j < i ==> d[j] != sep,
            Option::None => forall|j: int| 0 <= j < d.len() ==> d[j] != sep,
        },
    decreases d.len(),
{
    if d.len() > 0 && d[0] != sep {
        let rest = d.drop_first();
        lemma_find_sep_properties(rest, sep);
        assert(forall|j: int| 0 <= j < rest.len() ==> #[trigger] rest[j] == d[j + 1]);
        match spec_find_sep(rest, sep) {
            Option::Some(i) => {
                assert(d[i + 1] == rest[i]);
                assert forall|j: int| 0 <= j < i + 1 implies d[j] != sep by {
                    if j > 0 {
                        assert(d[j] == rest[j - 1]);
                    }
                }
            },
            Option::None => {
                assert forall|j: int| 0 <= j < d.len() implies d[j] != sep by {
                    if j > 0 {
                        assert(d[j] == rest[j - 1]);
                    }
                }
            },
        }
    }
}

/// `d` split on `sep`: the tokens between separators, in order, with
/// empty tokens kept — one more token than there are separators.
pub open spec fn spec_split(d: Seq<u8>, sep: u8) -> Seq<Seq<u8>>
    decreases d.len(),
{
    match spec_find_sep(d, sep) {
        Option::None => seq![d],
        Option::Some(i) => if 0 <= i < d.len() {
            seq![d.subrange(0, i)] + spec_split(d.subrange(i + 1, d.len() as int), sep)
        } else {
            seq![d]
        },
    }
}

fn find_sep(d: &[u8], sep: u8) -> (r: Option<usize>)
    ensures
        match r {
            Option::Some(i) => spec_find_sep(d@, sep) == Option::Some(i as int),
            Option::None => spec_find_sep(d@, sep) is None,
        },
{
    proof {
        lemma_find_sep_properties(d@, sep);
    }
    let mut i: usize = 0;
    while i < d.len()
        invariant
            i <= d.len(),
            forall|j: int| 0 <= j < i ==> d@[j] != sep,
            match spec_find_sep(d@, sep) {
                Option::Some(k) => 0 <= k < d@.len() && d@[k] == sep && forall|j: int|
                    0 <= j < k ==> d@[j] != sep,
                Option::None => forall|j: int| 0 <= j < d@.len() ==> d@[j] != sep,
            },
        decreases d.len() - i,
    {
        if d[i] == sep {
            return Some(i);
        }
        i += 1;
    }
    None
}

/// Split `d` on `sep`, as [`spec_split`] describes.
pub fn split_bytes(d: &[u8], sep: u8) -> (r: Vec<Vec<u8>>)
    ensures
        r.deep_view() == spec_split(d@, sep),
    decreases d@.len(),
{
    match find_sep(d, sep) {
        None => {
            let mut r: Vec<Vec<u8>> = Vec::new();
            r.push(slice_to_vec(d));
            proof {
                assert(r.deep_view() =~~= spec_split(d@, sep));
            }
            r
        },
        Some(i) => {
            proof {
                lemma_find_sep_properties(d@, sep);
            }
            let dlen = d.len();
            let head = slice_to_vec(slice_subrange(d, 0, i));
            let mut rest = split_bytes(slice_subrange(d, i + 1, dlen), sep);
            let ghost rest_snap = rest@;
            let ghost rest_tokens = rest.deep_view();
            let mut r: Vec<Vec<u8>> = Vec::new();
            r.push(head);
            r.append(&mut rest);
            proof {
                assert forall|k: int| 0 <= k < rest_tokens.len() implies r.deep_view()[k + 1]
                    == rest_tokens[k] by {
                    assert(r@[k + 1] == rest_snap[k]);
                }
                assert(r.deep_view()[0] =~= d@.subrange(0, i as int));
                assert(r.deep_view() =~~= spec_split(d@, sep));
            }
            r
        },
    }
}

} // verus!
