//! Hexadecimal text form of `u64` values: parsing in the manner of the
//! standard radix-16 integer parser (optional leading `+`, upper or lower
//! case digits, overflow rejected), and formatting as lower-case digits
//! zero-padded to at least eight places.

use vstd::prelude::*;

verus! {

pub const PLUS: u8 = 43;

pub const ZERO: u8 = 48;

/// ASCII hexadecimal digit, either case.
pub open spec fn is_hex_digit(b: u8) -> bool {
    (48 <= b <= 57) || (65 <= b <= 70) || (97 <= b <= 102)
}

/// Numeric value of a hexadecimal digit byte (0 on other bytes).
pub open spec fn hex_digit_val(b: u8) -> nat {
    if 48 <= b <= 57 {
        (b - 48) as nat
    } else if 65 <= b <= 70 {
        (b - 55) as nat
    } else if 97 <= b <= 102 {
        (b - 87) as nat
    } else {
        0
    }
}

/// Every byte of `s` is a hexadecimal digit.
pub open spec fn all_hex(s: Seq<u8>) -> bool {
    forall|i: int| 0 <= i < s.len() ==> is_hex_digit(s[i])
}

/// Value of a big-endian string of hexadecimal digits.
pub open spec fn hex_val(s: Seq<u8>) -> nat
    decreases s.len(),
{
    if s.len() == 0 {
        0
    } else {
        hex_val(s.drop_last()) * 16 + hex_digit_val(s.last())
    }
}

/// The digit part of a number literal: everything after an optional
/// leading `+` sign.
pub open spec fn hex_body(s: Seq<u8>) -> Seq<u8> {
    if s.len() > 0 && s[0] == PLUS {
        s.drop_first()
    } else {
        s
    }
}

/// The strings the radix-16 `u64` parser accepts.
pub open spec fn parses_as_hex_u64(s: Seq<u8>) -> bool {
    let b = hex_body(s);
    b.len() > 0 && all_hex(b) && hex_val(b) <= u64::MAX
}

/// Lower-case digit byte for a value below 16.
pub open spec fn hex_digit_of(v: nat) -> u8 {
    if v < 10 {
        (48 + v) as u8
    } else {
        (87 + v) as u8
    }
}

/// Minimal big-endian digit string of `v` (a single `0` for zero).
pub open spec fn hex_repr(v: nat) -> Seq<u8>
    decreases v,
{
    if v < 16 {
        seq![hex_digit_of(v)]
    } else {
        hex_repr(v / 16) + seq![hex_digit_of(v % 16)]
    }
}

/// A run of `n` ASCII zero digits.
pub open spec fn zeroes(n: nat) -> Seq<u8> {
    Seq::new(n, |i: int| ZERO)
}

/// Digit string of `v` zero-padded on the left to at least 8 places.
pub open spec fn hex8(v: nat) -> Seq<u8> {
    let d = hex_repr(v);
    if d.len() >= 8 {
        d
    } else {
        zeroes((8 - d.len()) as nat) + d
    }
}

/// Appending one digit multiplies the value by 16 and adds the digit.
proof fn lemma_hex_val_step(t: Seq<u8>, k: int)
    requires
        0 <= k < t.len(),
    ensures
        hex_val(t.take(k + 1)) == hex_val(t.take(k)) * 16 + hex_digit_val(t[k]),
{
    assert(t.take(k + 1).drop_last() =~= t.take(k));
    assert(t.take(k + 1).last() == t[k]);
}

/// The value of a prefix never exceeds the value of the whole string.
proof fn lemma_hex_val_prefix_le(t: Seq<u8>, k: int)
    requires
        0 <= k <= t.len(),
    ensures
        hex_val(t.take(k)) <= hex_val(t),
    decreases t.len(),
{
    if k == t.len() {
        assert(t.take(k) =~= t);
    } else {
        assert(t.len() > 0);
        assert(t.drop_last().take(k) =~= t.take(k));
        lemma_hex_val_prefix_le(t.drop_last(), k);
        assert(hex_val(t.drop_last()) <= hex_val(t.drop_last()) * 16 + hex_digit_val(t.last()));
    }
}

/// The minimal digit string evaluates back to its value, consists of
/// digits only, and is never empty.
pub proof fn lemma_hex_repr_val(v: nat)
    ensures
        hex_val(hex_repr(v)) == v,
        all_hex(hex_repr(v)),
        hex_repr(v).len() >= 1,
    decreases v,
{
    if v < 16 {
        let d = hex_digit_of(v);
        assert(hex_repr(v) =~= seq![d]);
        assert(seq![d].drop_last() =~= Seq::<u8>::empty());
        assert(seq![d].last() == d);
        assert(hex_val(Seq::<u8>::empty()) == 0);
        assert(hex_val(seq![d]) == 0 * 16 + hex_digit_val(d));
        assert(hex_digit_val(d) == v);
        assert(is_hex_digit(d));
    } else {
        lemma_hex_repr_val(v / 16);
        let head = hex_repr(v / 16);
        let d = hex_digit_of(v % 16);
        assert(hex_repr(v) == head + seq![d]);
        assert((head + seq![d]).drop_last() =~= head);
        assert((head + seq![d]).last() == d);
        assert(hex_val(hex_repr(v)) == hex_val(head) * 16 + hex_digit_val(d));
        assert(hex_digit_val(d) == v % 16);
        assert((v / 16) * 16 + v % 16 == v) by {
            vstd::arithmetic::div_mod::lemma_fundamental_div_mod(v as int, 16);
        }
        assert(is_hex_digit(d));
        assert(forall|i: int|
            0 <= i < hex_repr(v).len() ==> is_hex_digit(
                #[trigger] hex_repr(v)[i],
            ));
    }
}

/// A run of zero digits has value zero.
proof fn lemma_hex_val_zeroes(n: nat)
    ensures
        hex_val(zeroes(n)) == 0,
    decreases n,
{
    if n > 0 {
        assert(zeroes(n).drop_last() =~= zeroes((n - 1) as nat));
        assert(zeroes(n).last() == ZERO);
        lemma_hex_val_zeroes((n - 1) as nat);
    }
}

/// Leading zero digits do not change the value.
proof fn lemma_hex_val_pad(n: nat, t: Seq<u8>)
    ensures
        hex_val(zeroes(n) + t) == hex_val(t),
    decreases t.len(),
{
    if t.len() == 0 {
        assert(zeroes(n) + t =~= zeroes(n));
        lemma_hex_val_zeroes(n);
    } else {
        assert((zeroes(n) + t).drop_last() =~= zeroes(n) + t.drop_last());
        assert((zeroes(n) + t).last() == t.last());
        lemma_hex_val_pad(n, t.drop_last());
    }
}

/// The padded digit string of a `u64` parses back to the same value.
pub proof fn lemma_hex8_round_trip(v: u64)
    ensures
        parses_as_hex_u64(hex8(v as nat)),
        hex_val(hex_body(hex8(v as nat))) == v,
        hex8(v as nat).len() >= 8,
        all_hex(hex8(v as nat)),
{
    lemma_hex_repr_val(v as nat);
    let d = hex_repr(v as nat);
    if d.len() >= 8 {
        assert(hex8(v as nat) == d);
        assert(hex8(v as nat)[0] != PLUS);
        assert(hex_body(hex8(v as nat)) == hex8(v as nat));
    } else {
        let n = (8 - d.len()) as nat;
        lemma_hex_val_pad(n, d);
        assert(hex8(v as nat) == zeroes(n) + d);
        assert(hex8(v as nat)[0] == ZERO);
        assert(hex_body(hex8(v as nat)) == hex8(v as nat));
        assert(forall|i: int|
            0 <= i < hex8(v as nat).len() ==> is_hex_digit(
                #[trigger] hex8(v as nat)[i],
            ));
    }
}

/// Numeric value of one digit byte, if it is a hexadecimal digit.
fn hex_digit_value(b: u8) -> (r: Option<u8>)
    ensures
        match r {
            Some(d) => is_hex_digit(b) && d == hex_digit_val(b),
            None => !is_hex_digit(b),
        },
{
    if 48 <= b && b <= 57 {
        Some(b - 48)
    } else if 65 <= b && b <= 70 {
        Some(b - 55)
    } else if 97 <= b && b <= 102 {
        Some(b - 87)
    } else {
        None
    }
}

/// Parse a `u64` from hexadecimal text, in the manner of the standard
/// radix-16 parser: an optional leading `+`, then one or more digits of
/// either case; anything else, an empty digit string, or a value beyond
/// `u64::MAX` is rejected.
pub fn parse_hex_u64(s: &[u8]) -> (r: Option<u64>)
    ensures
        r is Some <==> parses_as_hex_u64(s@),
        r is Some ==> r->Some_0 == hex_val(hex_body(s@)),
{
    let start: usize = if s.len() > 0 && s[0] == PLUS {
        1
    } else {
        0
    };
    let ghost body = hex_body(s@);
    proof {
        assert(body =~= s@.subrange(start as int, s@.len() as int));
    }
    if start == s.len() {
        return None;
    }
    let mut acc: u64 = 0;
    for i in start..s.len()
        invariant
            start <= i <= s@.len(),
            body == s@.subrange(start as int, s@.len() as int),
            body == hex_body(s@),
            all_hex(body.take(i - start)),
            acc == hex_val(body.take(i - start)),
    {
        let d = match hex_digit_value(s[i]) {
            Some(d) => d,
            None => {
                assert(body[i - start] == s@[i as int]);
                assert(!all_hex(body));
                return None;
            },
        };
        let limit: u64 = (u64::MAX - (d as u64)) / 16;
        if acc > limit {
            proof {
                lemma_hex_val_step(body, i - start);
                assert(acc * 16 + hex_digit_val(s@[i as int]) > u64::MAX) by {
                    assert(acc >= limit + 1);
                    assert((limit + 1) * 16 >= u64::MAX - d + 1) by (nonlinear_arith)
                        requires
                            limit == (u64::MAX - (d as u64)) / 16,
                            0 <= d < 16,
                    ;
                    assert(acc * 16 >= (limit + 1) * 16) by (nonlinear_arith)
                        requires
                            acc >= limit + 1,
                    ;
                }
                lemma_hex_val_prefix_le(body, i - start + 1);
                assert(hex_val(body) > u64::MAX);
            }
            return None;
        }
        proof {
            assert(acc * 16 + d <= u64::MAX) by (nonlinear_arith)
                requires
                    acc <= (u64::MAX - (d as u64)) / 16,
                    0 <= d < 16,
            ;
            lemma_hex_val_step(body, i - start);
        }
        acc = acc * 16 + (d as u64);
        assert(body.take(i - start + 1) =~= body.take(i - start).push(s@[i as int]));
    }
    assert(body.take(s@.len() - start) =~= body);
    Some(acc)
}

/// Append the minimal digit string of `v` to `out`.
fn push_hex(v: u64, out: &mut Vec<u8>)
    ensures
        final(out)@ == old(out)@ + hex_repr(v as nat),
    decreases v,
{
    if v < 16 {
        let d: u8 = if v < 10 {
            48 + (v as u8)
        } else {
            87 + (v as u8)
        };
        out.push(d);
        assert(out@ =~= old(out)@ + hex_repr(v as nat));
    } else {
        push_hex(v / 16, out);
        let rem: u64 = v % 16;
        let d: u8 = if rem < 10 {
            48 + (rem as u8)
        } else {
            87 + (rem as u8)
        };
        out.push(d);
        assert(out@ =~= old(out)@ + hex_repr(v as nat));
    }
}

/// Format `v` as lower-case hexadecimal, zero-padded to at least eight
/// digit places.
pub fn format_hex8(v: u64) -> (r: Vec<u8>)
    ensures
        r@ == hex8(v as nat),
{
    let mut digits: Vec<u8> = Vec::new();
    push_hex(v, &mut digits);
    assert(digits@ == hex_repr(v as nat));
    if digits.len() >= 8 {
        digits
    } else {
        let pad: usize = 8 - digits.len();
        let mut out: Vec<u8> = Vec::new();
        for k in 0..pad
            invariant
                out@.len() == k,
                forall|j: int| 0 <= j < k ==> out@[j] == ZERO,
        {
            out.push(ZERO);
        }
        assert(out@ =~= zeroes(pad as nat));
        out.append(&mut digits);
        assert(out@ =~= zeroes(pad as nat) + hex_repr(v as nat));
        out
    }
}

} // verus!
