//! Number parsing and formatting as the std conversions behave:
//! `u8::from_str_radix` (radix 10 and 16), decimal and two-digit hex output.
use vstd::prelude::*;
use crate::text::{decimal, hex2, hex_digit};

verus! {

/// Value of one digit in the given radix (`char::to_digit`).
pub open spec fn digit_value(c: char, radix: nat) -> Option<nat> {
    let u = c as u32;
    let v: int = if '0' <= c <= '9' {
        u - 48
    } else if 'a' <= c <= 'z' {
        u - 97 + 10
    } else if 'A' <= c <= 'Z' {
        u - 65 + 10
    } else {
        99
    };
    if v < radix {
        Some(v as nat)
    } else {
        None
    }
}

pub open spec fn all_digits(d: Seq<char>, radix: nat) -> bool {
    forall|i: int| 0 <= i < d.len() ==> (#[trigger] digit_value(d[i], radix)) is Some
}

/// Value of a digit string, most significant digit first.
pub open spec fn digits_value(d: Seq<char>, radix: nat) -> nat
    decreases d.len(),
{
    if d.len() == 0 {
        0
    } else {
        digits_value(d.drop_last(), radix) * radix + digit_value(d.last(), radix).unwrap()
    }
}

/// `u8::from_str_radix`: an optional single `'+'`, then at least one digit,
/// and a value that fits in a byte.
pub open spec fn parse_u8(s: Seq<char>, radix: nat) -> Option<u8> {
    let d = if s.len() > 0 && s[0] == '+' {
        s.drop_first()
    } else {
        s
    };
    if d.len() == 0 || !all_digits(d, radix) || digits_value(d, radix) > 255 {
        None
    } else {
        Some(digits_value(d, radix) as u8)
    }
}

proof fn lemma_value_grows(d: Seq<char>, radix: nat, i: int)
    requires
        radix >= 1,
        0 <= i <= d.len(),
        all_digits(d, radix),
    ensures
        digits_value(d, radix) >= digits_value(d.take(i), radix),
    decreases d.len() - i,
{
    if i < d.len() {
        let x = digits_value(d.take(i), radix);
        lemma_value_grows(d, radix, i + 1);
        assert(d.take(i + 1).drop_last() =~= d.take(i));
        assert(digit_value(d[i], radix) is Some);
        assert(x * radix >= x) by (nonlinear_arith)
            requires
                radix >= 1,
        ;
    } else {
        assert(d.take(i) =~= d);
    }
}

fn digit_value_exec(c: char, radix: u32) -> (r: Option<u32>)
    requires
        radix == 10 || radix == 16,
    ensures
        r matches Some(v) ==> digit_value(c, radix as nat) == Some(v as nat),
        r is None ==> digit_value(c, radix as nat) is None,
{
    let u = c as u32;
    let v: u32 = if '0' <= c && c <= '9' {
        u - 48
    } else if 'a' <= c && c <= 'z' {
        u - 97 + 10
    } else if 'A' <= c && c <= 'Z' {
        u - 65 + 10
    } else {
        99
    };
    if v < radix {
        Some(v)
    } else {
        None
    }
}

/// `u8::from_str_radix` on characters.
pub fn parse_u8_exec(s: &Vec<char>, radix: u32) -> (r: Option<u8>)
    requires
        radix == 10 || radix == 16,
    ensures
        r == parse_u8(s@, radix as nat),
{
    let start: usize = if s.len() > 0 && s[0] == '+' {
        1
    } else {
        0
    };
    let ghost d = s@.skip(start as int);
    assert(d =~= if s@.len() > 0 && s@[0] == '+' {
        s@.drop_first()
    } else {
        s@
    });
    if start == s.len() {
        return None;
    }
    let mut val: u32 = 0;
    let mut i = start;
    while i < s.len()
        invariant
            start <= i <= s.len(),
            d == s@.skip(start as int),
            d == (if s@.len() > 0 && s@[0] == '+' {
                s@.drop_first()
            } else {
                s@
            }),
            d.len() > 0,
            radix == 10 || radix == 16,
            all_digits(d.take(i - start), radix as nat),
            val as nat == digits_value(d.take(i - start), radix as nat),
            val <= 255,
        decreases s.len() - i,
    {
        let k = i - start;
        assert(d.take(k + 1).drop_last() =~= d.take(k as int));
        assert(d[k as int] == s@[i as int]);
        match digit_value_exec(s[i], radix) {
            None => {
                assert(!all_digits(d, radix as nat)) by {
                    assert(digit_value(d[k as int], radix as nat) is None);
                }
                return None;
            },
            Some(dv) => {
                val = val * radix + dv;
                assert(all_digits(d.take(k + 1), radix as nat)) by {
                    assert forall|j: int| 0 <= j < k + 1 implies (#[trigger] digit_value(
                        d.take(k + 1)[j],
                        radix as nat,
                    )) is Some by {
                        if j < k {
                            assert(d.take(k + 1)[j] == d.take(k as int)[j]);
                        }
                    }
                }
                if val > 255 {
                    proof {
                        if all_digits(d, radix as nat) {
                            lemma_value_grows(d, radix as nat, k + 1);
                        }
                    }
                    return None;
                }
            },
        }
        i += 1;
    }
    assert(d.take(s.len() - start) =~= d);
    Some(val as u8)
}

pub fn hex_digit_exec(d: u8) -> (c: char)
    requires
        d < 16,
    ensures
        c == hex_digit(d as int),
{
    if d < 10 {
        (48 + d) as char
    } else {
        (87 + d) as char
    }
}

/// Pushes the two lowercase hex digits of `b`.
pub fn push_hex2(out: &mut Vec<char>, b: u8)
    ensures
        final(out)@ == old(out)@ + hex2(b),
{
    out.push(hex_digit_exec(b / 16));
    out.push(hex_digit_exec(b % 16));
    assert(final(out)@ =~= old(out)@ + hex2(b));
}

/// The last `width` lowercase hex digits of `n`, zero-padded (`{:0width$x}`
/// when `n` has at most `width` digits).
pub open spec fn hex_digits(n: nat, width: nat) -> Seq<char>
    decreases width,
{
    if width == 0 {
        Seq::empty()
    } else {
        hex_digits(n / 16, (width - 1) as nat).push(hex_digit((n % 16) as int))
    }
}

/// The last `width` lowercase hex digits of `n`, zero-padded.
pub fn hex_digits_exec(n: u64, width: u8) -> (out: Vec<char>)
    ensures
        out@ == hex_digits(n as nat, width as nat),
    decreases width,
{
    if width == 0 {
        Vec::new()
    } else {
        let mut v = hex_digits_exec(n / 16, width - 1);
        v.push(hex_digit_exec((n % 16) as u8));
        v
    }
}

/// Decimal digits of a number.
pub fn decimal_exec(n: u32) -> (out: Vec<char>)
    ensures
        out@ == decimal(n as nat),
    decreases n,
{
    if n < 10 {
        let mut v: Vec<char> = Vec::new();
        v.push(((48 + n) as u8) as char);
        assert(v@ =~= decimal(n as nat));
        v
    } else {
        let mut v = decimal_exec(n / 10);
        v.push(((48 + n % 10) as u8) as char);
        v
    }
}

// ---------------------------------------------------------------- lemmas

pub proof fn lemma_decimal_digits(n: nat)
    ensures
        decimal(n).len() > 0,
        forall|i: int| 0 <= i < decimal(n).len() ==> '0' <= #[trigger] decimal(n)[i] <= '9',
        all_digits(decimal(n), 10),
        digits_value(decimal(n), 10) == n,
    decreases n,
{
    if n >= 10 {
        lemma_decimal_digits(n / 10);
        let p = decimal(n / 10);
        assert(decimal(n).drop_last() =~= p);
        assert forall|i: int| 0 <= i < decimal(n).len() implies (#[trigger] digit_value(
            decimal(n)[i],
            10,
        )) is Some by {
            if i < p.len() {
                assert(decimal(n)[i] == p[i]);
                assert(digit_value(p[i], 10) is Some);
            }
        }
    } else {
        assert(digits_value(decimal(n).drop_last(), 10) == 0);
    }
}

pub proof fn lemma_parse_decimal(n: u8)
    ensures
        parse_u8(decimal(n as nat), 10) == Some(n),
{
    lemma_decimal_digits(n as nat);
}

pub proof fn lemma_parse_hex2(b: u8)
    ensures
        parse_u8(hex2(b), 16) == Some(b),
        all_digits(hex2(b), 16),
{
    let h = hex2(b);
    assert(h.drop_last() =~= seq![hex_digit((b / 16) as int)]);
    assert(h.drop_last().drop_last() =~= Seq::<char>::empty());
    assert(digit_value(h[0], 16) == Some((b / 16) as nat));
    assert(digit_value(h[1], 16) == Some((b % 16) as nat));
    assert(h.last() == h[1]);
    assert(h.drop_last().last() == h[0]);
    assert(digits_value(h.drop_last().drop_last(), 16) == 0);
    assert(digits_value(h.drop_last(), 16) == (b / 16) as nat);
    assert(digits_value(h, 16) == (b / 16) as nat * 16 + (b % 16) as nat);
    assert(all_digits(h, 16)) by {
        assert forall|i: int| 0 <= i < h.len() implies (#[trigger] digit_value(h[i], 16)) is Some by {
            if i == 0 {
            } else {
            }
        }
    }
    assert(h[0] != '+');
}

} // verus!
