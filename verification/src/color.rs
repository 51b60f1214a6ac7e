//! Conversion between KDE's `r,g,b` color notation and `#rrggbb`.
use vstd::prelude::*;
use crate::num::{all_digits, digit_value, digits_value, lemma_decimal_digits, lemma_parse_decimal, lemma_parse_hex2, parse_u8, parse_u8_exec, push_hex2, decimal_exec};
use crate::text::{
    ascii_lower, ascii_lower_str, chars_of, decimal, hex2, hex_digit, is_ws, lemma_split_concat, lemma_split_no_sep, split_chars, split_on,
    string_of, trim, trim_chars, trim_end, trim_start, views,
};

verus! {

/// `#rrggbb` in lowercase hex.
pub open spec fn hex_text(r: u8, g: u8, b: u8) -> Seq<char> {
    seq!['#'] + hex2(r) + hex2(g) + hex2(b)
}

/// `r,g,b` in decimal.
pub open spec fn rgb_text(r: u8, g: u8, b: u8) -> Seq<char> {
    decimal(r as nat) + seq![','] + decimal(g as nat) + seq![','] + decimal(b as nat)
}

/// What `rgb_to_hex` returns: three comma-separated decimal bytes, each
/// trimmed, become `#rrggbb`; anything else gives `None`.
pub open spec fn rgb_to_hex_spec(rgb: Seq<char>) -> Option<Seq<char>> {
    let parts = split_on(rgb, ',');
    if parts.len() != 3 {
        None
    } else {
        match (
            parse_u8(trim(parts[0]), 10),
            parse_u8(trim(parts[1]), 10),
            parse_u8(trim(parts[2]), 10),
        ) {
            (Some(r), Some(g), Some(b)) => Some(hex_text(r, g, b)),
            _ => None,
        }
    }
}

/// Size of a character in UTF-8.
pub open spec fn utf8_size(c: char) -> nat {
    let u = c as u32;
    if u < 0x80 {
        1
    } else if u < 0x800 {
        2
    } else if u < 0x10000 {
        3
    } else {
        4
    }
}

/// Length in bytes of the UTF-8 encoding of `s`.
pub open spec fn byte_len(s: Seq<char>) -> nat
    decreases s.len(),
{
    if s.len() == 0 {
        0
    } else {
        byte_len(s.drop_last()) + utf8_size(s.last())
    }
}

/// Byte offset `b` falls between two characters of `s`.
pub open spec fn is_char_boundary_at(s: Seq<char>, b: nat) -> bool {
    exists|k: int| 0 <= k <= s.len() && byte_len(#[trigger] s.take(k)) == b
}

/// `str::trim_start_matches('#')`.
pub open spec fn strip_hashes(s: Seq<char>) -> Seq<char>
    decreases s.len(),
{
    if s.len() > 0 && s[0] == '#' {
        strip_hashes(s.drop_first())
    } else {
        s
    }
}

pub open spec fn hex_len_message() -> Seq<char> {
    "accent color must be #RRGGBB"@
}

pub open spec fn invalid_hex_message() -> Seq<char> {
    "invalid hex"@
}

/// The inputs on which `hex_to_rgb` slices its argument at character
/// boundaries: when the text after the leading `#`s is six bytes long, byte 2
/// starts a character, and so does byte 4 once the first two characters read
/// as a hex byte (otherwise it stops before slicing further).
pub open spec fn hex_input_ok(hex: Seq<char>) -> bool {
    let h = strip_hashes(hex);
    byte_len(h) == 6 ==> is_char_boundary_at(h, 2) && (h.len() >= 2 && parse_u8(h.take(2), 16) is Some
        ==> is_char_boundary_at(h, 4))
}

/// What `hex_to_rgb` returns: the six bytes after the leading `#`s, read as
/// three two-digit hex numbers, become `r,g,b`.
pub open spec fn hex_to_rgb_spec(hex: Seq<char>) -> Result<Seq<char>, Seq<char>> {
    let h = strip_hashes(hex);
    if byte_len(h) != 6 {
        Err(hex_len_message())
    } else if h.len() != 6 {
        Err(invalid_hex_message())
    } else {
        match (
            parse_u8(h.subrange(0, 2), 16),
            parse_u8(h.subrange(2, 4), 16),
            parse_u8(h.subrange(4, 6), 16),
        ) {
            (Some(r), Some(g), Some(b)) => Ok(rgb_text(r, g, b)),
            _ => Err(invalid_hex_message()),
        }
    }
}

fn owned(s: &str) -> (r: String)
    ensures
        r@ == s@,
{
    s.to_owned()
}

/// Converts KDE's `r,g,b` notation to `#rrggbb`.
pub fn rgb_to_hex(rgb: &str) -> (r: Option<String>)
    ensures
        r matches Some(h) ==> rgb_to_hex_spec(rgb@) == Some(h@),
        r is None ==> rgb_to_hex_spec(rgb@) is None,
{
    let v = chars_of(rgb);
    let parts = split_chars(&v, ',');
    if parts.len() != 3 {
        return None;
    }
    assert(views(parts@)[0] == parts@[0]@);
    assert(views(parts@)[1] == parts@[1]@);
    assert(views(parts@)[2] == parts@[2]@);
    let r = match parse_u8_exec(&trim_chars(&parts[0]), 10) {
        Some(x) => x,
        None => return None,
    };
    let g = match parse_u8_exec(&trim_chars(&parts[1]), 10) {
        Some(x) => x,
        None => return None,
    };
    let b = match parse_u8_exec(&trim_chars(&parts[2]), 10) {
        Some(x) => x,
        None => return None,
    };
    let mut out: Vec<char> = Vec::new();
    out.push('#');
    push_hex2(&mut out, r);
    push_hex2(&mut out, g);
    push_hex2(&mut out, b);
    assert(out@ =~= hex_text(r, g, b));
    Some(string_of(&out))
}

fn strip_hashes_exec(v: &Vec<char>) -> (k: usize)
    ensures
        k <= v.len(),
        strip_hashes(v@) == v@.skip(k as int),
{
    let mut k: usize = 0;
    assert(v@.skip(0) =~= v@);
    while k < v.len() && v[k] == '#'
        invariant
            k <= v.len(),
            strip_hashes(v@) == strip_hashes(v@.skip(k as int)),
        decreases v.len() - k,
    {
        assert(v@.skip(k as int).drop_first() =~= v@.skip(k + 1));
        k += 1;
    }
    k
}

fn utf8_size_exec(c: char) -> (n: usize)
    ensures
        n == utf8_size(c),
{
    let u = c as u32;
    if u < 0x80 {
        1
    } else if u < 0x800 {
        2
    } else if u < 0x10000 {
        3
    } else {
        4
    }
}

pub proof fn lemma_byte_len_prefix_pub(s: Seq<char>, i: int)
    requires
        0 <= i <= s.len(),
    ensures
        byte_len(s.take(i)) <= byte_len(s),
        byte_len(s.take(i)) >= i,
    decreases s.len(),
{
    if i < s.len() {
        assert(s.drop_last().take(i) =~= s.take(i));
        lemma_byte_len_prefix_pub(s.drop_last(), i);
    } else {
        assert(s.take(i) =~= s);
        lemma_byte_len_ge_len(s);
    }
}

proof fn lemma_byte_len_ge_len(s: Seq<char>)
    ensures
        byte_len(s) >= s.len(),
    decreases s.len(),
{
    if s.len() > 0 {
        lemma_byte_len_ge_len(s.drop_last());
    }
}

/// Byte length of `v`, or 7 for anything longer than six bytes.
fn byte_len_upto7(v: &Vec<char>, from: usize) -> (n: usize)
    requires
        from <= v.len(),
    ensures
        n <= 7,
        n < 7 ==> n == byte_len(v@.skip(from as int)),
        n == 7 ==> byte_len(v@.skip(from as int)) > 6,
{
    let ghost s = v@.skip(from as int);
    let mut acc: usize = 0;
    let mut i = from;
    while i < v.len()
        invariant
            from <= i <= v.len(),
            s == v@.skip(from as int),
            acc == byte_len(s.take(i - from)),
            acc <= 6,
        decreases v.len() - i,
    {
        assert(s.take(i - from + 1).drop_last() =~= s.take(i - from));
        assert(s[i - from] == v@[i as int]);
        acc = acc + utf8_size_exec(v[i]);
        if acc > 6 {
            proof {
                lemma_byte_len_prefix_pub(s, i - from + 1);
            }
            return 7;
        }
        i += 1;
    }
    assert(s.take(i - from) =~= s);
    acc
}

/// Whether byte offset `b` of the characters of `v` from `from` on falls
/// between two characters.
fn boundary_at(v: &Vec<char>, from: usize, b: u64) -> (r: bool)
    requires
        from <= v.len(),
        b <= 6,
    ensures
        r == is_char_boundary_at(v@.skip(from as int), b as nat),
{
    let ghost s = v@.skip(from as int);
    let mut acc: u64 = 0;
    let mut i = from;
    while i < v.len() && acc < b
        invariant
            from <= i <= v.len(),
            s == v@.skip(from as int),
            acc == byte_len(s.take(i - from)),
            acc <= b + 4,
            b <= 6,
            forall|j: int| 0 <= j < i - from ==> byte_len(#[trigger] s.take(j)) < b,
        decreases v.len() - i,
    {
        assert(s.take(i - from + 1).drop_last() =~= s.take(i - from));
        assert(s[i - from] == v@[i as int]);
        acc = acc + utf8_size_exec(v[i]) as u64;
        i += 1;
    }
    if acc == b {
        assert(byte_len(s.take(i - from)) == b);
        true
    } else {
        assert forall|j: int| 0 <= j <= s.len() implies byte_len(#[trigger] s.take(j)) != b by {
            if j >= i - from {
                assert(s.take(j).take(i - from) =~= s.take(i - from));
                lemma_byte_len_prefix_pub(s.take(j), i - from);
            }
        }
        false
    }
}

/// Whether `hex_to_rgb` slices `hex` at character boundaries (`hex_input_ok`).
pub fn hex_input_ok_exec(hex: &str) -> (r: bool)
    ensures
        r == hex_input_ok(hex@),
{
    let v = chars_of(hex);
    let k = strip_hashes_exec(&v);
    let ghost h = v@.skip(k as int);
    let n = byte_len_upto7(&v, k);
    if n != 6 {
        return true;
    }
    if !boundary_at(&v, k, 2) {
        return false;
    }
    if v.len() - k >= 2 {
        let p0 = crate::text::slice_chars(&v, k, k + 2);
        assert(p0@ =~= h.take(2));
        if parse_u8_exec(&p0, 16).is_some() {
            return boundary_at(&v, k, 4);
        }
    }
    true
}

/// Converts `#rrggbb` (leading `#`s optional) to KDE's `r,g,b` notation.
pub fn hex_to_rgb(hex: &str) -> (r: Result<String, String>)
    requires
        hex_input_ok(hex@),
    ensures
        r matches Ok(s) ==> hex_to_rgb_spec(hex@) == Ok::<Seq<char>, Seq<char>>(s@),
        r matches Err(e) ==> hex_to_rgb_spec(hex@) == Err::<Seq<char>, Seq<char>>(e@),
{
    let v = chars_of(hex);
    let k = strip_hashes_exec(&v);
    let ghost h = v@.skip(k as int);
    let n = byte_len_upto7(&v, k);
    if n != 6 {
        return Err(owned("accent color must be #RRGGBB"));
    }
    if v.len() - k != 6 {
        return Err(owned("invalid hex"));
    }
    let p0 = crate::text::slice_chars(&v, k, k + 2);
    let p1 = crate::text::slice_chars(&v, k + 2, k + 4);
    let p2 = crate::text::slice_chars(&v, k + 4, k + 6);
    assert(p0@ =~= h.subrange(0, 2));
    assert(p1@ =~= h.subrange(2, 4));
    assert(p2@ =~= h.subrange(4, 6));
    let r = match parse_u8_exec(&p0, 16) {
        Some(x) => x,
        None => return Err(owned("invalid hex")),
    };
    let g = match parse_u8_exec(&p1, 16) {
        Some(x) => x,
        None => return Err(owned("invalid hex")),
    };
    let b = match parse_u8_exec(&p2, 16) {
        Some(x) => x,
        None => return Err(owned("invalid hex")),
    };
    let mut out = decimal_exec(r as u32);
    out.push(',');
    let dg = decimal_exec(g as u32);
    crate::text::extend_chars(&mut out, &dg);
    out.push(',');
    let db = decimal_exec(b as u32);
    crate::text::extend_chars(&mut out, &db);
    assert(out@ =~= rgb_text(r, g, b));
    Ok(string_of(&out))
}

// ---------------------------------------------------------------- laws

proof fn lemma_trim_digits(s: Seq<char>)
    requires
        s.len() > 0,
        forall|i: int| 0 <= i < s.len() ==> '0' <= #[trigger] s[i] <= '9',
    ensures
        trim(s) == s,
{
    assert(!is_ws(s[0]));
    assert(trim_start(s) == s);
    assert(!is_ws(s.last()));
    assert(trim_end(s) == s);
}

proof fn lemma_decimal_no_comma(n: nat)
    ensures
        forall|i: int| 0 <= i < decimal(n).len() ==> decimal(n)[i] != ',',
{
    lemma_decimal_digits(n);
    assert forall|i: int| 0 <= i < decimal(n).len() implies decimal(n)[i] != ',' by {
        assert('0' <= decimal(n)[i] <= '9');
    }
}

proof fn lemma_byte_len_ascii(s: Seq<char>)
    requires
        forall|i: int| 0 <= i < s.len() ==> (#[trigger] s[i] as u32) < 0x80,
    ensures
        byte_len(s) == s.len(),
        forall|k: int| 0 <= k <= s.len() ==> byte_len(#[trigger] s.take(k)) == k,
    decreases s.len(),
{
    if s.len() > 0 {
        let t = s.drop_last();
        assert forall|i: int| 0 <= i < t.len() implies (#[trigger] t[i] as u32) < 0x80 by {
            assert(t[i] == s[i]);
        }
        lemma_byte_len_ascii(t);
        assert(s[s.len() - 1] as u32 == s.last() as u32);
        assert forall|k: int| 0 <= k <= s.len() implies byte_len(#[trigger] s.take(k)) == k by {
            if k < s.len() {
                assert(s.take(k) =~= t.take(k));
            } else {
                assert(s.take(k) =~= s);
            }
        }
    } else {
        assert(s.take(0) =~= s);
    }
}

/// Colors written by `hex_to_rgb` read back with `rgb_to_hex`, and the other
/// way round: for every color, `#rrggbb` and `r,g,b` are converted into each other.
pub proof fn law_color_roundtrip(r: u8, g: u8, b: u8)
    ensures
        rgb_to_hex_spec(rgb_text(r, g, b)) == Some(hex_text(r, g, b)),
        hex_input_ok(hex_text(r, g, b)),
        hex_to_rgb_spec(hex_text(r, g, b)) == Ok::<Seq<char>, Seq<char>>(rgb_text(r, g, b)),
{
    // r,g,b side
    let dr = decimal(r as nat);
    let dg = decimal(g as nat);
    let db = decimal(b as nat);
    lemma_decimal_no_comma(r as nat);
    lemma_decimal_no_comma(g as nat);
    lemma_decimal_no_comma(b as nat);
    lemma_split_no_sep(dr, ',');
    lemma_split_no_sep(dg, ',');
    lemma_split_no_sep(db, ',');
    lemma_split_concat(dr, dg, ',');
    lemma_split_concat(dr + seq![','] + dg, db, ',');
    assert(rgb_text(r, g, b) == (dr + seq![','] + dg) + seq![','] + db);
    let parts = split_on(rgb_text(r, g, b), ',');
    assert(parts =~= seq![dr, dg, db]);
    lemma_decimal_digits(r as nat);
    lemma_decimal_digits(g as nat);
    lemma_decimal_digits(b as nat);
    lemma_trim_digits(dr);
    lemma_trim_digits(dg);
    lemma_trim_digits(db);
    lemma_parse_decimal(r);
    lemma_parse_decimal(g);
    lemma_parse_decimal(b);
    // #rrggbb side
    let x = hex_text(r, g, b);
    let h = hex2(r) + hex2(g) + hex2(b);
    assert(x.drop_first() =~= h);
    assert(strip_hashes(h) == h) by {
        assert(h[0] == hex2(r)[0]);
    }
    assert(strip_hashes(x) == h);
    assert forall|i: int| 0 <= i < h.len() implies (#[trigger] h[i] as u32) < 0x80 by {
        if i < 2 {
            assert(h[i] == hex2(r)[i]);
        } else if i < 4 {
            assert(h[i] == hex2(g)[i - 2]);
        } else {
            assert(h[i] == hex2(b)[i - 4]);
        }
    }
    lemma_byte_len_ascii(h);
    assert(byte_len(h.take(2)) == 2);
    assert(byte_len(h.take(4)) == 4);
    assert(h.subrange(0, 2) =~= hex2(r));
    assert(h.subrange(2, 4) =~= hex2(g));
    assert(h.subrange(4, 6) =~= hex2(b));
    lemma_parse_hex2(r);
    lemma_parse_hex2(g);
    lemma_parse_hex2(b);
}


/// A hexadecimal digit, either case.
pub open spec fn is_hex_char(c: char) -> bool {
    '0' <= c <= '9' || 'a' <= c <= 'f' || 'A' <= c <= 'F'
}

/// `#` and six hexadecimal digits, either case.
pub open spec fn hex_color_text(v: Seq<char>) -> bool {
    v.len() == 7 && v[0] == '#' && forall|i: int| 1 <= i < 7 ==> is_hex_char(#[trigger] v[i])
}

/// Two hexadecimal digits parse as a byte written back as the same digits in
/// lowercase.
proof fn lemma_hex_pair(c0: char, c1: char)
    requires
        is_hex_char(c0),
        is_hex_char(c1),
    ensures
        parse_u8(seq![c0, c1], 16) matches Some(b) && hex2(b) == seq![ascii_lower(c0), ascii_lower(c1)],
{
    let d = seq![c0, c1];
    assert(d.drop_last() =~= seq![c0]);
    assert(d.drop_last().drop_last() =~= Seq::<char>::empty());
    let v0 = digit_value(c0, 16).unwrap();
    let v1 = digit_value(c1, 16).unwrap();
    assert(digit_value(c0, 16) is Some);
    assert(digit_value(c1, 16) is Some);
    assert(all_digits(d, 16));
    assert(seq![c0].drop_last() =~= Seq::<char>::empty());
    assert(seq![c0].last() == c0);
    assert(digits_value(Seq::<char>::empty(), 16) == 0);
    assert(digits_value(seq![c0], 16) == 0 * 16 + v0);
    assert(d.last() == c1);
    assert(digits_value(d, 16) == digits_value(seq![c0], 16) * 16 + v1);
    assert(digits_value(d, 16) == v0 * 16 + v1);
    let b = (v0 * 16 + v1) as u8;
    assert(parse_u8(d, 16) == Some(b));
    assert(b / 16 == v0 && b % 16 == v1) by (nonlinear_arith)
        requires
            b == v0 * 16 + v1,
            v0 < 16,
            v1 < 16,
    ;
    assert(hex_digit(v0 as int) == ascii_lower(c0));
    assert(hex_digit(v1 as int) == ascii_lower(c1));
}

/// The accent color of a `#` and six hex digits: parsed, then written back
/// as `#rrggbb`, it is the text in ASCII lowercase.
pub proof fn lemma_hex_color_lower(v: Seq<char>)
    requires
        hex_color_text(v),
    ensures
        hex_to_rgb_spec(v) is Ok,
        ({
            let h = strip_hashes(v);
            let r = parse_u8(h.subrange(0, 2), 16)->Some_0;
            let g = parse_u8(h.subrange(2, 4), 16)->Some_0;
            let b = parse_u8(h.subrange(4, 6), 16)->Some_0;
            hex_text(r, g, b) == ascii_lower_str(v)
        }),
{
    let h = v.drop_first();
    assert(is_hex_char(v[1]));
    assert(h[0] == v[1]);
    assert(strip_hashes(h) == h);
    assert(strip_hashes(v) == h);
    assert forall|i: int| 0 <= i < 6 implies is_hex_char(#[trigger] h[i]) by {
        assert(h[i] == v[i + 1]);
    }
    assert forall|i: int| 0 <= i < h.len() implies (#[trigger] h[i] as u32) < 0x80 by {
        assert(is_hex_char(h[i]));
    }
    lemma_byte_len_ascii(h);
    assert(h.subrange(0, 2) =~= seq![h[0], h[1]]);
    assert(h.subrange(2, 4) =~= seq![h[2], h[3]]);
    assert(h.subrange(4, 6) =~= seq![h[4], h[5]]);
    lemma_hex_pair(h[0], h[1]);
    lemma_hex_pair(h[2], h[3]);
    lemma_hex_pair(h[4], h[5]);
    let r = parse_u8(h.subrange(0, 2), 16)->Some_0;
    let g = parse_u8(h.subrange(2, 4), 16)->Some_0;
    let b = parse_u8(h.subrange(4, 6), 16)->Some_0;
    assert(hex_text(r, g, b) =~= ascii_lower_str(v));
}

} // verus!
