//! Small verified text helpers: ASCII byte runs to strings, string equality,
//! and the fixed-width hex rendering the compiler emits.
use vstd::prelude::*;
use vstd::string::StringSliceAdditionalSpecFns;
use vstd::utf8::*;

verus! {

broadcast use vstd::utf8::encode_utf8_decode_utf8;

/// Every byte of `b` is 7-bit ASCII.
pub open spec fn all_ascii(b: Seq<u8>) -> bool {
    forall|i: int| 0 <= i < b.len() ==> b[i] < 0x80
}

/// The characters of an ASCII byte run, one per byte.
pub open spec fn ascii_chars(b: Seq<u8>) -> Seq<char> {
    Seq::new(b.len(), |i: int| b[i] as char)
}

/// An ASCII byte run is valid UTF-8 and decodes to one character per byte.
pub proof fn lemma_ascii_utf8(b: Seq<u8>)
    requires
        all_ascii(b),
    ensures
        valid_utf8(b),
        decode_utf8(b) == ascii_chars(b),
    decreases b.len(),
{
    if b.len() > 0 {
        let b0 = b[0];
        assert(b0 & 0x7Fu8 == b0) by (bit_vector)
            requires
                b0 < 0x80u8,
        ;
        assert(pop_first_scalar(b) =~= b.drop_first());
        lemma_ascii_utf8(b.drop_first());
        assert(decode_utf8(b) =~= ascii_chars(b)) by {
            assert(decode_first_scalar(b) == b0 as u32);
        }
    }
}

/// The text of a string is determined by its UTF-8 bytes.
pub proof fn lemma_str_bytes_determine(a: &str, b: &str)
    requires
        a.spec_bytes() == b.spec_bytes(),
    ensures
        a@ == b@,
{
    assert(decode_utf8(encode_utf8(a@)) == a@);
    assert(decode_utf8(encode_utf8(b@)) == b@);
}

/// `std::str::from_utf8`: the text of `b` when `b` is valid UTF-8.
#[verifier::external_body]
fn str_from_utf8(b: &[u8]) -> (res: Option<&str>)
    ensures
        valid_utf8(b@) <==> res is Some,
        res matches Some(s) ==> s.spec_bytes() == b@,
{
    std::str::from_utf8(b).ok()
}

/// The string spelled by an ASCII byte run.
pub fn ascii_to_string(b: &[u8]) -> (res: String)
    requires
        all_ascii(b@),
    ensures
        res@ == ascii_chars(b@),
{
    proof {
        lemma_ascii_utf8(b@);
    }
    match str_from_utf8(b) {
        Some(s) => {
            proof {
                assert(decode_utf8(encode_utf8(s@)) == s@);
            }
            s.to_owned()
        },
        None => {
            assert(false);
            String::new()
        },
    }
}

/// Byte-wise equality of two strings, which is equality of their text.
pub fn str_eq(a: &str, b: &str) -> (res: bool)
    ensures
        res == (a@ == b@),
{
    let x = a.as_bytes();
    let y = b.as_bytes();
    if x.len() != y.len() {
        return false;
    }
    let mut i: usize = 0;
    while i < x.len()
        invariant
            x.len() == y.len(),
            x@ == a.spec_bytes(),
            y@ == b.spec_bytes(),
            i <= x.len(),
            forall|j: int| 0 <= j < i ==> x@[j] == y@[j],
        decreases x.len() - i,
    {
        if x[i] != y[i] {
            return false;
        }
        i = i + 1;
    }
    assert(x@ =~= y@);
    proof {
        lemma_str_bytes_determine(a, b);
    }
    true
}

/// The upper-case hex digit of a nibble.
pub open spec fn hex_digit(d: u8) -> char {
    if d < 10 {
        ((d + 48) as u8) as char
    } else {
        ((d + 55) as u8) as char
    }
}

/// `0x` followed by the two upper-case hex digits of `b`.
pub open spec fn spec_hex_byte(b: u8) -> Seq<char> {
    seq!['0', 'x', hex_digit(b / 16), hex_digit(b % 16)]
}

fn hex_digit_str(d: u8) -> (res: &'static str)
    requires
        d < 16,
    ensures
        res@ == seq![hex_digit(d)],
{
    match d {
        0 => {
            proof { reveal_strlit("0"); }
            "0"
        },
        1 => {
            proof { reveal_strlit("1"); }
            "1"
        },
        2 => {
            proof { reveal_strlit("2"); }
            "2"
        },
        3 => {
            proof { reveal_strlit("3"); }
            "3"
        },
        4 => {
            proof { reveal_strlit("4"); }
            "4"
        },
        5 => {
            proof { reveal_strlit("5"); }
            "5"
        },
        6 => {
            proof { reveal_strlit("6"); }
            "6"
        },
        7 => {
            proof { reveal_strlit("7"); }
            "7"
        },
        8 => {
            proof { reveal_strlit("8"); }
            "8"
        },
        9 => {
            proof { reveal_strlit("9"); }
            "9"
        },
        10 => {
            proof { reveal_strlit("A"); }
            "A"
        },
        11 => {
            proof { reveal_strlit("B"); }
            "B"
        },
        12 => {
            proof { reveal_strlit("C"); }
            "C"
        },
        13 => {
            proof { reveal_strlit("D"); }
            "D"
        },
        14 => {
            proof { reveal_strlit("E"); }
            "E"
        },
        _ => {
            proof { reveal_strlit("F"); }
            "F"
        },
    }
}

/// Append `0x` and the two upper-case hex digits of `b` to `out`.
pub fn push_hex_byte(out: &mut String, b: u8)
    ensures
        final(out)@ == old(out)@ + spec_hex_byte(b),
{
    proof {
        reveal_strlit("0x");
    }
    out.append("0x");
    out.append(hex_digit_str(b / 16));
    out.append(hex_digit_str(b % 16));
    assert(final(out)@ =~= old(out)@ + spec_hex_byte(b));
}

/// `a`, then `b`, then `c`.
pub fn cat3(a: &str, b: &str, c: &str) -> (res: String)
    ensures
        res@ == a@ + b@ + c@,
{
    let mut s = a.to_owned();
    s.append(b);
    s.append(c);
    s
}

/// The value of an ASCII digit or letter in radix up to 36; 99 for any other
/// byte.
pub open spec fn digit_value(c: u8) -> int {
    if 48 <= c <= 57 {
        c - 48
    } else if 97 <= c <= 122 {
        c - 87
    } else if 65 <= c <= 90 {
        c - 55
    } else {
        99
    }
}

/// Every byte of `s` is a digit of `radix`.
pub open spec fn all_digits(s: Seq<u8>, radix: int) -> bool {
    forall|i: int| 0 <= i < s.len() ==> digit_value(s[i]) < radix
}

/// The value of a digit string, most significant digit first.
pub open spec fn digits_value(s: Seq<u8>, radix: int) -> int
    decreases s.len(),
{
    if s.len() == 0 {
        0
    } else {
        digits_value(s.drop_last(), radix) * radix + digit_value(s.last())
    }
}

/// The non-negative `i64` that a digit string spells in `radix`, if it is a
/// non-empty run of valid digits whose value fits.
pub open spec fn spec_parse_digits(s: Seq<u8>, radix: int) -> Option<i64> {
    if s.len() > 0 && all_digits(s, radix) && digits_value(s, radix) <= i64::MAX {
        Some(digits_value(s, radix) as i64)
    } else {
        None
    }
}

proof fn lemma_digits_nonneg_mono(s: Seq<u8>, radix: int, k: int)
    requires
        radix >= 1,
        all_digits(s, radix),
        0 <= k <= s.len(),
    ensures
        0 <= digits_value(s.subrange(0, k), radix) <= digits_value(s, radix),
    decreases s.len(),
{
    if s.len() > 0 {
        assert(all_digits(s.drop_last(), radix));
        if k == s.len() {
            assert(s.subrange(0, k) =~= s);
            lemma_digits_nonneg_mono(s.drop_last(), radix, k - 1);
            assert(s.drop_last().subrange(0, k - 1) =~= s.drop_last());
        } else {
            lemma_digits_nonneg_mono(s.drop_last(), radix, k);
            assert(s.drop_last().subrange(0, k) =~= s.subrange(0, k));
            lemma_digits_nonneg_mono(s.drop_last(), radix, s.len() - 1);
            assert(s.drop_last().subrange(0, s.len() - 1) =~= s.drop_last());
            let p = digits_value(s.drop_last(), radix);
            assert(p * radix >= p) by (nonlinear_arith)
                requires
                    p >= 0,
                    radix >= 1,
            ;
        }
    }
}

/// Parse `b[start..end]` as digits of `radix` (2, 10 or 16) into a
/// non-negative `i64`; `None` on an empty run, a bad digit, or overflow.
pub fn parse_digits(b: &[u8], start: usize, end: usize, radix: u8) -> (res: Option<i64>)
    requires
        start <= end <= b@.len(),
        radix == 2 || radix == 10 || radix == 16,
    ensures
        res == spec_parse_digits(b@.subrange(start as int, end as int), radix as int),
        res matches Some(v) ==> v >= 0,
{
    let ghost s = b@.subrange(start as int, end as int);
    if start == end {
        return None;
    }
    let mut acc: i64 = 0;
    let mut i = start;
    let mut overflow = false;
    while i < end
        invariant
            start <= i <= end <= b@.len(),
            s == b@.subrange(start as int, end as int),
            radix == 2 || radix == 10 || radix == 16,
            all_digits(s.subrange(0, i - start), radix as int),
            !overflow ==> acc == digits_value(s.subrange(0, i - start), radix as int),
            overflow ==> digits_value(s.subrange(0, i - start), radix as int) > i64::MAX,
            0 <= acc,
        decreases end - i,
    {
        let c = b[i];
        let d: i64 = if 48 <= c && c <= 57 {
            (c - 48) as i64
        } else if 97 <= c && c <= 122 {
            (c - 87) as i64
        } else if 65 <= c && c <= 90 {
            (c - 55) as i64
        } else {
            99
        };
        if d >= radix as i64 {
            assert(s[i - start] == c);
            assert(!all_digits(s, radix as int));
            return None;
        }
        let ghost prev = s.subrange(0, i - start);
        let ghost next = s.subrange(0, i + 1 - start);
        assert(next.drop_last() =~= prev);
        assert(next.last() == c);
        if !overflow {
            if acc > (i64::MAX - d) / (radix as i64) {
                overflow = true;
                assert(acc * radix + d > i64::MAX) by (nonlinear_arith)
                    requires
                        acc > (i64::MAX - d) / (radix as int),
                        0 <= d < radix,
                        radix >= 2,
                ;
            } else {
                assert(acc * radix + d <= i64::MAX) by (nonlinear_arith)
                    requires
                        acc <= (i64::MAX - d) / (radix as int),
                        0 <= d < radix,
                        radix >= 2,
                        acc >= 0,
                ;
                acc = acc * (radix as i64) + d;
            }
        } else {
            let ghost pv = digits_value(prev, radix as int);
            assert(pv * radix + d > i64::MAX) by (nonlinear_arith)
                requires
                    pv > i64::MAX,
                    0 <= d,
                    radix >= 2,
            ;
        }
        i = i + 1;
    }
    assert(s.subrange(0, end - start) =~= s);
    if overflow {
        None
    } else {
        Some(acc)
    }
}

/// ASCII lower-casing of one character; other characters are unchanged.
pub open spec fn lower_char(c: char) -> char {
    if 'A' <= c <= 'Z' {
        ((c as u32) + 32) as char
    } else {
        c
    }
}

/// ASCII lower-casing of a text.
pub open spec fn spec_lower(s: Seq<char>) -> Seq<char> {
    s.map_values(|c: char| lower_char(c))
}

/// The one-character string of `c`. Calls std's `ToString::to_string` on a
/// `char`, whose `Display` writes exactly that character; the contract
/// claims the result holds `c` and nothing else.
#[verifier::external_body]
pub(crate) fn char_string(c: char) -> (res: String)
    ensures
        res@ == seq![c],
{
    c.to_string()
}

/// `str::to_ascii_lowercase`: a copy of `s` with `A`-`Z` mapped to `a`-`z`
/// and every other character unchanged, as std documents it.
#[verifier::external_body]
pub(crate) fn to_ascii_lowercase(s: &str) -> (res: String)
    ensures
        res@ == spec_lower(s@),
{
    s.to_ascii_lowercase()
}

/// The decimal digits of `v`, most significant first, without leading
/// zeros (`0` for zero).
pub open spec fn spec_dec(v: nat) -> Seq<char>
    decreases v,
{
    if v < 10 {
        seq![((v + 48) as u8) as char]
    } else {
        spec_dec(v / 10).push((((v % 10) + 48) as u8) as char)
    }
}

/// The `n` upper-case hex digits of `v` (the low `4 * n` bits), most
/// significant first.
pub open spec fn spec_hex(v: nat, n: nat) -> Seq<char>
    decreases n,
{
    if n == 0 {
        Seq::empty()
    } else {
        spec_hex(v / 16, (n - 1) as nat).push(hex_digit((v % 16) as u8))
    }
}

fn digit_char(d: u8) -> (res: String)
    requires
        d < 16,
    ensures
        res@ == seq![hex_digit(d)],
{
    hex_digit_str(d).to_owned()
}

/// Append the decimal digits of `v` to `out`.
pub fn push_dec(out: &mut String, v: u64)
    ensures
        final(out)@ == old(out)@ + spec_dec(v as nat),
    decreases v,
{
    if v >= 10 {
        push_dec(out, v / 10);
    }
    let d = (v % 10) as u8;
    assert(hex_digit(d) == (((v % 10) + 48) as u8) as char);
    out.append(digit_char(d).as_str());
}

/// Append `0x` and the `n` upper-case hex digits of `v` to `out`.
pub fn push_hex(out: &mut String, v: u64, n: u32)
    requires
        n <= 16,
    ensures
        final(out)@ == old(out)@ + seq!['0', 'x'] + spec_hex(v as nat, n as nat),
{
    proof {
        reveal_strlit("0x");
    }
    out.append("0x");
    push_hex_digits(out, v, n);
}

fn push_hex_digits(out: &mut String, v: u64, n: u32)
    ensures
        final(out)@ == old(out)@ + spec_hex(v as nat, n as nat),
    decreases n,
{
    if n > 0 {
        push_hex_digits(out, v / 16, n - 1);
        let d = (v % 16) as u8;
        out.append(digit_char(d).as_str());
    } else {
        assert(old(out)@ + spec_hex(v as nat, 0) =~= old(out)@);
    }
}

/// The decimal spelling of an integer, with a leading `-` when negative.
pub open spec fn spec_int_text(n: int) -> Seq<char> {
    if n < 0 {
        "-"@ + spec_dec((-n) as nat)
    } else {
        spec_dec(n as nat)
    }
}

/// Append the decimal spelling of `n`.
pub fn push_int(out: &mut String, n: i64)
    ensures
        final(out)@ == old(out)@ + spec_int_text(n as int),
{
    if n < 0 {
        out.append("-");
        let m: i128 = 0i128 - n as i128;
        push_dec(out, m as u64);
    } else {
        push_dec(out, n as u64);
    }
}


} // verus!
