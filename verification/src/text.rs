//! Building blocks of the rendered text: decimal numbers, hex dumps and
//! indentation.

use vstd::prelude::*;
use vstd::string::StringExecFns;

verus! {

/// `String::push`: the string is what it was, with `ch` behind it.
pub assume_specification[ String::push ](s: &mut String, ch: char)
    ensures
        final(s)@ == old(s)@.push(ch),
;

/// The character of the decimal digit `d`.
pub open spec fn digit_char(d: int) -> char
    recommends
        0 <= d < 10,
{
    ('0' as int + d) as char
}

/// The decimal numeral of `n`, without sign or leading zeros.
pub open spec fn decimal_nat(n: nat) -> Seq<char>
    decreases n,
{
    if n < 10 {
        seq![digit_char(n as int)]
    } else {
        decimal_nat(n / 10).push(digit_char((n % 10) as int))
    }
}

/// The decimal numeral of `n`, with a leading `-` when `n` is negative.
pub open spec fn decimal(n: int) -> Seq<char> {
    if n < 0 {
        seq!['-'] + decimal_nat((-n) as nat)
    } else {
        decimal_nat(n as nat)
    }
}

/// The character of the hexadecimal digit `d`, in upper case.
pub open spec fn hex_digit(d: int) -> char
    recommends
        0 <= d < 16,
{
    if d < 10 {
        ('0' as int + d) as char
    } else {
        ('A' as int + (d - 10)) as char
    }
}

/// Two upper-case hexadecimal digits for each byte of `data`, the high digit
/// first.
pub open spec fn upper_hex(data: Seq<u8>) -> Seq<char> {
    Seq::new(
        2 * data.len(),
        |i: int|
            if i % 2 == 0 {
                hex_digit(data[i / 2] as int / 16)
            } else {
                hex_digit(data[i / 2] as int % 16)
            },
    )
}

/// `n` tab characters.
pub open spec fn tabs(n: nat) -> Seq<char> {
    Seq::new(n, |i: int| '\t')
}

/// Appends the decimal numeral of `value` to `out`.
pub fn push_decimal(out: &mut String, value: u128)
    ensures
        final(out)@ == old(out)@ + decimal_nat(value as nat),
    decreases value,
{
    if value >= 10 {
        push_decimal(out, value / 10);
    }
    let digit: u8 = (value % 10) as u8;
    out.push((48u8 + digit) as char);
}

/// Appends the decimal numeral of `value` to `out`, with a leading `-` when
/// `value` is negative.
pub fn push_number(out: &mut String, value: i32)
    ensures
        final(out)@ == old(out)@ + decimal(value as int),
{
    if value < 0 {
        out.push('-');
        let magnitude: i64 = -(value as i64);
        push_decimal(out, magnitude as u128);
    } else {
        push_decimal(out, value as u128);
    }
}

/// `hex::encode_upper` on a slice of bytes: the string holds two upper-case
/// hexadecimal digits for each byte, the high digit first, and nothing else.
#[verifier::external_body]
fn hex_encode_upper(data: &[u8]) -> (text: String)
    ensures
        text@ == upper_hex(data@),
{
    hex::encode_upper(data)
}

/// Appends the upper-case hex dump of `data` to `out`.
pub fn push_hex(out: &mut String, data: &[u8])
    ensures
        final(out)@ == old(out)@ + upper_hex(data@),
{
    let dump = hex_encode_upper(data);
    out.append(dump.as_str());
}

/// Appends `n` tab characters to `out`.
pub fn push_tabs(out: &mut String, n: usize)
    ensures
        final(out)@ == old(out)@ + tabs(n as nat),
{
    let mut i: usize = 0;
    while i < n
        invariant
            i <= n,
            out@ == old(out)@ + tabs(i as nat),
        decreases n - i,
    {
        out.push('\t');
        i += 1;
    }
}

} // verus!
