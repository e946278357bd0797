use vstd::prelude::*;

verus! {

/// The digit for `d` in base 16, lower case (`d` below 16).
pub open spec fn hex_digit_char(d: int) -> char {
    if d < 10 {
        ((0x30 + d) as u8) as char
    } else {
        ((0x61 + d - 10) as u8) as char
    }
}

/// `n` in base 16, lower case, without leading zeros (`0` for zero).
pub open spec fn hex_text(n: nat) -> Seq<char>
    decreases n,
{
    if n < 16 {
        seq![hex_digit_char(n as int)]
    } else {
        hex_text(n / 16).push(hex_digit_char((n % 16) as int))
    }
}

/// `n` in base 10, without leading zeros (`0` for zero).
pub open spec fn decimal_text(n: nat) -> Seq<char>
    decreases n,
{
    if n < 10 {
        seq![hex_digit_char(n as int)]
    } else {
        decimal_text(n / 10).push(hex_digit_char((n % 10) as int))
    }
}

/// The name that a character's code goes by: `0x` and its code in lower-case base 16.
pub open spec fn code_name(c: char) -> Seq<char> {
    seq!['0', 'x'] + hex_text(c as u32 as nat)
}

fn digit_char(d: u32) -> (r: char)
    requires
        d < 16,
    ensures
        r == hex_digit_char(d as int),
{
    if d < 10 {
        (0x30u8 + d as u8) as char
    } else {
        (0x61u8 + (d as u8 - 10)) as char
    }
}

fn push_hex(n: u32, out: &mut Vec<char>)
    ensures
        final(out)@ == old(out)@ + hex_text(n as nat),
    decreases n,
{
    if n >= 16 {
        push_hex(n / 16, out);
    }
    out.push(digit_char(n % 16));
}

fn push_decimal(n: u32, out: &mut Vec<char>)
    ensures
        final(out)@ == old(out)@ + decimal_text(n as nat),
    decreases n,
{
    if n >= 10 {
        push_decimal(n / 10, out);
    }
    out.push(digit_char(n % 10));
}

/// Relies on std's `String::from_iter` over `&char`: the string of those characters.
#[verifier::external_body]
fn string_from_chars(chars: &Vec<char>) -> (r: String)
    ensures
        r@ == chars@,
{
    String::from_iter(chars.iter())
}

/// `n` written in base 10.
pub fn decimal_string(n: u32) -> (r: String)
    ensures
        r@ == decimal_text(n as nat),
{
    let mut out: Vec<char> = Vec::new();
    push_decimal(n, &mut out);
    string_from_chars(&out)
}

/// The name of a character's code: `0x` and the code in lower-case base 16, as
/// `format!("0x{:x}", c as u32)` writes it.
pub fn code_string(c: char) -> (r: String)
    ensures
        r@ == code_name(c),
{
    let mut out: Vec<char> = Vec::new();
    out.push('0');
    out.push('x');
    push_hex(c as u32, &mut out);
    string_from_chars(&out)
}

} // verus!
