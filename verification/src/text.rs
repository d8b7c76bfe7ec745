//! Small pieces of text: characters appended to a string, decimal numbers and
//! hexadecimal bytes.
use vstd::prelude::*;

verus! {

/// `String::push` appends one character to the end of the string.
pub assume_specification[ String::push ](s: &mut String, ch: char)
    ensures
        final(s)@ == old(s)@.push(ch),
;

/// The decimal digit for a value below ten.
pub open spec fn digit_char(value: nat) -> char {
    (0x30 + value) as char
}

/// A natural number in decimal, without leading zeros.
pub open spec fn decimal_text(n: nat) -> Seq<char>
    decreases n,
{
    if n < 10 {
        seq![digit_char(n)]
    } else {
        decimal_text(n / 10).push(digit_char(n % 10))
    }
}

/// Writes a number in decimal.
pub fn decimal(n: u64) -> (text: String)
    ensures
        text@ == decimal_text(n as nat),
    decreases n,
{
    let last: u8 = (n % 10) as u8;
    let mut text = if n < 10 {
        String::new()
    } else {
        decimal(n / 10)
    };
    text.push((0x30u8 + last) as char);
    text
}

/// The upper-case hexadecimal digit for a value below sixteen.
pub open spec fn hex_char(value: nat) -> char {
    if value < 10 {
        (0x30 + value) as char
    } else {
        (0x41 + value - 10) as char
    }
}

/// A byte as two upper-case hexadecimal digits.
pub open spec fn hex_pair(byte: u8) -> Seq<char> {
    seq![hex_char((byte / 16) as nat), hex_char((byte % 16) as nat)]
}

fn push_hex_digit(text: &mut String, value: u8)
    requires
        value < 16,
    ensures
        final(text)@ == old(text)@.push(hex_char(value as nat)),
{
    if value < 10 {
        text.push((0x30u8 + value) as char);
    } else {
        text.push((0x41u8 + (value - 10)) as char);
    }
}

/// Appends a byte as two upper-case hexadecimal digits.
pub fn push_hex(text: &mut String, byte: u8)
    ensures
        final(text)@ == old(text)@ + hex_pair(byte),
{
    push_hex_digit(text, byte / 16);
    push_hex_digit(text, byte % 16);
}

// ---------------------------------------------------------------------------
// Laws

/// The number that a text says in decimal.
pub open spec fn decimal_value(text: Seq<char>) -> int
    decreases text.len(),
{
    if text.len() == 0 {
        0
    } else {
        decimal_value(text.drop_last()) * 10 + (text.last() as u32 - '0' as u32)
    }
}

/// A number in decimal says the number, in digits alone and without leading zeros.
pub proof fn decimal_says_the_number(n: nat)
    ensures
        decimal_value(decimal_text(n)) == n,
        decimal_text(n).len() > 0,
        forall|i: int|
            0 <= i < decimal_text(n).len() ==> '0' as u32 <= #[trigger] decimal_text(n)[i] as u32
                && decimal_text(n)[i] as u32 <= '9' as u32,
        decimal_text(n)[0] == '0' ==> n == 0,
        n == 0 ==> decimal_text(n).len() == 1,
    decreases n,
{
    let text = decimal_text(n);
    if n < 10 {
        assert(text.drop_last() =~= seq![]);
        assert(decimal_value(text.drop_last()) == 0);
    } else {
        decimal_says_the_number(n / 10);
        assert(text.drop_last() =~= decimal_text(n / 10));
        assert(n == n / 10 * 10 + n % 10);
    }
}

/// The number that an upper-case hexadecimal digit says, if the character is one.
pub open spec fn hex_value(c: char) -> Option<int> {
    if '0' as u32 <= c as u32 && c as u32 <= '9' as u32 {
        Some(c as u32 - '0' as u32)
    } else if 'A' as u32 <= c as u32 && c as u32 <= 'F' as u32 {
        Some(c as u32 - 'A' as u32 + 10)
    } else {
        None
    }
}

/// A byte in hexadecimal is two upper-case digits that say the byte, the higher
/// one first.
pub proof fn hexadecimal_says_the_byte(byte: u8)
    ensures
        hex_pair(byte).len() == 2,
        hex_value(hex_pair(byte)[0]) matches Some(high) && (hex_value(hex_pair(byte)[1])
            matches Some(low) && 16 * high + low == byte),
{
}

} // verus!
