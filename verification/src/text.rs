//! Numbers as text.

use vstd::prelude::*;
use vstd::string::*;

verus! {

/// The text of a digit below sixteen, in lower case.
pub open spec fn digit_text(digit: nat) -> Seq<char> {
    if digit == 0 {
        "0"@
    } else if digit == 1 {
        "1"@
    } else if digit == 2 {
        "2"@
    } else if digit == 3 {
        "3"@
    } else if digit == 4 {
        "4"@
    } else if digit == 5 {
        "5"@
    } else if digit == 6 {
        "6"@
    } else if digit == 7 {
        "7"@
    } else if digit == 8 {
        "8"@
    } else if digit == 9 {
        "9"@
    } else if digit == 10 {
        "a"@
    } else if digit == 11 {
        "b"@
    } else if digit == 12 {
        "c"@
    } else if digit == 13 {
        "d"@
    } else if digit == 14 {
        "e"@
    } else {
        "f"@
    }
}

/// The text of a number in the given base, without leading zeros.
pub open spec fn number_text(x: nat, base: nat) -> Seq<char>
    decreases x,
    via number_text_decreases
{
    if x < base || base < 2 {
        digit_text(x)
    } else {
        number_text(x / base, base) + digit_text(x % base)
    }
}

#[via_fn]
proof fn number_text_decreases(x: nat, base: nat) {
    if !(x < base || base < 2) {
        lemma_quotient_smaller(x, base);
    }
}

/// A number divided by two or more gives less than the number.
proof fn lemma_quotient_smaller(x: nat, base: nat)
    requires
        base >= 2,
        x >= base,
    ensures
        x / base < x,
{
    assert(x / base < x) by (nonlinear_arith)
        requires
            base >= 2,
            x >= base,
    ;
}

/// The text of a number in the given base with exactly `width` digits, the
/// most significant digits cut off or zeros put in front as needed.
pub open spec fn padded_text(x: nat, base: nat, width: nat) -> Seq<char>
    decreases width,
{
    if width == 0 || base < 2 {
        Seq::empty()
    } else {
        padded_text(x / base, base, (width - 1) as nat) + digit_text(x % base)
    }
}

/// The text of a number as the format `{}` writes it.
pub open spec fn decimal_text(x: nat) -> Seq<char> {
    number_text(x, 10)
}

/// The text of a number as the format `{:x}` writes it.
pub open spec fn hex_text(x: nat) -> Seq<char> {
    number_text(x, 16)
}

/// The text of a 32-bit number as the format `0x{:08x}` writes it.
pub open spec fn address_text(x: u32) -> Seq<char> {
    "0x"@ + padded_text(x as nat, 16, 8)
}

/// The text of a digit below sixteen.
fn digit_str(digit: u64) -> (r: &'static str)
    requires
        digit < 16,
    ensures
        r@ == digit_text(digit as nat),
{
    match digit {
        0 => "0",
        1 => "1",
        2 => "2",
        3 => "3",
        4 => "4",
        5 => "5",
        6 => "6",
        7 => "7",
        8 => "8",
        9 => "9",
        10 => "a",
        11 => "b",
        12 => "c",
        13 => "d",
        14 => "e",
        _ => "f",
    }
}

/// Writes a number in base 10 or 16 at the end of a string.
pub fn push_number(out: &mut String, x: u64, base: u64)
    requires
        base == 10 || base == 16,
    ensures
        final(out)@ == old(out)@ + number_text(x as nat, base as nat),
    decreases x,
{
    if x >= base {
        proof {
            lemma_quotient_smaller(x as nat, base as nat);
        }
        push_number(out, x / base, base);
    }
    out.append(digit_str(x % base));
    proof {
        assert(old(out)@ + (number_text((x / base) as nat, base as nat) + digit_text(
            (x % base) as nat,
        )) =~= old(out)@ + number_text((x / base) as nat, base as nat) + digit_text(
            (x % base) as nat,
        ));
    }
}

/// Writes a number in base 16 with exactly `width` digits at the end of a
/// string.
pub fn push_padded_hex(out: &mut String, x: u64, width: usize)
    ensures
        final(out)@ == old(out)@ + padded_text(x as nat, 16, width as nat),
    decreases width,
{
    if width > 0 {
        push_padded_hex(out, x / 16, width - 1);
        out.append(digit_str(x % 16));
        proof {
            assert(old(out)@ + (padded_text((x / 16) as nat, 16, (width - 1) as nat) + digit_text(
                (x % 16) as nat,
            )) =~= old(out)@ + padded_text((x / 16) as nat, 16, (width - 1) as nat) + digit_text(
                (x % 16) as nat,
            ));
        }
    } else {
        proof {
            assert(old(out)@ + Seq::<char>::empty() =~= old(out)@);
        }
    }
}

/// Writes a 32-bit number as `0x` and eight digits at the end of a string.
pub fn push_address(out: &mut String, x: u32)
    ensures
        final(out)@ == old(out)@ + address_text(x),
{
    out.append("0x");
    push_padded_hex(out, x as u64, 8);
    proof {
        assert(old(out)@ + ("0x"@ + padded_text(x as nat, 16, 8)) =~= old(out)@ + "0x"@
            + padded_text(x as nat, 16, 8));
    }
}

/// `String::push`: puts a character at the end of a string.
#[verifier::external_body]
fn push_char(out: &mut String, c: char)
    ensures
        final(out)@ == old(out)@.push(c),
{
    out.push(c);
}

/// The text that stands for a byte in a listing: the character itself if
/// it is a printable ASCII character other than a quote or a backslash; `\t`,
/// `\r` and `\n` for tab, carriage return and line feed; a backslash and
/// the character for a quote or a backslash; and else `\u{`, the number of
/// the byte in hexadecimal, and `}`.
pub open spec fn escaped_text(byte: u8) -> Seq<char> {
    if byte == 0x09 {
        "\\t"@
    } else if byte == 0x0d {
        "\\r"@
    } else if byte == 0x0a {
        "\\n"@
    } else if byte == 0x27 {
        "\\'"@
    } else if byte == 0x22 {
        "\\\""@
    } else if byte == 0x5c {
        "\\\\"@
    } else if 0x20 <= byte <= 0x7e {
        seq![byte as char]
    } else {
        "\\u{"@ + hex_text(byte as nat) + "}"@
    }
}

/// The text that stands for a string of bytes in a listing.
pub open spec fn escaped(bytes: Seq<u8>) -> Seq<char>
    decreases bytes.len(),
{
    if bytes.len() == 0 {
        Seq::empty()
    } else {
        escaped(bytes.drop_last()) + escaped_text(bytes.last())
    }
}

/// Writes the text that stands for a byte at the end of a string.
pub fn push_escaped(out: &mut String, byte: u8)
    ensures
        final(out)@ == old(out)@ + escaped_text(byte),
{
    if byte == 0x09 {
        out.append("\\t");
    } else if byte == 0x0d {
        out.append("\\r");
    } else if byte == 0x0a {
        out.append("\\n");
    } else if byte == 0x27 {
        out.append("\\'");
    } else if byte == 0x22 {
        out.append("\\\"");
    } else if byte == 0x5c {
        out.append("\\\\");
    } else if 0x20 <= byte && byte <= 0x7e {
        push_char(out, byte as char);
        proof {
            assert(old(out)@.push(byte as char) =~= old(out)@ + seq![byte as char]);
        }
    } else {
        let mut code = String::from_str("\\u{");
        push_number(&mut code, byte as u64, 16);
        code.append("}");
        out.append(code.as_str());
    }
}

/// The text that stands for a string of bytes in a listing.
pub fn escape(bytes: &[u8]) -> (r: String)
    ensures
        r@ == escaped(bytes@),
{
    let mut out = String::new();
    let mut i: usize = 0;
    while i < bytes.len()
        invariant
            i <= bytes.len(),
            out@ == escaped(bytes@.take(i as int)),
        decreases bytes.len() - i,
    {
        proof {
            assert(bytes@.take(i + 1).drop_last() =~= bytes@.take(i as int));
            assert(bytes@.take(i + 1).last() == bytes@[i as int]);
        }
        push_escaped(&mut out, bytes[i]);
        i += 1;
    }
    proof {
        assert(bytes@.take(bytes@.len() as int) =~= bytes@);
    }
    out
}

/// The text of a number as the format `{}` writes it.
pub fn decimal(x: u64) -> (r: String)
    ensures
        r@ == decimal_text(x as nat),
{
    let mut out = String::new();
    push_number(&mut out, x, 10);
    proof {
        assert(Seq::<char>::empty() + decimal_text(x as nat) =~= decimal_text(x as nat));
    }
    out
}

} // verus!
