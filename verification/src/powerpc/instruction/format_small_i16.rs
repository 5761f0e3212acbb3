use vstd::prelude::*;
use vstd::string::*;

use crate::text::decimal_text;
use crate::text::hex_text;
use crate::text::push_number;

verus! {

/// A 16-bit signed number that is written in decimal if it has one digit,
/// and in hexadecimal if not.
pub struct FormatSmallI16(pub i16);

impl FormatSmallI16 {
    /// The text of the number: a number above 9 as `0x` and its hexadecimal
    /// digits, a number from -9 to 9 in decimal, and a number below -9 as
    /// `-0x` and the hexadecimal digits of its absolute value.
    pub open spec fn text(&self) -> Seq<char> {
        if self.0 > 9 {
            "0x"@ + hex_text(self.0 as nat)
        } else if self.0 >= 0 {
            decimal_text(self.0 as nat)
        } else if self.0 >= -9 {
            "-"@ + decimal_text((-self.0) as nat)
        } else {
            "-0x"@ + hex_text((-self.0) as nat)
        }
    }

    pub fn to_string(&self) -> (r: String)
        ensures
            r@ == self.text(),
    {
        let value: i64 = self.0 as i64;
        if value > 9 {
            let mut out = String::from_str("0x");
            push_number(&mut out, value as u64, 16);
            out
        } else if value >= 0 {
            let mut out = String::new();
            push_number(&mut out, value as u64, 10);
            proof {
                assert(Seq::<char>::empty() + decimal_text(self.0 as nat) =~= decimal_text(
                    self.0 as nat,
                ));
            }
            out
        } else if value >= -9 {
            let mut out = String::from_str("-");
            push_number(&mut out, (-value) as u64, 10);
            out
        } else {
            let mut out = String::from_str("-0x");
            push_number(&mut out, (-value) as u64, 16);
            out
        }
    }
}

} // verus!
