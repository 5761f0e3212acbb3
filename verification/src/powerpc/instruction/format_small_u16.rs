use vstd::prelude::*;
use vstd::string::*;

use crate::text::decimal_text;
use crate::text::hex_text;
use crate::text::push_number;

verus! {

/// A 16-bit unsigned number that is written in decimal if it has one digit,
/// and in hexadecimal if not.
pub struct FormatSmallU16(pub u16);

impl FormatSmallU16 {
    /// The text of the number: a number above 9 as `0x` and its hexadecimal
    /// digits, any other in decimal.
    pub open spec fn text(&self) -> Seq<char> {
        if self.0 > 9 {
            "0x"@ + hex_text(self.0 as nat)
        } else {
            decimal_text(self.0 as nat)
        }
    }

    pub fn to_string(&self) -> (r: String)
        ensures
            r@ == self.text(),
    {
        if self.0 > 9 {
            let mut out = String::from_str("0x");
            push_number(&mut out, self.0 as u64, 16);
            out
        } else {
            let mut out = String::new();
            push_number(&mut out, self.0 as u64, 10);
            proof {
                assert(Seq::<char>::empty() + decimal_text(self.0 as nat) =~= decimal_text(
                    self.0 as nat,
                ));
            }
            out
        }
    }
}

} // verus!
