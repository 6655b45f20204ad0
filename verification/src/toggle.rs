//! The switch that turns reconciliation off.

use vstd::prelude::*;
use vstd::string::*;

verus! {

/// `c` is the ASCII letter `lower` in either case.
pub open spec fn letter(c: char, lower: char, upper: char) -> bool {
    c == lower || c == upper
}

/// A value that switches migrations off: `1`, or `true` in any mix of upper
/// and lower case.
pub open spec fn truthy(value: Seq<char>) -> bool {
    ||| (value.len() == 1 && value[0] == '1')
    ||| (value.len() == 4 && letter(value[0], 't', 'T') && letter(value[1], 'r', 'R') && letter(
        value[2],
        'u',
        'U',
    ) && letter(value[3], 'e', 'E'))
}

/// Whether the toggle asks to skip the migrations. `value` is what the
/// toggle is set to, or `None` where it is not set.
pub fn skip_requested(value: Option<&str>) -> (skip: bool)
    ensures
        skip == (match value {
            Some(text) => truthy(text@),
            None => false,
        }),
{
    match value {
        None => false,
        Some(text) => {
            let n: usize = text.unicode_len();
            if n == 1 {
                text.get_char(0) == '1'
            } else if n == 4 {
                let c0 = text.get_char(0);
                let c1 = text.get_char(1);
                let c2 = text.get_char(2);
                let c3 = text.get_char(3);
                (c0 == 't' || c0 == 'T') && (c1 == 'r' || c1 == 'R') && (c2 == 'u' || c2 == 'U') && (c3
                    == 'e' || c3 == 'E')
            } else {
                false
            }
        },
    }
}

} // verus!
