//! Padding of hexadecimal texts to an even number of digits.

use vstd::prelude::*;
use vstd::string::{StrSliceExecFns, StringExecFns};

verus! {

/// Prepends one `'0'` to a hexadecimal text of odd length; a text of even
/// length (the empty one included) is returned unchanged.
pub fn maybe_add_padding(hex: String) -> (r: String)
    ensures
        hex@.len() % 2 == 1 ==> r@ == seq!['0'] + hex@,
        hex@.len() % 2 == 0 ==> r@ == hex@,
{
    let n = hex.as_str().unicode_len();
    if n % 2 != 0 {
        let mut padded = String::from_str("0");
        proof {
            reveal_strlit("0");
            assert(padded@ =~= seq!['0']);
        }
        padded.append(hex.as_str());
        padded
    } else {
        hex
    }
}

} // verus!
