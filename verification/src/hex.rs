//! Bytes written as text, two lower-case hexadecimal digits each.

use vstd::prelude::*;

verus! {

/// The digit for a number below sixteen.
pub open spec fn hex_digit(n: int) -> char {
    seq!['0', '1', '2', '3', '4', '5', '6', '7', '8', '9', 'a', 'b', 'c', 'd', 'e', 'f'][n]
}

/// The text that writes each byte of `data` as two digits, the high half
/// first.
pub open spec fn hex_lower(data: Seq<u8>) -> Seq<char> {
    Seq::new(
        2 * data.len(),
        |i: int|
            if i % 2 == 0 {
                hex_digit(data[i / 2] as int / 16)
            } else {
                hex_digit(data[i / 2] as int % 16)
            },
    )
}

/// Calls `ckb_std::high_level::encode_hex`. Trusted: it formats every byte
/// with `{:02x}`, which is two lower-case hexadecimal digits, and appends
/// nothing else. Its text of twice the length is taken to fit in memory, as
/// every allocation is.
#[verifier::external_body]
pub(crate) fn encode_hex(data: &[u8]) -> (text: String)
    ensures
        text@ == hex_lower(data@),
{
    ckb_std::high_level::encode_hex(data).into_string().unwrap()
}

} // verus!
