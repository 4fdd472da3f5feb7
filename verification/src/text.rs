//! Strings from bytes and numbers.
//!
//! The two functions that make a `String` are not proved: each makes one
//! call into `std` and states what that call returns.

use vstd::prelude::*;
use vstd::utf8::{decode_utf8, valid_utf8};

verus! {

/// The character that stands for a digit.
pub open spec fn digit_char(d: nat) -> char
    recommends
        d < 10,
{
    ((48 + d) as u8) as char
}

/// `n` written in decimal, without leading zeros.
pub open spec fn decimal(n: nat) -> Seq<char>
    decreases n,
{
    if n < 10 {
        seq![digit_char(n)]
    } else {
        decimal(n / 10).push(digit_char(n % 10))
    }
}

/// The name of the file that holds the binary buffer number `idx`.
pub open spec fn buffer_file_name(idx: nat) -> Seq<char> {
    "buffer"@ + decimal(idx) + ".bin"@
}

/// `String::from_utf8`: the text that the bytes encode, or nothing where
/// they are not valid UTF-8.
#[verifier::external_body]
pub(crate) fn string_from_utf8(bytes: Vec<u8>) -> (r: Option<String>)
    ensures
        valid_utf8(bytes@) ==> r is Some && r->Some_0@ == decode_utf8(bytes@),
        !valid_utf8(bytes@) ==> r is None,
{
    String::from_utf8(bytes).ok()
}

/// `format!` with a number between two literals: "buffer", the number in
/// decimal, ".bin".
#[verifier::external_body]
pub(crate) fn format_buffer_file_name(idx: usize) -> (s: String)
    ensures
        s@ == buffer_file_name(idx as nat),
{
    format!("buffer{}.bin", idx)
}

} // verus!
