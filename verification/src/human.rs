//! Human-readable byte sizes, as the `humansize` crate writes them.
use vstd::prelude::*;

use humansize::file_size_opts;
use humansize::FileSize;

use crate::text::{decimal, ends_with};

verus! {

/// The text that `humansize` 1.x (`FileSize::file_size` with `file_size_opts::DECIMAL`) writes for
/// `bytes`: the size scaled by powers of 1000 to below 1000, with two decimal places unless it is
/// whole, a space and the unit.
pub uninterp spec fn decimal_file_size(bytes: u64) -> Seq<char>;

/// Whether `s` ends with one of the decimal units above bytes, with its leading space.
pub open spec fn ends_with_large_unit(s: Seq<char>) -> bool {
    ||| ends_with(s, seq![' ', 'K', 'B'])
    ||| ends_with(s, seq![' ', 'M', 'B'])
    ||| ends_with(s, seq![' ', 'G', 'B'])
    ||| ends_with(s, seq![' ', 'T', 'B'])
    ||| ends_with(s, seq![' ', 'P', 'B'])
    ||| ends_with(s, seq![' ', 'E', 'B'])
}

/// `bytes` in decimal units (`humansize::FileSize::file_size` with `file_size_opts::DECIMAL`).
///
/// The contract names the text and states what the crate's source shows of it: below 1000 it is
/// the number followed by `" B"`; from 1000 on it ends with a larger unit; it is ASCII and at
/// most ten characters long (a number below 1000 rounded to two places, a space, a unit). The
/// digits for sizes from 1000 on come from floating-point formatting and are not stated.
#[verifier::external_body]
pub(crate) fn human_size(bytes: u64) -> (r: String)
    ensures
        r@ == decimal_file_size(bytes),
        bytes < 1000 ==> r@ == decimal(bytes as nat) + seq![' ', 'B'],
        bytes >= 1000 ==> ends_with_large_unit(r@),
        vstd::utf8::is_ascii_chars(r@),
        r@.len() <= 10,
{
    bytes.file_size(file_size_opts::DECIMAL).unwrap()
}

/// A signed size in decimal units (`humansize::FileSize::file_size` on an `i64` with
/// `file_size_opts::DECIMAL` allowing negative values): a minus sign for negative values followed
/// by the text for the magnitude.
#[verifier::external_body]
pub(crate) fn human_size_signed(n: i64) -> (r: String)
    requires
        n > i64::MIN,
    ensures
        r@ == (if n < 0 {
            seq!['-']
        } else {
            Seq::<char>::empty()
        }) + decimal_file_size((if n < 0 {
            -n
        } else {
            n as int
        }) as u64),
{
    let opts = file_size_opts::FileSizeOpts { allow_negative: true, ..file_size_opts::DECIMAL };
    n.file_size(opts).unwrap()
}

} // verus!
