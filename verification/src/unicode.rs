//! Identifier classes of Unicode, taken from the `unic-ucd-ident` tables.

use crate::text::is_ascii_digit;
use vstd::prelude::*;

verus! {

/// Whether `c` has the Unicode property ID_Start.
pub uninterp spec fn id_start(c: char) -> bool;

/// Whether `c` has the Unicode property ID_Continue.
pub uninterp spec fn id_continue(c: char) -> bool;

/// Whether `c` is one of the 52 ASCII letters.
pub open spec fn is_ascii_letter(c: char) -> bool {
    ('a' <= c <= 'z') || ('A' <= c <= 'Z')
}

/// Calls `unic_ucd_ident::is_id_start`, a lookup in a fixed table. The
/// result is given its name; of the table it is claimed only that, below
/// U+0080, it holds the letters `A` to `Z` and `a` to `z` and nothing
/// else, which are its first two rows.
#[verifier::external_body]
pub(crate) fn is_id_start(c: char) -> (r: bool)
    ensures
        r == id_start(c),
        (c as u32) < 128 ==> r == is_ascii_letter(c),
{
    unic_ucd_ident::is_id_start(c)
}

/// Calls `unic_ucd_ident::is_id_continue`, a lookup in a fixed table. The
/// result is given its name; of the table it is claimed only that, below
/// U+0080, it holds the digits, the letters `A` to `Z` and `a` to `z`, and
/// the underscore, and nothing else, which are its first four rows.
#[verifier::external_body]
pub(crate) fn is_id_continue(c: char) -> (r: bool)
    ensures
        r == id_continue(c),
        (c as u32) < 128 ==> r == (is_ascii_letter(c) || is_ascii_digit(c) || c == '_'),
{
    unic_ucd_ident::is_id_continue(c)
}

} // verus!
