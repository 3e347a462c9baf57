//! Names for the character classes the scanner dispatches on, and
//! specifications for the few `std` functions the scanner calls that
//! `vstd` does not cover.
//!
//! Which characters count as whitespace, alphabetic or numeric is
//! decided by `std`'s Unicode tables; each class is therefore an
//! uninterpreted predicate, pinned to the corresponding `char` method.

use vstd::prelude::*;

verus! {

/// Whether `char::is_whitespace` holds of `c`: the Unicode
/// `White_Space` property.
pub uninterp spec fn ws_char(c: char) -> bool;

/// Whether `char::is_alphabetic` holds of `c`: the Unicode
/// `Alphabetic` property.
pub uninterp spec fn alpha_char(c: char) -> bool;

/// Whether `char::is_numeric` holds of `c`: the Unicode `Nd`, `Nl` or
/// `No` general category.
pub uninterp spec fn numeric_char(c: char) -> bool;

/// Relies on char::is_whitespace: true exactly on characters with the
/// Unicode `White_Space` property.
pub assume_specification[ char::is_whitespace ](c: char) -> (r: bool)
    ensures
        r == ws_char(c),
;

/// Relies on char::is_alphabetic: true exactly on characters with the
/// Unicode `Alphabetic` property.
pub assume_specification[ char::is_alphabetic ](c: char) -> (r: bool)
    ensures
        r == alpha_char(c),
;

/// Relies on char::is_numeric: true exactly on characters of the
/// Unicode `Nd`, `Nl` and `No` general categories.
pub assume_specification[ char::is_numeric ](c: char) -> (r: bool)
    ensures
        r == numeric_char(c),
;

/// Relies on char::is_alphanumeric, documented as satisfied exactly
/// when `is_alphabetic` or `is_numeric` is.
pub assume_specification[ char::is_alphanumeric ](c: char) -> (r: bool)
    ensures
        r == (alpha_char(c) || numeric_char(c)),
;

/// Relies on String::push: appends the given character to the end of
/// the string.
pub assume_specification[ String::push ](s: &mut String, ch: char)
    ensures
        final(s)@ == old(s)@.push(ch),
;

} // verus!
