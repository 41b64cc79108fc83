//! Unicode identifier character classes (UAX #31), as given by `unicode-xid`.
use unicode_xid::UnicodeXID;
use vstd::prelude::*;

verus! {

/// What the `XID_Start` table of `unicode-xid` holds for a character.
pub uninterp spec fn xid_start_table(c: char) -> bool;

/// What the `XID_Continue` table of `unicode-xid` holds for a character.
pub uninterp spec fn xid_continue_table(c: char) -> bool;

pub open spec fn is_ascii_letter(c: char) -> bool {
    ('a' <= c && c <= 'z') || ('A' <= c && c <= 'Z')
}

pub open spec fn is_ascii_digit(c: char) -> bool {
    '0' <= c && c <= '9'
}

/// The `XID_Start` property.
pub open spec fn xid_start(c: char) -> bool {
    is_ascii_letter(c) || ((c as u32) > 0x7f && xid_start_table(c))
}

/// The `XID_Continue` property.
pub open spec fn xid_continue(c: char) -> bool {
    is_ascii_letter(c) || is_ascii_digit(c) || c == '_' || ((c as u32) > 0x7f
        && xid_continue_table(c))
}

/// Relies on `UnicodeXID::is_xid_start` for `char`: ASCII letters are
/// checked directly, other ASCII characters are not in the class, and the rest
/// are looked up in the crate's `XID_Start` table.
#[verifier::external_body]
pub(crate) fn is_xid_start(c: char) -> (r: bool)
    ensures
        r == (is_ascii_letter(c) || ((c as u32) > 0x7f && xid_start_table(c))),
{
    c.is_xid_start()
}

/// Relies on `UnicodeXID::is_xid_continue` for `char`: ASCII letters, digits
/// and `_` are checked directly, other ASCII characters are not in the class,
/// and the rest are looked up in the crate's `XID_Continue` table.
#[verifier::external_body]
pub(crate) fn is_xid_continue(c: char) -> (r: bool)
    ensures
        r == (is_ascii_letter(c) || is_ascii_digit(c) || c == '_' || ((c as u32) > 0x7f
            && xid_continue_table(c))),
{
    c.is_xid_continue()
}

} // verus!
