use vstd::prelude::*;

verus! {

/// Whether a text is the textual form of a principal: base32 with dashes in
/// groups of five, a matching CRC-32 check sequence, at most 29 bytes of data.
pub uninterp spec fn principal_valid(s: Seq<char>) -> bool;

/// Relies on `candid::Principal::from_text`: it succeeds exactly on valid
/// principal texts, and its answer depends on the text alone.
#[verifier::external_body]
pub(crate) fn is_principal_text(s: &str) -> (r: bool)
    ensures
        r == principal_valid(s@),
{
    candid::Principal::from_text(s).is_ok()
}

/// Whether `s` names a principal.
pub fn check_principal(s: &String) -> (r: bool)
    ensures
        r == principal_valid(s@),
{
    is_principal_text(s.as_str())
}

} // verus!
