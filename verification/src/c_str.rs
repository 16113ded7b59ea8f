//! Borrowed C strings, as `cstr_core` provides them.

use cstr_core::CStr;
use vstd::prelude::*;

verus! {

/// `cstr_core::CStr`: a borrowed C string. Nothing is known of a value but what
/// [`c_str_bytes`] says.
#[verifier::external_type_specification]
#[verifier::external_body]
pub struct ExCStr(cstr_core::CStr);

/// The bytes of a C string, from its first byte up to the terminating NUL, which is not part of
/// them.
pub uninterp spec fn c_str_bytes(s: &CStr) -> Seq<u8>;

/// `CStr::to_bytes`: the slice it returns holds the bytes of the string, without the
/// terminating NUL. This is not proved here.
#[verifier::external_body]
pub(crate) fn c_str_to_bytes<'a>(s: &'a CStr) -> (bytes: &'a [u8])
    ensures
        bytes@ == c_str_bytes(s),
{
    s.to_bytes()
}

} // verus!
