use vstd::prelude::*;

verus! {

/// Relies on String::from_utf8: a buffer of bytes below 128 is valid UTF-8 and
/// decodes to exactly those characters, one character per byte.
#[verifier::external_body]
pub fn ascii_to_string(bytes: Vec<u8>) -> (r: String)
    requires
        forall|i: int| 0 <= i < bytes@.len() ==> bytes@[i] < 128,
    ensures
        r@.len() == bytes@.len(),
        forall|i: int| 0 <= i < bytes@.len() ==> r@[i] == bytes@[i] as char,
{
    match String::from_utf8(bytes) {
        Ok(s) => s,
        Err(_) => String::new(),
    }
}

} // verus!
