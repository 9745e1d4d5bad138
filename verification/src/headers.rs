//! Header collections and case-insensitive header names.
//!
//! HTTP header names compare case-insensitively (ASCII case), so a
//! caller-supplied `Content-Type` header overrides an encoding-derived
//! `content-type` default. Names compare by their UTF-8 bytes with ASCII
//! letters folded to lower case.

use vstd::prelude::*;
use vstd::utf8::encode_utf8;

verus! {

/// An ASCII upper-case letter folded to lower case; every other byte is
/// itself.
pub open spec fn lower_byte(b: u8) -> u8 {
    if 65 <= b <= 90 {
        (b + 32) as u8
    } else {
        b
    }
}

/// Byte sequences equal up to ASCII case.
pub open spec fn bytes_eq_ci(a: Seq<u8>, b: Seq<u8>) -> bool {
    a.len() == b.len() && forall|i: int| 0 <= i < a.len() ==> lower_byte(a[i]) == lower_byte(b[i])
}

/// Header names equal up to ASCII case of their UTF-8 bytes.
pub open spec fn header_names_match(a: Seq<char>, b: Seq<char>) -> bool {
    bytes_eq_ci(encode_utf8(a), encode_utf8(b))
}

/// Whether some header in the collection carries the given name, up to ASCII
/// case.
pub open spec fn spec_has_header_name(headers: Seq<(String, String)>, name: Seq<char>) -> bool {
    exists|i: int| 0 <= i < headers.len() && header_names_match(headers[i].0@, name)
}

fn lower_byte_exec(b: u8) -> (r: u8)
    ensures
        r == lower_byte(b),
{
    if 65 <= b && b <= 90 {
        b + 32
    } else {
        b
    }
}

/// Compares two header names, ignoring ASCII case.
pub fn header_names_equal(a: &String, b: &String) -> (r: bool)
    ensures
        r == header_names_match(a@, b@),
{
    let ab = a.as_str().as_bytes_vec();
    let bb = b.as_str().as_bytes_vec();
    if ab.len() != bb.len() {
        return false;
    }
    let n = ab.len();
    let mut i: usize = 0;
    while i < n
        invariant
            n == ab@.len() == bb@.len(),
            ab@ == encode_utf8(a@),
            bb@ == encode_utf8(b@),
            i <= n,
            forall|k: int| 0 <= k < i ==> lower_byte(ab@[k]) == lower_byte(bb@[k]),
        decreases n - i,
    {
        if lower_byte_exec(ab[i]) != lower_byte_exec(bb[i]) {
            return false;
        }
        i = i + 1;
    }
    true
}

/// Whether the collection carries a header of the given name, up to ASCII
/// case.
pub fn has_header_name(headers: &Vec<(String, String)>, name: &String) -> (r: bool)
    ensures
        r == spec_has_header_name(headers@, name@),
{
    let n = headers.len();
    let mut i: usize = 0;
    while i < n
        invariant
            n == headers@.len(),
            i <= n,
            forall|k: int| 0 <= k < i ==> !header_names_match(headers@[k].0@, name@),
        decreases n - i,
    {
        let e = &headers[i];
        if header_names_equal(&e.0, name) {
            return true;
        }
        i = i + 1;
    }
    false
}

} // verus!
