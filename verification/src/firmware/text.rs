//! The fixed-capacity strings and byte buffers of the `heapless` crate that the
//! firmware keeps its texts and wire frames in, seen as the bytes they hold.
use vstd::prelude::*;
use vstd::string::StringSliceAdditionalSpecFns;

verus! {

#[verifier::external_type_specification]
#[verifier::external_body]
pub struct ExHeaplessString<const N: usize>(heapless::String<N>);

#[verifier::external_type_specification]
#[verifier::external_body]
#[verifier::reject_recursive_types(T)]
pub struct ExHeaplessVec<T, const N: usize>(heapless::Vec<T, N>);

/// The UTF-8 bytes held by a Grocycode string (capacity 20).
pub uninterp spec fn code_bytes(s: heapless::String<20>) -> Seq<u8>;

/// The UTF-8 bytes held by a product-name string (capacity 32).
pub uninterp spec fn name_bytes(s: heapless::String<32>) -> Seq<u8>;

/// The bytes held by a configuration wire buffer (capacity 61).
pub uninterp spec fn wire_bytes(v: heapless::Vec<u8, 61>) -> Seq<u8>;

/// `heapless::String::<20>::new`: an empty string.
#[verifier::external_body]
pub(crate) fn code_new() -> (r: heapless::String<20>)
    ensures
        code_bytes(r) == Seq::<u8>::empty(),
{
    heapless::String::new()
}

/// `heapless::String::<20>::push_str`: appends the bytes of `t` when they fit
/// in the capacity, and otherwise fails and leaves the string as it was.
#[verifier::external_body]
pub(crate) fn code_push_str(s: &mut heapless::String<20>, t: &str) -> (r: Result<(), ()>)
    ensures
        (code_bytes(*old(s)).len() + t.spec_bytes().len() <= 20) == (r is Ok),
        r is Ok ==> code_bytes(*final(s)) == code_bytes(*old(s)) + t.spec_bytes(),
        r is Err ==> code_bytes(*final(s)) == code_bytes(*old(s)),
{
    s.push_str(t)
}

/// `heapless::String::<20>::as_str`: the held text, at most 20 bytes long.
#[verifier::external_body]
pub(crate) fn code_as_str(s: &heapless::String<20>) -> (r: &str)
    ensures
        r.spec_bytes() == code_bytes(*s),
        r.spec_bytes().len() <= 20,
{
    s.as_str()
}

/// `==` on two `heapless::String<20>`: equal exactly when they hold the same bytes.
#[verifier::external_body]
pub(crate) fn code_eq(a: &heapless::String<20>, b: &heapless::String<20>) -> (r: bool)
    ensures
        r == (code_bytes(*a) == code_bytes(*b)),
{
    a == b
}

/// `heapless::String::<32>::new`: an empty string.
#[verifier::external_body]
pub(crate) fn name_new() -> (r: heapless::String<32>)
    ensures
        name_bytes(r) == Seq::<u8>::empty(),
{
    heapless::String::new()
}

/// `heapless::String::<32>::push_str`: appends the bytes of `t` when they fit
/// in the capacity, and otherwise fails and leaves the string as it was.
#[verifier::external_body]
pub(crate) fn name_push_str(s: &mut heapless::String<32>, t: &str) -> (r: Result<(), ()>)
    ensures
        (name_bytes(*old(s)).len() + t.spec_bytes().len() <= 32) == (r is Ok),
        r is Ok ==> name_bytes(*final(s)) == name_bytes(*old(s)) + t.spec_bytes(),
        r is Err ==> name_bytes(*final(s)) == name_bytes(*old(s)),
{
    s.push_str(t)
}

/// `heapless::String::<32>::as_str`: the held text, at most 32 bytes long.
#[verifier::external_body]
pub(crate) fn name_as_str(s: &heapless::String<32>) -> (r: &str)
    ensures
        r.spec_bytes() == name_bytes(*s),
        r.spec_bytes().len() <= 32,
{
    s.as_str()
}

/// `==` on two `heapless::String<32>`: equal exactly when they hold the same bytes.
#[verifier::external_body]
pub(crate) fn name_eq(a: &heapless::String<32>, b: &heapless::String<32>) -> (r: bool)
    ensures
        r == (name_bytes(*a) == name_bytes(*b)),
{
    a == b
}

/// `heapless::Vec::<u8, 61>::new`: an empty buffer.
#[verifier::external_body]
pub(crate) fn wire_new() -> (r: heapless::Vec<u8, 61>)
    ensures
        wire_bytes(r) == Seq::<u8>::empty(),
{
    heapless::Vec::new()
}

/// `heapless::Vec::<u8, 61>::push`: appends `b` when there is room, and
/// otherwise hands it back and leaves the buffer as it was.
#[verifier::external_body]
pub(crate) fn wire_push(v: &mut heapless::Vec<u8, 61>, b: u8) -> (r: Result<(), u8>)
    ensures
        (wire_bytes(*old(v)).len() < 61) == (r is Ok),
        r is Ok ==> wire_bytes(*final(v)) == wire_bytes(*old(v)).push(b),
        r is Err ==> wire_bytes(*final(v)) == wire_bytes(*old(v)),
        (r matches Err(x) ==> x == b),
{
    v.push(b)
}

/// `heapless::Vec::<u8, 61>::extend_from_slice`: appends all of `s` when it
/// fits, and otherwise fails and leaves the buffer as it was.
#[verifier::external_body]
pub(crate) fn wire_extend(v: &mut heapless::Vec<u8, 61>, s: &[u8]) -> (r: Result<(), ()>)
    ensures
        (wire_bytes(*old(v)).len() + s@.len() <= 61) == (r is Ok),
        r is Ok ==> wire_bytes(*final(v)) == wire_bytes(*old(v)) + s@,
        r is Err ==> wire_bytes(*final(v)) == wire_bytes(*old(v)),
{
    v.extend_from_slice(s)
}

/// `heapless::Vec::<u8, 61>::as_slice`: the bytes the buffer holds, never more
/// than its capacity.
#[verifier::external_body]
pub(crate) fn wire_as_slice(v: &heapless::Vec<u8, 61>) -> (r: &[u8])
    ensures
        r@ == wire_bytes(*v),
        r@.len() <= 61,
{
    v.as_slice()
}

/// `core::str::from_utf8`: the bytes as text exactly when they are valid UTF-8.
#[verifier::external_body]
pub(crate) fn utf8_text(b: &[u8]) -> (r: Option<&str>)
    ensures
        r is Some <==> vstd::utf8::valid_utf8(b@),
        (r matches Some(s) ==> s.spec_bytes() == b@),
{
    core::str::from_utf8(b).ok()
}

/// `Clone::clone` of a `heapless::String<N>` (a copy of the held bytes; nothing
/// about the copy is stated here).
pub assume_specification<const N: usize>[ <heapless::String<N> as Clone>::clone ](
    s: &heapless::String<N>,
) -> heapless::String<N>;

} // verus!
