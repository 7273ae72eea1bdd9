//! Grocycodes of Grocy products: `grcy-p-{product_id}`.
use vstd::prelude::*;
use vstd::string::StringSliceAdditionalSpecFns;
use crate::numeric_text::{
    decimal_digits, digits_value, lemma_decimal_digits_value, parse_u32, parse_u32_spec,
    unsigned_text_value,
};

verus! {

/// The bytes of `grcy-p-`, the prefix of every product Grocycode.
pub open spec fn grocycode_prefix() -> Seq<u8> {
    seq![103u8, 114u8, 99u8, 121u8, 45u8, 112u8, 45u8]
}

/// The product ID that a Grocycode names: the decimal number after `grcy-p-`,
/// read as `str::parse::<u32>` reads it; `None` for any other text.
pub open spec fn product_id_of(code: Seq<u8>) -> Option<u32> {
    if code.len() >= 7 && code.take(7) == grocycode_prefix() {
        parse_u32_spec(code.skip(7))
    } else {
        None
    }
}

/// The Grocycode of product `id`: `grcy-p-` followed by `id` in decimal.
pub open spec fn product_grocycode(id: nat) -> Seq<u8> {
    grocycode_prefix() + decimal_digits(id)
}

/// The text `grcy-p-`.
pub fn prefix_text() -> (r: &'static str)
    ensures
        r.spec_bytes() == grocycode_prefix(),
{
    broadcast use vstd::string::group_string_axioms;
    let r = "grcy-p-";
    proof {
        reveal_strlit("grcy-p-");
        assert(vstd::string::is_ascii(r));
        assert(r.spec_bytes() =~= grocycode_prefix());
    }
    r
}

/// The product ID named by the Grocycode `code`, if it is one.
pub fn product_id_from_code(code: &str) -> (r: Option<u32>)
    ensures
        r == product_id_of(code.spec_bytes()),
{
    let b = code.as_bytes();
    let n = b.len();
    if n < 7 {
        return None;
    }
    let p = prefix_text().as_bytes();
    let mut i: usize = 0;
    while i < 7
        invariant
            i <= 7,
            7 <= n,
            n == b@.len(),
            b@ == code.spec_bytes(),
            p@ == grocycode_prefix(),
            forall|k: int| 0 <= k < i ==> b@[k] == p@[k],
        decreases 7 - i,
    {
        if b[i] != p[i] {
            assert(b@.take(7)[i as int] != grocycode_prefix()[i as int]);
            assert(b@.take(7) != grocycode_prefix());
            return None;
        }
        i += 1;
    }
    assert(b@.take(7) =~= grocycode_prefix());
    let rest = vstd::slice::slice_subrange(b, 7, n);
    assert(rest@ =~= b@.skip(7));
    parse_u32(rest)
}

/// Reading the product ID back from the Grocycode of product `id` gives `id`.
pub proof fn lemma_product_id_of_grocycode(id: u32)
    ensures
        product_id_of(product_grocycode(id as nat)) == Some(id),
{
    let code = product_grocycode(id as nat);
    lemma_decimal_digits_value(id as nat);
    assert(code.take(7) =~= grocycode_prefix());
    assert(code.skip(7) =~= decimal_digits(id as nat));
    assert(unsigned_text_value(code.skip(7)) == Some(digits_value(decimal_digits(id as nat))));
}

} // verus!
