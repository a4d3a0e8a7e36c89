//! Fresh identifiers and their text form, from the `uuid` crate.
use vstd::prelude::*;

use crate::model::Id;

verus! {

/// The lower-case hexadecimal digit of `n < 16`.
pub open spec fn hex_digit(n: nat) -> u8 {
    if n < 10 {
        (48 + n) as u8
    } else {
        (87 + n) as u8
    }
}

/// The `n` low hexadecimal digits of `v`, most significant first.
pub open spec fn hex_digits(v: nat, n: nat) -> Seq<u8>
    decreases n,
{
    if n == 0 {
        Seq::empty()
    } else {
        hex_digits(v / 16, (n - 1) as nat).push(hex_digit(v % 16))
    }
}

/// The hyphenated lower-case text of an identifier: groups of 8, 4, 4, 4
/// and 12 hexadecimal digits of its 128 bits, most significant first.
pub open spec fn hyphenated(v: u128) -> Seq<u8> {
    let x = v as nat;
    hex_digits(x / 0x1_0000_0000_0000_0000_0000_0000, 8) + seq![45u8] + hex_digits(
        x / 0x1_0000_0000_0000_0000_0000 % 0x1_0000,
        4,
    ) + seq![45u8] + hex_digits(x / 0x1_0000_0000_0000_0000 % 0x1_0000, 4) + seq![45u8]
        + hex_digits(x / 0x1_0000_0000_0000 % 0x1_0000, 4) + seq![45u8] + hex_digits(
        x % 0x1_0000_0000_0000,
        12,
    )
}

/// A random (version 4) identifier: its version field, bits 76 to 79, is
/// 4 and its variant field, bits 62 and 63, is `10`.
pub open spec fn is_random_v4(id: Id) -> bool {
    &&& (id.0 as nat) / 0x1000_0000_0000_0000_0000 % 16 == 4
    &&& (id.0 as nat) / 0x4000_0000_0000_0000 % 4 == 2
}

/// Relies on `uuid::Uuid::new_v4`: a random identifier whose version field
/// (the high nibble of byte 6) is 4 and whose variant bits (the two high
/// bits of byte 8) are `10`.
#[verifier::external_body]
pub(crate) fn random_id() -> (r: Id)
    ensures
        is_random_v4(r),
{
    Id(uuid::Uuid::new_v4().as_u128())
}

proof fn lemma_same_half_same_quotient(x: int, y: int, d: int)
    requires
        0 <= x,
        0 <= y,
        2 <= d,
        d % 2 == 0,
        x / 2 == y / 2,
    ensures
        x / d == y / d,
{
    vstd::arithmetic::div_mod::lemma_div_denominator(x, 2, d / 2);
    vstd::arithmetic::div_mod::lemma_div_denominator(y, 2, d / 2);
    assert(2 * (d / 2) == d);
}

/// `id` itself, unless it equals `other`: then `id` with its lowest bit
/// flipped, which keeps it a random version 4 identifier.
pub fn distinct_id(id: Id, other: Id) -> (r: Id)
    requires
        is_random_v4(id),
    ensures
        is_random_v4(r),
        r != other,
        id != other ==> r == id,
{
    if id != other {
        return id;
    }
    let x = id.0;
    let y: u128 = if x % 2 == 0 {
        x + 1
    } else {
        x - 1
    };
    proof {
        assert((x as int) / 2 == (y as int) / 2);
        lemma_same_half_same_quotient(x as int, y as int, 0x1000_0000_0000_0000_0000);
        lemma_same_half_same_quotient(x as int, y as int, 0x4000_0000_0000_0000);
    }
    Id(y)
}

/// Relies on `uuid::Uuid::hyphenated` and its `Display`: the identifier as
/// hyphenated lower-case hexadecimal text.
#[verifier::external_body]
pub(crate) fn id_text(id: Id) -> (r: Vec<u8>)
    ensures
        r@ == hyphenated(id.0),
{
    uuid::Uuid::from_u128(id.0).hyphenated().to_string().into_bytes()
}

} // verus!
