//! Random values, and identifiers made of them.
use crate::text::hex_digit;
use rand::Rng;
use vstd::prelude::*;

verus! {

/// The lowest `width` hexadecimal digits of `n`, most significant first,
/// with leading zeros.
pub open spec fn hex_padded(n: nat, width: nat) -> Seq<char>
    decreases width,
{
    if width == 0 {
        Seq::empty()
    } else {
        hex_padded(n / 16, (width - 1) as nat).push(hex_digit((n % 16) as int))
    }
}

pub proof fn lemma_hex_padded_len(n: nat, width: nat)
    ensures
        hex_padded(n, width).len() == width,
    decreases width,
{
    if width > 0 {
        lemma_hex_padded_len(n / 16, (width - 1) as nat);
    }
}

/// A random 128-bit number: `Rng::gen` on the thread's generator. Nothing is
/// promised of it.
#[verifier::external_body]
pub(crate) fn random_u128() -> u128 {
    rand::thread_rng().gen::<u128>()
}

/// A random key in a range: `Rng::gen_range` on the thread's generator gives
/// a number from `low` up to, and without, `high`. It panics on an empty
/// range, which `requires` leaves out.
#[verifier::external_body]
pub(crate) fn random_key(low: usize, high: usize) -> (key: usize)
    requires
        low < high,
    ensures
        low <= key < high,
{
    rand::thread_rng().gen_range(low, high)
}

/// The identifier with the 128 bits of `n`, in its simple form:
/// `uuid::Builder::from_bytes` and `into_uuid` make the identifier of the
/// sixteen bytes of `n`, most significant first, and `Uuid::simple` writes
/// each byte as two lower-case hexadecimal digits, without hyphens.
#[verifier::external_body]
pub(crate) fn uuid_simple(n: u128) -> (text: String)
    ensures
        text@ == hex_padded(n as nat, 32),
{
    uuid::Builder::from_bytes(n.to_be_bytes()).into_uuid().simple().to_string()
}

} // verus!
