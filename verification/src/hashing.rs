use std::hash::Hasher;

use vstd::prelude::*;

verus! {

/// A character in `'0'..='9'`.
pub open spec fn is_decimal_digit(c: char) -> bool {
    48 <= c as u32 <= 57
}

/// Every character of `s` is a decimal digit.
pub open spec fn all_decimal_digits(s: Seq<char>) -> bool {
    forall|i: int| 0 <= i < s.len() ==> is_decimal_digit(#[trigger] s[i])
}

/// The fingerprint digest of a string: what `xx_hash` returns for it.
pub uninterp spec fn xx_digest_of(s: Seq<char>) -> Seq<char>;

/// The slow password digest of a string: what `argon2_hash` returns for it.
pub uninterp spec fn argon2_digest_of(s: Seq<char>) -> Seq<char>;

/// One-way, fixed-width, non-cryptographic digest used to fingerprint
/// free-form strings without embedding them in the clear.
///
/// Relies on `twox_hash::XxHash32` with seed 0 and `u64::to_string`: the
/// digest is a function of the input bytes alone; `finish` widens the
/// 32-bit hash, so its decimal rendering is a nonempty string of at most
/// ten digits with no leading zero.
#[verifier::external_body]
pub fn xx_hash(data: &str) -> (r: String)
    ensures
        r@ == xx_digest_of(data@),
        1 <= r@.len() <= 10,
        all_decimal_digits(r@),
        r@.len() > 1 ==> r@[0] != '0',
{
    let mut hasher = twox_hash::XxHash32::with_seed(0);
    hasher.write(data.as_bytes());
    hasher.finish().to_string()
}

/// One-way, salted, memory-hard digest used for stored credentials.
///
/// Relies on `argon2::hash_encoded` with a fixed salt and configuration: the
/// encoded hash is a function of the password characters alone.
#[verifier::external_body]
pub fn argon2_hash(data: &str) -> (r: String)
    ensures
        r@ == argon2_digest_of(data@),
{
    let config = argon2::Config {
        ad: &[],
        hash_length: 128,
        lanes: 1,
        mem_cost: 32,
        secret: &[],
        thread_mode: argon2::ThreadMode::Sequential,
        time_cost: 3,
        variant: argon2::Variant::Argon2i,
        version: argon2::Version::Version13,
    };
    argon2::hash_encoded(data.as_bytes(), b"ajsldAJKHDLAKJDjsna/AZ", &config).unwrap()
}

} // verus!
