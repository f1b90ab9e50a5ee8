use vstd::prelude::*;

use vstd::string::StrSliceExecFns;

verus! {

/// A character in `0-9`, `A-Z` or `a-z`.
pub open spec fn is_ascii_alnum(c: char) -> bool {
    (48 <= c as u32 <= 57) || (65 <= c as u32 <= 90) || (97 <= c as u32 <= 122)
}

/// Every character of `s` is ASCII alphanumeric.
pub open spec fn all_ascii_alnum(s: Seq<char>) -> bool {
    forall|i: int| 0 <= i < s.len() ==> is_ascii_alnum(#[trigger] s[i])
}

/// Relies on `uuid::Uuid::new_v4` and its simple format: 32 lowercase
/// hexadecimal characters. Nothing is assumed about which characters come
/// back: the value is random.
#[verifier::external_body]
fn random_hex_block() -> (r: String)
    ensures
        r@.len() == 32,
        all_ascii_alnum(r@),
{
    uuid::Uuid::new_v4().simple().to_string()
}

/// Relies on `uuid::Uuid::new_v4` and `Uuid::as_u128`: a freshly drawn
/// random 128-bit identifier. Nothing is assumed about the value.
#[verifier::external_body]
pub fn fresh_account_id() -> u128 {
    uuid::Uuid::new_v4().as_u128()
}

/// A random alphanumeric string of the requested length, assembled from
/// random blocks.
pub fn random_string(len: usize) -> (r: String)
    requires
        len <= usize::MAX - 31,
    ensures
        r@.len() == len,
        all_ascii_alnum(r@),
{
    let mut s = String::new();
    let mut have: usize = 0;
    while have < len
        invariant
            have == s@.len(),
            have <= len + 31,
            all_ascii_alnum(s@),
            len <= usize::MAX - 31,
        decreases len + 31 - have,
    {
        let block = random_hex_block();
        s.append(block.as_str());
        assert(all_ascii_alnum(s@));
        have = have + 32;
    }
    let r = s.as_str().substring_char(0, len).to_owned();
    assert(all_ascii_alnum(r@)) by {
        assert(forall|i: int| 0 <= i < r@.len() ==> r@[i] == s@[i]);
    }
    r
}

} // verus!
