use vstd::arithmetic::power2::{lemma2_to64, lemma_pow2_strictly_increases, pow2};
use vstd::prelude::*;

verus! {

/// What it means for an authentication-method tag to be a power of two.
pub open spec fn spec_is_power_of_two(x: int) -> bool {
    exists|k: nat| x == pow2(k)
}

/// Decides whether a tag is a (positive) power of two, with the usual
/// bit trick `x & (x - 1) == 0`.
pub fn is_power_of_two(x: i16) -> (r: bool)
    ensures
        r <==> spec_is_power_of_two(x as int),
{
    let r = x > 0 && (x & (x - 1)) == 0;
    proof {
        lemma_is_power_of_two_i16(x, r);
    }
    r
}

proof fn lemma_is_power_of_two_i16(x: i16, r: bool)
    requires
        r <==> (x > 0 && (x & (x - 1) as i16) == 0),
    ensures
        r <==> spec_is_power_of_two(x as int),
{
    lemma2_to64();
    assert((x > 0 && (x & (x - 1) as i16) == 0) <==> (x == 1 || x == 2 || x == 4 || x == 8 || x
        == 16 || x == 32 || x == 64 || x == 128 || x == 256 || x == 512 || x == 1024 || x == 2048
        || x == 4096 || x == 8192 || x == 16384)) by (bit_vector);
    if r {
        if x == 1 {
            assert(x == pow2(0));
        } else if x == 2 {
            assert(x == pow2(1));
        } else if x == 4 {
            assert(x == pow2(2));
        } else if x == 8 {
            assert(x == pow2(3));
        } else if x == 16 {
            assert(x == pow2(4));
        } else if x == 32 {
            assert(x == pow2(5));
        } else if x == 64 {
            assert(x == pow2(6));
        } else if x == 128 {
            assert(x == pow2(7));
        } else if x == 256 {
            assert(x == pow2(8));
        } else if x == 512 {
            assert(x == pow2(9));
        } else if x == 1024 {
            assert(x == pow2(10));
        } else if x == 2048 {
            assert(x == pow2(11));
        } else if x == 4096 {
            assert(x == pow2(12));
        } else if x == 8192 {
            assert(x == pow2(13));
        } else {
            assert(x == pow2(14));
        }
    } else {
        if spec_is_power_of_two(x as int) {
            let k = choose|k: nat| x as int == pow2(k);
            if k > 15 {
                lemma_pow2_strictly_increases(15, k);
                assert(false);
            } else if k == 15 {
                assert(false);
            } else {
                assert(k <= 14);
                assert(x == 1 || x == 2 || x == 4 || x == 8 || x == 16 || x == 32 || x == 64 || x
                    == 128 || x == 256 || x == 512 || x == 1024 || x == 2048 || x == 4096 || x
                    == 8192 || x == 16384) by {
                    if k == 0 {
                    } else if k == 1 {
                    } else if k == 2 {
                    } else if k == 3 {
                    } else if k == 4 {
                    } else if k == 5 {
                    } else if k == 6 {
                    } else if k == 7 {
                    } else if k == 8 {
                    } else if k == 9 {
                    } else if k == 10 {
                    } else if k == 11 {
                    } else if k == 12 {
                    } else if k == 13 {
                    } else {
                        assert(k == 14);
                    }
                };
                assert(false);
            }
        }
    }
}

} // verus!
