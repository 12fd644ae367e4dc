//! Identifiers: an 11-character name drawn from a fixed 64-character
//! alphabet, generated at random for each new object or archive.

use vstd::prelude::*;

verus! {

/// An object or archive identifier.
pub type ID = String;

/// The identifier character class of the file-name grammar:
/// `A`-`Z`, `a`-`z`, `0`-`9`, `_` and `-`.
pub open spec fn is_id_char(c: char) -> bool {
    let u = c as u32;
    (65 <= u && u <= 90) || (97 <= u && u <= 122) || (48 <= u && u <= 57) || u == 95 || u == 45
}

pub open spec fn all_id_chars(s: Seq<char>) -> bool {
    forall|i: int| 0 <= i < s.len() ==> is_id_char(#[trigger] s[i])
}

/// Whether `c` may stand in an identifier.
pub fn id_char(c: char) -> (r: bool)
    ensures
        r == is_id_char(c),
{
    let u = c as u32;
    (65 <= u && u <= 90) || (97 <= u && u <= 122) || (48 <= u && u <= 57) || u == 95 || u == 45
}

/// Relies on `rand::random_range`: a uniform sample below `bound`
/// (the call panics only on an empty range).
#[verifier::external_body]
fn random_below(bound: usize) -> (r: usize)
    requires
        bound >= 1,
    ensures
        r < bound,
{
    rand::random_range(0..bound)
}

/// Generates a fresh 11-character identifier.  Collisions are possible in
/// principle and are not checked.
pub fn generate_id() -> (r: ID)
    ensures
        r@.len() == 11,
        all_id_chars(r@),
{
    let alpha = "ABCDEFGHIJKLMNOPQRSTUVWXYZabcdefghijklmnopqrstuvwxyz0123456789_-";
    proof {
        reveal_strlit("ABCDEFGHIJKLMNOPQRSTUVWXYZabcdefghijklmnopqrstuvwxyz0123456789_-");
        assert(alpha@.len() == 64);
        assert forall|i: int| 0 <= i < alpha@.len() implies is_id_char(#[trigger] alpha@[i]) by {
            assert(is_id_char(alpha@[i]));
        }
    }
    let mut s = String::new();
    let mut k: usize = 0;
    while k < 11
        invariant
            k <= 11,
            s@.len() == k,
            all_id_chars(s@),
            alpha@.len() == 64,
            forall|i: int| 0 <= i < alpha@.len() ==> is_id_char(#[trigger] alpha@[i]),
        decreases 11 - k,
    {
        let i = random_below(64);
        let c = alpha.substring_char(i, i + 1);
        s.append(c);
        proof {
            assert(c@ =~= alpha@.subrange(i as int, i as int + 1));
            assert(c@[0] == alpha@[i as int]);
        }
        k = k + 1;
    }
    s
}

} // verus!
