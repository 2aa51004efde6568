//! Random alphanumeric identifiers.

use vstd::prelude::*;
use vstd::string::{StrSliceExecFns, StringExecFns};

verus! {

/// The 62 characters a token is drawn from.
pub open spec fn token_alphabet() -> Seq<char> {
    "ABCDEFGHIJKLMNOPQRSTUVWXYZabcdefghijklmnopqrstuvwxyz0123456789"@
}

/// `c` is one of the token alphabet.
pub open spec fn is_token_char(c: char) -> bool {
    exists|k: int| 0 <= k < 62 && token_alphabet()[k] == c
}

pub open spec fn is_alphanumeric_byte(b: u8) -> bool {
    (65 <= b <= 90) || (97 <= b <= 122) || (48 <= b <= 57)
}

/// Relies on rand's `Alphanumeric` distribution (sampled with the
/// thread-local generator), which returns a byte of `[A-Za-z0-9]`.
#[verifier::external_body]
fn sample_alphanumeric() -> (r: u8)
    ensures
        is_alphanumeric_byte(r),
{
    rand::Rng::sample(&mut rand::thread_rng(), rand::distributions::Alphanumeric)
}

/// A random token of `length` characters of `[A-Za-z0-9]`.
pub fn generate_token(length: u16) -> (r: String)
    ensures
        r@.len() == length,
        forall|i: int|
            0 <= i < r@.len() ==> is_token_char(#[trigger] r@[i]),
{
    let alphabet = "ABCDEFGHIJKLMNOPQRSTUVWXYZabcdefghijklmnopqrstuvwxyz0123456789";
    proof {
        reveal_strlit("ABCDEFGHIJKLMNOPQRSTUVWXYZabcdefghijklmnopqrstuvwxyz0123456789");
    }
    let mut out = String::new();
    let mut i: u16 = 0;
    while i < length
        invariant
            alphabet@ == token_alphabet(),
            alphabet@.len() == 62,
            i <= length,
            out@.len() == i,
            forall|j: int|
                0 <= j < out@.len() ==> is_token_char(#[trigger] out@[j]),
        decreases length - i,
    {
        let b = sample_alphanumeric();
        let pos: usize = if 65 <= b && b <= 90 {
            (b - 65) as usize
        } else if 97 <= b && b <= 122 {
            (b - 97 + 26) as usize
        } else {
            (b - 48 + 52) as usize
        };
        let piece = alphabet.substring_char(pos, pos + 1);
        let ghost before = out@;
        out.append(piece);
        proof {
            assert(piece@ =~= seq![token_alphabet()[pos as int]]);
            assert forall|j: int| 0 <= j < out@.len() implies is_token_char(#[trigger] out@[j]) by {
                if j < before.len() {
                    assert(out@[j] == before[j]);
                } else {
                    assert(out@[j] == token_alphabet()[pos as int]);
                }
            }
        }
        i = i + 1;
    }
    out
}

} // verus!
