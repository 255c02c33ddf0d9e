//! Random passwords over a fixed alphabet.

use rand::Rng;
use vstd::prelude::*;
use vstd::string::StrSliceExecFns;
use vstd::string::StringExecFns;

verus! {

/// The alphabet: the upper-case letters, the lower-case letters, the
/// digits and eight symbols, seventy characters in this order.
pub open spec fn alphabet() -> Seq<char> {
    "ABCDEFGHIJKLMNOPQRSTUVWXYZabcdefghijklmnopqrstuvwxyz0123456789!@#$%^&*"@
}

/// The number of characters in the alphabet.
pub const ALPHABET_LEN: usize = 70;

/// Asks `rand::thread_rng()` for a number through `Rng::gen_range` with the
/// range from zero to `bound`, `bound` left out. Trusted: the number lies in
/// the range. Which number comes is left open.
#[verifier::external_body]
fn random_index(bound: usize) -> (index: usize)
    requires
        bound > 0,
    ensures
        index < bound,
{
    rand::thread_rng().gen_range(0..bound)
}

/// The character of the alphabet at `index`, as a text of its own.
pub fn alphabet_symbol(index: usize) -> (symbol: &'static str)
    requires
        index < ALPHABET_LEN,
    ensures
        alphabet().len() == ALPHABET_LEN,
        symbol@ == seq![alphabet()[index as int]],
{
    let symbols = "ABCDEFGHIJKLMNOPQRSTUVWXYZabcdefghijklmnopqrstuvwxyz0123456789!@#$%^&*";
    proof {
        reveal_strlit("ABCDEFGHIJKLMNOPQRSTUVWXYZabcdefghijklmnopqrstuvwxyz0123456789!@#$%^&*");
    }
    symbols.substring_ascii(index, index + 1)
}

/// Makes a password of `length` characters, each drawn at random from the
/// alphabet.
pub fn generate_password(length: usize) -> (password: String)
    ensures
        password@.len() == length,
        forall|i: int| 0 <= i < length ==> alphabet().contains(#[trigger] password@[i]),
{
    let mut password = String::new();
    let mut i: usize = 0;
    while i < length
        invariant
            i <= length,
            password@.len() == i,
            forall|j: int| 0 <= j < i ==> alphabet().contains(#[trigger] password@[j]),
        decreases length - i,
    {
        let index: usize = random_index(ALPHABET_LEN);
        password.append(alphabet_symbol(index));
        i = i + 1;
    }
    password
}

} // verus!
