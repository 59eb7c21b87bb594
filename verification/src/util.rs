//! Names for temporary files.

use rand::Rng;
use vstd::prelude::*;

verus! {

/// How often the creation of a temporary file is tried before giving up.
pub const ATTEMPTS: usize = 1024;

/// Whether `c` is an ASCII letter or digit.
pub open spec fn is_ascii_alphanumeric(c: char) -> bool {
    ||| '0' <= c <= '9'
    ||| 'a' <= c <= 'z'
    ||| 'A' <= c <= 'Z'
}

/// The name of the temporary file marked by `ascii`, with the extension
/// `extension`: `binjs-`, eight times `ascii`, a dot, and the extension.
pub open spec fn temporary_file_name_of(ascii: char, extension: Seq<char>) -> Seq<char> {
    "binjs-"@ + Seq::new(8, |i: int| ascii) + "."@ + extension
}

/// `String::push` appends the given character to the end of the string.
pub assume_specification[ String::push ](s: &mut String, ch: char)
    ensures
        final(s)@ == old(s)@.push(ch),
;

/// Draws a character with `rand::Rng::sample` from the distribution
/// `rand::distributions::Alphanumeric`, on the generator that
/// `rand::thread_rng` gives: whichever character comes, it is one of the
/// ASCII letters and digits. Which one is not said, and two calls may differ.
#[verifier::external_body]
fn random_alphanumeric() -> (c: char)
    ensures
        is_ascii_alphanumeric(c),
{
    rand::thread_rng().sample(rand::distributions::Alphanumeric)
}

/// The name of the temporary file marked by `ascii`, with the extension
/// `extension`.
pub fn temporary_file_name(ascii: char, extension: &str) -> (name: String)
    ensures
        name@ == temporary_file_name_of(ascii, extension@),
{
    let mut name = String::from_str("binjs-");
    let mut i: usize = 0;
    while i < 8
        invariant
            i <= 8,
            name@ == "binjs-"@ + Seq::new(i as nat, |j: int| ascii),
        decreases 8 - i,
    {
        proof {
            assert(("binjs-"@ + Seq::new(i as nat, |j: int| ascii)).push(ascii) =~= "binjs-"@
                + Seq::new((i + 1) as nat, |j: int| ascii));
        }
        name.push(ascii);
        i = i + 1;
    }
    name.append(".");
    name.append(extension);
    name
}

/// A name for a temporary file with the extension `extension`, marked by a
/// letter or digit drawn at random.
pub fn random_temporary_file_name(extension: &str) -> (name: String)
    ensures
        exists|ascii: char|
            is_ascii_alphanumeric(ascii) && name@ == #[trigger] temporary_file_name_of(
                ascii,
                extension@,
            ),
{
    let ascii = random_alphanumeric();
    temporary_file_name(ascii, extension)
}

} // verus!
