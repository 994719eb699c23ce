//! The identifier generator: collision-resistant, URL-safe opaque
//! identifiers of the form `{prefix}_{28 random alphanumeric characters}`,
//! drawn from a 62-character alphabet by a cryptographically secure source.

use vstd::prelude::*;

use crate::hexcode::string_push;
use vstd::string::StringExecFns;

verus! {

/// Whether `c` is one of the 62 characters identifiers are drawn from:
/// an ASCII digit or letter.
pub open spec fn is_id_char(c: char) -> bool {
    ||| (48 <= c as u32 && c as u32 <= 57)
    ||| (65 <= c as u32 && c as u32 <= 90)
    ||| (97 <= c as u32 && c as u32 <= 122)
}

/// How many random characters follow the prefix and separator.
pub const ID_TAIL_LEN: usize = 28;

/// The shape of a generated identifier: the prefix, an underscore, and
/// 28 alphanumeric characters.
pub open spec fn spec_id_shape(prefix: Seq<char>, r: Seq<char>) -> bool {
    &&& r.len() == prefix.len() + 1 + ID_TAIL_LEN
    &&& r.subrange(0, prefix.len() as int) == prefix
    &&& r[prefix.len() as int] == '_'
    &&& forall|i: int| prefix.len() + 1 <= i < r.len() ==> is_id_char(#[trigger] r[i])
}

/// Relies on `nanoid::format` with `nanoid::rngs::default`: it draws
/// `len` characters from `alphabet` with a cryptographically secure
/// random source. Nothing is assumed about which characters come back,
/// only that there are `len` of them, each from the alphabet.
#[verifier::external_body]
fn random_chars(alphabet: &Vec<char>, len: usize) -> (r: String)
    requires
        0 < alphabet@.len() <= 255,
        0 < len,
        forall|i: int| 0 <= i < alphabet@.len() ==> (#[trigger] alphabet@[i] as u32) < 128,
    ensures
        r@.len() == len,
        forall|i: int| 0 <= i < r@.len() ==> alphabet@.contains(#[trigger] r@[i]),
{
    nanoid::format(nanoid::rngs::default, alphabet.as_slice(), len)
}

/// The identifier alphabet: digits, then lowercase, then uppercase.
fn id_alphabet() -> (r: Vec<char>)
    ensures
        r@.len() == 62,
        forall|i: int| 0 <= i < r@.len() ==> is_id_char(#[trigger] r@[i]),
        forall|i: int| 0 <= i < r@.len() ==> (#[trigger] r@[i] as u32) < 128,
{
    let mut v: Vec<char> = Vec::new();
    let mut c: u8 = 48;
    while c <= 57
        invariant
            48 <= c <= 58,
            v@.len() == c - 48,
            forall|i: int| 0 <= i < v@.len() ==> is_id_char(#[trigger] v@[i]),
            forall|i: int| 0 <= i < v@.len() ==> (#[trigger] v@[i] as u32) < 128,
        decreases 58 - c,
    {
        v.push(c as char);
        c = c + 1;
    }
    let mut c: u8 = 97;
    while c <= 122
        invariant
            97 <= c <= 123,
            v@.len() == 10 + c - 97,
            forall|i: int| 0 <= i < v@.len() ==> is_id_char(#[trigger] v@[i]),
            forall|i: int| 0 <= i < v@.len() ==> (#[trigger] v@[i] as u32) < 128,
        decreases 123 - c,
    {
        v.push(c as char);
        c = c + 1;
    }
    let mut c: u8 = 65;
    while c <= 90
        invariant
            65 <= c <= 91,
            v@.len() == 36 + c - 65,
            forall|i: int| 0 <= i < v@.len() ==> is_id_char(#[trigger] v@[i]),
            forall|i: int| 0 <= i < v@.len() ==> (#[trigger] v@[i] as u32) < 128,
        decreases 91 - c,
    {
        v.push(c as char);
        c = c + 1;
    }
    v
}

/// A fresh opaque identifier: the prefix, an underscore, and 28 random
/// alphanumeric characters. Uniqueness is probabilistic by construction;
/// the storage layer's key constraint is the authoritative backstop.
pub fn new_id(prefix: &str) -> (r: String)
    ensures
        spec_id_shape(prefix@, r@),
{
    let alphabet = id_alphabet();
    let tail = random_chars(&alphabet, ID_TAIL_LEN);
    let mut out = prefix.to_owned();
    string_push(&mut out, '_');
    out.append(tail.as_str());
    proof {
        assert(out@.subrange(0, prefix@.len() as int) =~= prefix@);
        assert forall|i: int|
            prefix@.len() + 1 <= i < out@.len() implies is_id_char(#[trigger] out@[i]) by {
            let j = i - prefix@.len() - 1;
            assert(out@[i] == tail@[j]);
            assert(alphabet@.contains(tail@[j]));
            let w = choose|w: int| 0 <= w < alphabet@.len() && alphabet@[w] == tail@[j];
            assert(is_id_char(alphabet@[w]));
        }
    }
    out
}

} // verus!
