//! Lowercase hexadecimal encoding of byte strings, and its inverse:
//! the deterministic text form under which ciphertext bundles are stored.

use vstd::prelude::*;

verus! {

/// The lowercase hex digit that stands for a value below sixteen.
pub open spec fn hex_char_of(n: u8) -> char
    recommends
        n < 16,
{
    if n < 10 {
        ((n + 48) as char)
    } else {
        ((n + 87) as char)
    }
}

/// Whether `c` is a lowercase hex digit.
pub open spec fn is_hex_digit(c: char) -> bool {
    (48 <= c as u32 && c as u32 <= 57) || (97 <= c as u32 && c as u32 <= 102)
}

/// The value of a lowercase hex digit.
pub open spec fn hex_val(c: char) -> u8
    recommends
        is_hex_digit(c),
{
    if c as u32 <= 57 {
        ((c as u32 - 48) as u8)
    } else {
        ((c as u32 - 87) as u8)
    }
}

/// The hex encoding of a byte string: two lowercase digits per byte.
pub open spec fn spec_hex(bytes: Seq<u8>) -> Seq<char>
    decreases bytes.len(),
{
    if bytes.len() == 0 {
        Seq::<char>::empty()
    } else {
        seq![hex_char_of(bytes.first() / 16), hex_char_of(bytes.first() % 16)]
            + spec_hex(bytes.drop_first())
    }
}

/// Whether `s` is a well-formed lowercase hex string.
pub open spec fn is_hex_str(s: Seq<char>) -> bool {
    s.len() % 2 == 0 && (forall|i: int| 0 <= i < s.len() ==> is_hex_digit(#[trigger] s[i]))
}

/// The byte string that a hex string denotes.
pub open spec fn spec_unhex(s: Seq<char>) -> Seq<u8>
    recommends
        is_hex_str(s),
    decreases s.len(),
{
    if s.len() < 2 {
        Seq::<u8>::empty()
    } else {
        seq![((hex_val(s[0]) * 16 + hex_val(s[1])) as u8)] + spec_unhex(s.skip(2))
    }
}

/// A digit below sixteen survives the round trip through its character.
pub proof fn lemma_hex_digit_round_trip(n: u8)
    requires
        n < 16,
    ensures
        is_hex_digit(hex_char_of(n)),
        hex_val(hex_char_of(n)) == n,
{
}

/// The encoding of a byte string is a well-formed hex string of twice
/// its length.
pub proof fn lemma_hex_well_formed(bytes: Seq<u8>)
    ensures
        spec_hex(bytes).len() == 2 * bytes.len(),
        is_hex_str(spec_hex(bytes)),
    decreases bytes.len(),
{
    if bytes.len() == 0 {
    } else {
        lemma_hex_well_formed(bytes.drop_first());
        let b = bytes.first();
        lemma_hex_digit_round_trip(b / 16);
        lemma_hex_digit_round_trip(b % 16);
        let s = spec_hex(bytes);
        let rest = spec_hex(bytes.drop_first());
        assert forall|i: int| 0 <= i < s.len() implies is_hex_digit(#[trigger] s[i]) by {
            if i >= 2 {
                assert(s[i] == rest[i - 2]);
            }
        }
    }
}

/// Decoding inverts encoding: a byte string is recovered exactly from
/// its hex form.
pub proof fn lemma_unhex_hex(bytes: Seq<u8>)
    ensures
        spec_unhex(spec_hex(bytes)) =~= bytes,
    decreases bytes.len(),
{
    if bytes.len() == 0 {
    } else {
        lemma_unhex_hex(bytes.drop_first());
        lemma_hex_well_formed(bytes.drop_first());
        let b = bytes.first();
        lemma_hex_digit_round_trip(b / 16);
        lemma_hex_digit_round_trip(b % 16);
        let s = spec_hex(bytes);
        assert(s.skip(2) =~= spec_hex(bytes.drop_first()));
        assert((b / 16) * 16 + b % 16 == b) by (nonlinear_arith);
    }
}

/// Encoding inverts decoding on well-formed hex strings, so the hex
/// form of a byte string is unique.
pub proof fn lemma_hex_unhex(s: Seq<char>)
    requires
        is_hex_str(s),
    ensures
        spec_hex(spec_unhex(s)) =~= s,
        spec_unhex(s).len() * 2 == s.len(),
    decreases s.len(),
{
    if s.len() < 2 {
        assert(s.len() == 0);
    } else {
        assert(is_hex_str(s.skip(2))) by {
            assert(forall|i: int|
                0 <= i < s.skip(2).len() ==> #[trigger] s.skip(2)[i] == s[i + 2]);
        }
        lemma_hex_unhex(s.skip(2));
        let h = hex_val(s[0]);
        let l = hex_val(s[1]);
        let b = (h * 16 + l) as u8;
        assert(is_hex_digit(s[0]) && is_hex_digit(s[1]));
        assert(h < 16 && l < 16);
        assert(b / 16 == h && b % 16 == l) by (nonlinear_arith)
            requires
                h < 16 && l < 16 && b == h * 16 + l,
        ;
        assert(hex_char_of(b / 16) == s[0] && hex_char_of(b % 16) == s[1]) by {
            crate::hexcode::lemma_hex_digit_char(s[0]);
            crate::hexcode::lemma_hex_digit_char(s[1]);
        }
        assert(spec_unhex(s).drop_first() =~= spec_unhex(s.skip(2)));
        assert(spec_unhex(s).first() == b);
    }
}

/// A hex digit survives the round trip through its value.
pub proof fn lemma_hex_digit_char(c: char)
    requires
        is_hex_digit(c),
    ensures
        hex_val(c) < 16,
        hex_char_of(hex_val(c)) == c,
{
    vstd::utf8::char_u32_cast(c, c as u32);
}

/// Relies on `String::push`: appends exactly one character.
#[verifier::external_body]
pub(crate) fn string_push(s: &mut String, c: char)
    ensures
        final(s)@ == old(s)@.push(c),
{
    s.push(c);
}

/// The character of a hex digit value.
fn hex_digit_char(n: u8) -> (c: char)
    requires
        n < 16,
    ensures
        c == hex_char_of(n),
{
    if n < 10 {
        (n + 48) as char
    } else {
        (n + 87) as char
    }
}

/// Encode a byte string as lowercase hex text.
pub fn hex_encode(bytes: &Vec<u8>) -> (s: String)
    ensures
        s@ == spec_hex(bytes@),
{
    let mut s = String::new();
    let n = bytes.len();
    for i in 0..n
        invariant
            n == bytes@.len(),
            s@ =~= spec_hex(bytes@.take(i as int)),
    {
        let b = bytes[i];
        string_push(&mut s, hex_digit_char(b / 16));
        string_push(&mut s, hex_digit_char(b % 16));
        proof {
            lemma_hex_snoc(bytes@.take(i as int), b);
            assert(bytes@.take(i + 1) =~= bytes@.take(i as int).push(b));
        }
    }
    proof {
        assert(bytes@.take(n as int) =~= bytes@);
    }
    s
}

/// Encoding distributes over appending one byte.
proof fn lemma_hex_snoc(bytes: Seq<u8>, b: u8)
    ensures
        spec_hex(bytes.push(b)) =~= spec_hex(bytes)
            + seq![hex_char_of(b / 16), hex_char_of(b % 16)],
    decreases bytes.len(),
{
    let pair = seq![hex_char_of(b / 16), hex_char_of(b % 16)];
    if bytes.len() == 0 {
        assert(bytes.push(b).drop_first() =~= Seq::<u8>::empty());
        assert(spec_hex(bytes.push(b)) == pair + spec_hex(Seq::<u8>::empty()));
        assert(pair + Seq::<char>::empty() =~= Seq::<char>::empty() + pair);
    } else {
        lemma_hex_snoc(bytes.drop_first(), b);
        let head = seq![hex_char_of(bytes.first() / 16), hex_char_of(bytes.first() % 16)];
        assert(bytes.push(b).drop_first() =~= bytes.drop_first().push(b));
        assert(bytes.push(b).first() == bytes.first());
        assert(spec_hex(bytes.push(b)) == head + spec_hex(bytes.drop_first().push(b)));
        assert(spec_hex(bytes.push(b)) == head + (spec_hex(bytes.drop_first()) + pair));
        assert(head + (spec_hex(bytes.drop_first()) + pair)
            =~= (head + spec_hex(bytes.drop_first())) + pair);
        assert(spec_hex(bytes) == head + spec_hex(bytes.drop_first()));
    }
}

/// Decoding distributes over appending one digit pair.
proof fn lemma_unhex_snoc(s: Seq<char>, c1: char, c2: char)
    requires
        s.len() % 2 == 0,
    ensures
        spec_unhex(s.push(c1).push(c2)) =~= spec_unhex(s).push(
            ((hex_val(c1) * 16 + hex_val(c2)) as u8),
        ),
    decreases s.len(),
{
    let t = s.push(c1).push(c2);
    let b = ((hex_val(c1) * 16 + hex_val(c2)) as u8);
    if s.len() == 0 {
        assert(t.skip(2) =~= Seq::<char>::empty());
        assert(t[0] == c1 && t[1] == c2);
        assert(spec_unhex(t) == seq![b] + spec_unhex(Seq::<char>::empty()));
        assert(seq![b] + Seq::<u8>::empty() =~= Seq::<u8>::empty().push(b));
    } else {
        assert(s.len() >= 2);
        lemma_unhex_snoc(s.skip(2), c1, c2);
        assert(t.skip(2) =~= s.skip(2).push(c1).push(c2));
        assert(t[0] == s[0] && t[1] == s[1]);
        let b0 = ((hex_val(s[0]) * 16 + hex_val(s[1])) as u8);
        assert(spec_unhex(t) == seq![b0] + spec_unhex(t.skip(2)));
        assert(spec_unhex(t) == seq![b0] + spec_unhex(s.skip(2)).push(b));
        assert(seq![b0] + spec_unhex(s.skip(2)).push(b)
            =~= (seq![b0] + spec_unhex(s.skip(2))).push(b));
        assert(spec_unhex(s) == seq![b0] + spec_unhex(s.skip(2)));
    }
}

/// The value of one hex digit character, or nothing if `c` is not one.
fn hex_digit_val(c: char) -> (r: Option<u8>)
    ensures
        r is Some <==> is_hex_digit(c),
        r is Some ==> r->Some_0 == hex_val(c),
{
    let u = c as u32;
    if 48 <= u && u <= 57 {
        Some((u - 48) as u8)
    } else if 97 <= u && u <= 102 {
        Some((u - 87) as u8)
    } else {
        None
    }
}

/// Decode lowercase hex text back to the byte string it denotes, or
/// nothing if the text is not well-formed hex.
pub fn hex_decode(s: &str) -> (r: Option<Vec<u8>>)
    ensures
        r is Some <==> is_hex_str(s@),
        r is Some ==> r->Some_0@ == spec_unhex(s@),
{
    let n = s.unicode_len();
    if n % 2 != 0 {
        return None;
    }
    let mut out: Vec<u8> = Vec::new();
    let half = n / 2;
    for i in 0..half
        invariant
            n == s@.len(),
            n % 2 == 0,
            half == n / 2,
            i * 2 <= n,
            out@ =~= spec_unhex(s@.take(2 * i as int)),
            forall|j: int| 0 <= j < 2 * i ==> is_hex_digit(#[trigger] s@[j]),
    {
        let c1 = s.get_char(2 * i);
        let c2 = s.get_char(2 * i + 1);
        let v1 = match hex_digit_val(c1) {
            Some(v) => v,
            None => {
                return None;
            },
        };
        let v2 = match hex_digit_val(c2) {
            Some(v) => v,
            None => {
                return None;
            },
        };
        out.push(v1 * 16 + v2);
        proof {
            lemma_unhex_snoc(s@.take(2 * i as int), c1, c2);
            assert(s@.take(2 * (i + 1) as int) =~= s@.take(2 * i as int).push(c1).push(c2));
        }
    }
    proof {
        assert(s@.take(2 * (half as int)) =~= s@);
    }
    Some(out)
}

} // verus!
