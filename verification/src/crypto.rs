//! The AEAD engine: authenticated encryption of a payload under a
//! 32-byte key, with a counter-driven nonce that is never reused.

use vstd::prelude::*;
use vstd::string::{StrSliceExecFns, StringExecFns};

use crate::hexcode::{
    hex_decode, hex_encode, is_hex_str, lemma_hex_unhex, lemma_hex_well_formed, lemma_unhex_hex,
    spec_hex, spec_unhex, string_push,
};

verus! {

/// Error raised by the engine: a malformed key, an oversized payload,
/// a bundle that does not parse, or a tag that fails to authenticate.
#[derive(Clone, Copy, Debug, PartialEq, Eq, Structural)]
pub enum Error {
    CryptoError,
}

/// The byte length of an AES-256-GCM key.
pub const KEY_LEN: usize = 32;

/// The byte length of a nonce.
pub const NONCE_LEN: usize = 12;

/// The nonce bytes that stand for counter value `c`: four zero bytes
/// followed by the eight big-endian bytes of `c`.
pub open spec fn spec_nonce_bytes(c: u64) -> Seq<u8> {
    seq![
        0u8,
        0u8,
        0u8,
        0u8,
        (c >> 56) as u8,
        (c >> 48) as u8,
        (c >> 40) as u8,
        (c >> 32) as u8,
        (c >> 24) as u8,
        (c >> 16) as u8,
        (c >> 8) as u8,
        c as u8,
    ]
}

/// Distinct counter values yield distinct nonces, so a counter that is
/// only ever advanced never hands out the same nonce twice.
pub proof fn lemma_nonce_bytes_injective(c1: u64, c2: u64)
    requires
        c1 != c2,
    ensures
        spec_nonce_bytes(c1) != spec_nonce_bytes(c2),
{
    if spec_nonce_bytes(c1) == spec_nonce_bytes(c2) {
        assert(spec_nonce_bytes(c1)[4] == spec_nonce_bytes(c2)[4]);
        assert(spec_nonce_bytes(c1)[5] == spec_nonce_bytes(c2)[5]);
        assert(spec_nonce_bytes(c1)[6] == spec_nonce_bytes(c2)[6]);
        assert(spec_nonce_bytes(c1)[7] == spec_nonce_bytes(c2)[7]);
        assert(spec_nonce_bytes(c1)[8] == spec_nonce_bytes(c2)[8]);
        assert(spec_nonce_bytes(c1)[9] == spec_nonce_bytes(c2)[9]);
        assert(spec_nonce_bytes(c1)[10] == spec_nonce_bytes(c2)[10]);
        assert(spec_nonce_bytes(c1)[11] == spec_nonce_bytes(c2)[11]);
        assert((c1 >> 56) as u8 == (c2 >> 56) as u8
            && (c1 >> 48) as u8 == (c2 >> 48) as u8
            && (c1 >> 40) as u8 == (c2 >> 40) as u8
            && (c1 >> 32) as u8 == (c2 >> 32) as u8
            && (c1 >> 24) as u8 == (c2 >> 24) as u8
            && (c1 >> 16) as u8 == (c2 >> 16) as u8
            && (c1 >> 8) as u8 == (c2 >> 8) as u8
            && c1 as u8 == c2 as u8 ==> c1 == c2) by (bit_vector);
    }
}

/// Recover the counter value a nonce was drawn from, or nothing if the
/// nonce does not have the counter shape (four zero bytes, then eight
/// big-endian bytes). This is how a restored vault learns which counter
/// values its stored blobs have already consumed.
pub fn counter_of_nonce(nonce: &Vec<u8>) -> (r: Option<u64>)
    ensures
        match r {
            Some(c) => nonce@ == spec_nonce_bytes(c),
            None => forall|c: u64| nonce@ != spec_nonce_bytes(c),
        },
{
    if nonce.len() != NONCE_LEN {
        proof {
            assert forall|c: u64| nonce@ != spec_nonce_bytes(c) by {
                assert(spec_nonce_bytes(c).len() == NONCE_LEN);
            }
        }
        return None;
    }
    if nonce[0] != 0 || nonce[1] != 0 || nonce[2] != 0 || nonce[3] != 0 {
        proof {
            assert forall|c: u64| nonce@ != spec_nonce_bytes(c) by {
                assert(spec_nonce_bytes(c)[0] == 0 && spec_nonce_bytes(c)[1] == 0
                    && spec_nonce_bytes(c)[2] == 0 && spec_nonce_bytes(c)[3] == 0);
            }
        }
        return None;
    }
    let b4 = nonce[4];
    let b5 = nonce[5];
    let b6 = nonce[6];
    let b7 = nonce[7];
    let b8 = nonce[8];
    let b9 = nonce[9];
    let b10 = nonce[10];
    let b11 = nonce[11];
    let c = ((b4 as u64) << 56) | ((b5 as u64) << 48) | ((b6 as u64) << 40) | ((b7 as u64) << 32)
        | ((b8 as u64) << 24) | ((b9 as u64) << 16) | ((b10 as u64) << 8) | (b11 as u64);
    proof {
        assert((c >> 56) as u8 == b4 && (c >> 48) as u8 == b5 && (c >> 40) as u8 == b6 && (c
            >> 32) as u8 == b7 && (c >> 24) as u8 == b8 && (c >> 16) as u8 == b9 && (c >> 8) as u8
            == b10 && c as u8 == b11) by (bit_vector)
            requires
                c == ((b4 as u64) << 56) | ((b5 as u64) << 48) | ((b6 as u64) << 40) | ((b7
                    as u64) << 32) | ((b8 as u64) << 24) | ((b9 as u64) << 16) | ((b10 as u64)
                    << 8) | (b11 as u64),
        ;
        assert(nonce@ =~= spec_nonce_bytes(c));
    }
    Some(c)
}

/// The nonce source: a monotonic counter. Each call to `advance` hands
/// out the nonce for the current count and moves past it, so no nonce
/// is ever produced twice by the same counter.
pub struct NonceCounter {
    count: u64,
}

impl NonceCounter {
    pub closed spec fn spec_count(self) -> u64 {
        self.count
    }

    /// A fresh counter, starting from an explicit seed so that a caller
    /// restoring a persisted count can resume where it left off.
    pub fn new(start: u64) -> (r: NonceCounter)
        ensures
            r.spec_count() == start,
    {
        NonceCounter { count: start }
    }

    /// The current count, for a caller persisting it or judging whether
    /// the counter can still advance.
    pub fn count(&self) -> (r: u64)
        ensures
            r == self.spec_count(),
    {
        self.count
    }

    /// Hand out the nonce for the current count and advance past it.
    pub fn advance(&mut self) -> (r: Vec<u8>)
        requires
            old(self).spec_count() < u64::MAX,
        ensures
            r@ == spec_nonce_bytes(old(self).spec_count()),
            r@.len() == NONCE_LEN,
            final(self).spec_count() == old(self).spec_count() + 1,
    {
        let c = self.count;
        let mut nonce: Vec<u8> = Vec::new();
        nonce.push(0u8);
        nonce.push(0u8);
        nonce.push(0u8);
        nonce.push(0u8);
        nonce.push((c >> 56) as u8);
        nonce.push((c >> 48) as u8);
        nonce.push((c >> 40) as u8);
        nonce.push((c >> 32) as u8);
        nonce.push((c >> 24) as u8);
        nonce.push((c >> 16) as u8);
        nonce.push((c >> 8) as u8);
        nonce.push(c as u8);
        self.count = c + 1;
        proof {
            assert(nonce@ =~= spec_nonce_bytes(c));
        }
        nonce
    }
}

/// What AES-256-GCM sealing returns: the ciphertext of the plaintext
/// with the 16-byte authentication tag appended. The result depends on
/// the key, the nonce and the plaintext alone.
pub uninterp spec fn aes256_gcm_seal(key: Seq<u8>, nonce: Seq<u8>, plaintext: Seq<u8>) -> Seq<u8>;

/// What AES-256-GCM opening returns: the plaintext whose sealing under
/// the same key and nonce is the given byte string, or nothing when the
/// tag does not authenticate.
pub uninterp spec fn aes256_gcm_open(key: Seq<u8>, nonce: Seq<u8>, sealed: Seq<u8>) -> Option<
    Seq<u8>,
>;

/// The largest payload the engine accepts, comfortably below the
/// AES-GCM input limit.
pub const MAX_PLAINTEXT_LEN: u64 = 0x1_0000_0000;

/// Relies on ring's `UnboundKey::new` and AES-256-GCM
/// `LessSafeKey::seal_in_place_separate_tag`: sealing is deterministic in
/// key, nonce and plaintext, appends a 16-byte tag, and opening under the
/// same key and nonce recovers exactly the plaintext.
#[verifier::external_body]
fn aead_seal(key: &Vec<u8>, nonce: &Vec<u8>, plaintext: &Vec<u8>) -> (r: Vec<u8>)
    requires
        key@.len() == KEY_LEN,
        nonce@.len() == NONCE_LEN,
        plaintext@.len() < MAX_PLAINTEXT_LEN,
    ensures
        r@ == aes256_gcm_seal(key@, nonce@, plaintext@),
        r@.len() == plaintext@.len() + 16,
        aes256_gcm_open(key@, nonce@, r@) == Some(plaintext@),
{
    let unbound = ring::aead::UnboundKey::new(&ring::aead::AES_256_GCM, key).unwrap();
    let sealing = ring::aead::LessSafeKey::new(unbound);
    let n = ring::aead::Nonce::try_assume_unique_for_key(nonce).unwrap();
    let mut in_out = plaintext.clone();
    let tag = sealing.seal_in_place_separate_tag(n, ring::aead::Aad::empty(), &mut in_out).unwrap();
    in_out.extend_from_slice(tag.as_ref());
    in_out
}

/// Relies on ring's AES-256-GCM `LessSafeKey::open_in_place`: it verifies
/// the tag and inverts sealing, succeeding exactly on sealed texts
/// produced under the same key and nonce; counter-mode encryption is
/// length-preserving and deterministic and the tag is a function of the
/// ciphertext, so for one key and nonce exactly one sealed text opens to
/// any given plaintext.
#[verifier::external_body]
fn aead_open(key: &Vec<u8>, nonce: &Vec<u8>, sealed: &Vec<u8>) -> (r: Option<Vec<u8>>)
    requires
        key@.len() == KEY_LEN,
        nonce@.len() == NONCE_LEN,
    ensures
        match r {
            Some(pt) => {
                &&& aes256_gcm_open(key@, nonce@, sealed@) == Some(pt@)
                &&& sealed@ == aes256_gcm_seal(key@, nonce@, pt@)
                &&& pt@.len() + 16 == sealed@.len()
                &&& forall|other: Seq<u8>|
                    aes256_gcm_open(key@, nonce@, other) == Some(pt@) ==> other == sealed@
            },
            None => aes256_gcm_open(key@, nonce@, sealed@) is None,
        },
{
    let unbound = ring::aead::UnboundKey::new(&ring::aead::AES_256_GCM, key).unwrap();
    let opening = ring::aead::LessSafeKey::new(unbound);
    let n = ring::aead::Nonce::try_assume_unique_for_key(nonce).unwrap();
    let mut in_out = sealed.clone();
    match opening.open_in_place(n, ring::aead::Aad::empty(), &mut in_out) {
        Ok(pt) => Some(pt.to_vec()),
        Err(_) => None,
    }
}

/// Relies on `String::from_utf8`: it accepts exactly the valid UTF-8
/// byte strings and decodes them.
#[verifier::external_body]
fn bytes_to_string(v: Vec<u8>) -> (r: Option<String>)
    ensures
        r is Some <==> vstd::utf8::valid_utf8(v@),
        r is Some ==> r->Some_0@ == vstd::utf8::decode_utf8(v@),
{
    String::from_utf8(v).ok()
}

/// The stored text form of a sealed record: the hex of the nonce, a
/// colon, and the hex of the ciphertext with its tag.
pub open spec fn spec_bundle(nonce: Seq<u8>, sealed: Seq<u8>) -> Seq<char> {
    spec_hex(nonce) + seq![':'] + spec_hex(sealed)
}

/// Take a stored blob apart into nonce bytes and sealed bytes, or
/// nothing if it is not a well-formed bundle.
pub open spec fn spec_parse_bundle(blob: Seq<char>) -> Option<(Seq<u8>, Seq<u8>)> {
    if blob.len() >= 57 && blob[24] == ':' && is_hex_str(blob.subrange(0, 24)) && is_hex_str(
        blob.subrange(25, blob.len() as int),
    ) {
        Some(
            (spec_unhex(blob.subrange(0, 24)), spec_unhex(blob.subrange(25, blob.len() as int))),
        )
    } else {
        None
    }
}

/// Parsing inverts bundling.
pub proof fn lemma_parse_bundle_round_trip(nonce: Seq<u8>, sealed: Seq<u8>)
    requires
        nonce.len() == NONCE_LEN,
        sealed.len() >= 16,
    ensures
        spec_parse_bundle(spec_bundle(nonce, sealed)) == Some((nonce, sealed)),
{
    let blob = spec_bundle(nonce, sealed);
    lemma_hex_well_formed(nonce);
    lemma_hex_well_formed(sealed);
    assert(blob.len() == 25 + spec_hex(sealed).len());
    assert(blob[24] == ':');
    assert(blob.subrange(0, 24) =~= spec_hex(nonce));
    assert(blob.subrange(25, blob.len() as int) =~= spec_hex(sealed));
    lemma_unhex_hex(nonce);
    lemma_unhex_hex(sealed);
}

/// A blob that parses is exactly the bundle of what it parses to: the
/// stored text form of a sealed record is unique.
pub proof fn lemma_bundle_canonical(blob: Seq<char>)
    requires
        spec_parse_bundle(blob) is Some,
    ensures
        blob == spec_bundle(
            spec_parse_bundle(blob)->Some_0.0,
            spec_parse_bundle(blob)->Some_0.1,
        ),
        spec_parse_bundle(blob)->Some_0.0.len() == NONCE_LEN,
        spec_parse_bundle(blob)->Some_0.1.len() >= 16,
{
    let head = blob.subrange(0, 24);
    let tail = blob.subrange(25, blob.len() as int);
    lemma_hex_unhex(head);
    lemma_hex_unhex(tail);
    assert(blob =~= spec_hex(spec_unhex(head)) + seq![':'] + spec_hex(spec_unhex(tail)));
}

/// Bundling never collides: equal stored forms come from equal nonce
/// and sealed bytes.
pub proof fn lemma_bundle_injective(n1: Seq<u8>, ct1: Seq<u8>, n2: Seq<u8>, ct2: Seq<u8>)
    requires
        n1.len() == NONCE_LEN,
        n2.len() == NONCE_LEN,
        spec_bundle(n1, ct1) == spec_bundle(n2, ct2),
    ensures
        n1 == n2,
        ct1 == ct2,
{
    lemma_hex_well_formed(n1);
    lemma_hex_well_formed(n2);
    lemma_hex_well_formed(ct1);
    lemma_hex_well_formed(ct2);
    let b = spec_bundle(n1, ct1);
    assert(spec_hex(n1) =~= b.subrange(0, 24));
    assert(spec_hex(n2) =~= b.subrange(0, 24));
    assert(spec_hex(ct1) =~= b.subrange(25, b.len() as int));
    assert(spec_hex(ct2) =~= b.subrange(25, b.len() as int));
    lemma_unhex_hex(n1);
    lemma_unhex_hex(n2);
    lemma_unhex_hex(ct1);
    lemma_unhex_hex(ct2);
}

/// The blob that `encrypt` stores for a payload, given the counter value
/// from which the nonce is drawn.
pub open spec fn spec_encrypt(key: Seq<u8>, counter: u64, data: Seq<char>) -> Seq<char> {
    spec_bundle(
        spec_nonce_bytes(counter),
        aes256_gcm_seal(key, spec_nonce_bytes(counter), vstd::utf8::encode_utf8(data)),
    )
}

/// The payload a stored blob yields under a key: parse the bundle, open
/// the sealed text, and decode the plaintext bytes; nothing if any step
/// refuses.
pub open spec fn spec_decrypt(key: Seq<u8>, blob: Seq<char>) -> Option<Seq<char>> {
    match spec_parse_bundle(blob) {
        Some(parts) => match aes256_gcm_open(key, parts.0, parts.1) {
            Some(pt) => if vstd::utf8::valid_utf8(pt) {
                Some(vstd::utf8::decode_utf8(pt))
            } else {
                None
            },
            None => None,
        },
        None => None,
    }
}

/// Seal a payload under the key, drawing a fresh nonce from the counter,
/// and return the stored text form. Whatever comes back decrypts to the
/// payload under the same key: the round trip is part of the contract.
pub fn encrypt(data: &str, key: &Vec<u8>, nonces: &mut NonceCounter) -> (r: Result<String, Error>)
    requires
        old(nonces).spec_count() < u64::MAX,
    ensures
        match r {
            Ok(blob) => {
                &&& key@.len() == KEY_LEN
                &&& vstd::utf8::encode_utf8(data@).len() < MAX_PLAINTEXT_LEN
                &&& blob@ == spec_encrypt(key@, old(nonces).spec_count(), data@)
                &&& blob@.len() == 57 + 2 * vstd::utf8::encode_utf8(data@).len()
                &&& spec_decrypt(key@, blob@) == Some(data@)
                &&& final(nonces).spec_count() == old(nonces).spec_count() + 1
            },
            Err(e) => {
                &&& e == Error::CryptoError
                &&& (key@.len() != KEY_LEN || vstd::utf8::encode_utf8(data@).len()
                    >= MAX_PLAINTEXT_LEN)
                &&& *final(nonces) == *old(nonces)
            },
        },
{
    if key.len() != KEY_LEN {
        return Err(Error::CryptoError);
    }
    let pt = data.as_bytes_vec();
    if pt.len() as u64 >= MAX_PLAINTEXT_LEN {
        return Err(Error::CryptoError);
    }
    let ghost c = nonces.spec_count();
    let nonce = nonces.advance();
    let sealed = aead_seal(key, &nonce, &pt);
    let mut blob = hex_encode(&nonce);
    string_push(&mut blob, ':');
    let tail = hex_encode(&sealed);
    blob.append(tail.as_str());
    proof {
        assert(blob@ =~= spec_bundle(nonce@, sealed@));
        lemma_parse_bundle_round_trip(nonce@, sealed@);
        lemma_hex_well_formed(nonce@);
        lemma_hex_well_formed(sealed@);
        vstd::utf8::encode_utf8_valid_utf8(data@);
        vstd::utf8::encode_utf8_decode_utf8(data@);
    }
    Ok(blob)
}

/// Open a stored blob under the key and hand back the payload. The
/// contract is exact: the call succeeds just when the blob is a
/// well-formed bundle whose tag authenticates under the key and whose
/// plaintext decodes as text; and under one key, a payload pins down the
/// one blob with its nonce that yields it, so a tampered blob never
/// passes as the original.
pub fn decrypt(data: &str, key: &Vec<u8>) -> (r: Result<String, Error>)
    ensures
        key@.len() == KEY_LEN ==> match r {
            Ok(p) => {
                &&& spec_decrypt(key@, data@) == Some(p@)
                &&& forall|blob2: Seq<char>|
                    {
                        &&& #[trigger] spec_decrypt(key@, blob2) == Some(p@)
                        &&& spec_parse_bundle(blob2) is Some
                        &&& spec_parse_bundle(blob2)->Some_0.0 == spec_parse_bundle(
                            data@,
                        )->Some_0.0
                    } ==> blob2 == data@
            },
            Err(e) => {
                &&& e == Error::CryptoError
                &&& spec_decrypt(key@, data@) is None
            },
        },
        key@.len() != KEY_LEN ==> r == Err::<String, Error>(Error::CryptoError),
{
    if key.len() != KEY_LEN {
        return Err(Error::CryptoError);
    }
    let parts = match parse_bundle(data) {
        Some(p) => p,
        None => {
            return Err(Error::CryptoError);
        },
    };
    let (nonce, sealed) = parts;
    proof {
        lemma_bundle_canonical(data@);
    }
    let pt = match aead_open(key, &nonce, &sealed) {
        Some(pt) => pt,
        None => {
            return Err(Error::CryptoError);
        },
    };
    let out = match bytes_to_string(pt) {
        Some(s) => s,
        None => {
            return Err(Error::CryptoError);
        },
    };
    proof {
        let ghost pt_bytes = aes256_gcm_open(key@, nonce@, sealed@)->Some_0;
        assert forall|blob2: Seq<char>|
            {
                &&& #[trigger] spec_decrypt(key@, blob2) == Some(out@)
                &&& spec_parse_bundle(blob2) is Some
                &&& spec_parse_bundle(blob2)->Some_0.0 == spec_parse_bundle(data@)->Some_0.0
            } implies blob2 == data@ by {
            let n2 = spec_parse_bundle(blob2)->Some_0.0;
            let ct2 = spec_parse_bundle(blob2)->Some_0.1;
            let pt2 = aes256_gcm_open(key@, n2, ct2)->Some_0;
            vstd::utf8::decode_utf8_encode_utf8(pt2);
            vstd::utf8::decode_utf8_encode_utf8(pt_bytes);
            assert(pt2 == pt_bytes);
            assert(ct2 == sealed@);
            lemma_bundle_canonical(blob2);
        }
    }
    Ok(out)
}

/// What a wrong key can ever do: if a blob produced under one key
/// decrypts under a second key, the blob authenticates under that
/// second key as well — decryption never fabricates a payload from a
/// blob the key does not authenticate. That two distinct keys in fact
/// never both authenticate one blob is the cipher's security claim,
/// witnessed by tests rather than stated of the model.
pub proof fn lemma_wrong_key_never_fabricates(
    key1: Seq<u8>,
    key2: Seq<u8>,
    counter: u64,
    data: Seq<char>,
    q: Seq<char>,
)
    requires
        spec_decrypt(key2, spec_encrypt(key1, counter, data)) == Some(q),
    ensures
        aes256_gcm_open(
            key2,
            spec_nonce_bytes(counter),
            aes256_gcm_seal(key1, spec_nonce_bytes(counter), vstd::utf8::encode_utf8(data)),
        ) == Some(vstd::utf8::encode_utf8(q)),
{
    let n = spec_nonce_bytes(counter);
    let ct = aes256_gcm_seal(key1, n, vstd::utf8::encode_utf8(data));
    let blob = spec_encrypt(key1, counter, data);
    lemma_bundle_canonical(blob);
    let parts = spec_parse_bundle(blob)->Some_0;
    lemma_bundle_injective(n, ct, parts.0, parts.1);
    let pt = aes256_gcm_open(key2, n, ct)->Some_0;
    vstd::utf8::decode_utf8_encode_utf8(pt);
}

/// Take a stored blob apart into its nonce bytes and sealed bytes.
pub fn parse_bundle(blob: &str) -> (r: Option<(Vec<u8>, Vec<u8>)>)
    ensures
        r is Some <==> spec_parse_bundle(blob@) is Some,
        r is Some ==> spec_parse_bundle(blob@) == Some((r->Some_0.0@, r->Some_0.1@)),
{
    let n = blob.unicode_len();
    if n < 57 {
        return None;
    }
    if blob.get_char(24) != ':' {
        return None;
    }
    let head = blob.substring_char(0, 24);
    let tail = blob.substring_char(25, n);
    proof {
        assert(head@ =~= blob@.subrange(0, 24));
        assert(tail@ =~= blob@.subrange(25, blob@.len() as int));
    }
    let nonce = match hex_decode(head) {
        Some(v) => v,
        None => {
            return None;
        },
    };
    let sealed = match hex_decode(tail) {
        Some(v) => v,
        None => {
            return None;
        },
    };
    Some((nonce, sealed))
}

} // verus!
