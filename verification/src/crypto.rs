use vstd::prelude::*;

use serde_encrypt::encrypt::plain_message_shared_key::PlainMessageSharedKey;
use serde_encrypt_core::encrypt::plain_message_shared_key::PlainMessageSharedKeyCore;

verus! {

// ---------------------------------------------------------------------------
// The shared key and the primitives around it. Every node derives the same
// 32 key bytes from the same password, deterministically; the encryption
// itself may be randomized, but decryption is a function of ciphertext and
// key, and carries the name `decrypt_of` below.
// ---------------------------------------------------------------------------

/// What the SHA-256 digest of a text spells as lowercase hex.
pub uninterp spec fn sha256_hex_of(s: Seq<char>) -> Seq<char>;

/// What decrypting a serialized encrypted message with a key yields:
/// the plaintext when the message is authentic, nothing otherwise.
pub uninterp spec fn decrypt_of(cipher: Seq<u8>, key: Seq<u8>) -> Option<Seq<u8>>;

pub open spec fn is_hex_digit(c: char) -> bool {
    ||| 48 <= c as u32 <= 57
    ||| 97 <= c as u32 <= 102
    ||| 65 <= c as u32 <= 70
}

pub open spec fn hex_digit_val(c: char) -> int {
    if 48 <= c as u32 <= 57 {
        c as u32 - 48
    } else if 97 <= c as u32 <= 102 {
        c as u32 - 87
    } else if 65 <= c as u32 <= 70 {
        c as u32 - 55
    } else {
        0
    }
}

/// The bytes a string of hex digit pairs spells.
pub open spec fn hex_bytes_of(s: Seq<char>) -> Seq<u8>
    decreases s.len(),
{
    if s.len() < 2 {
        Seq::empty()
    } else {
        seq![(hex_digit_val(s[0]) * 16 + hex_digit_val(s[1])) as u8] + hex_bytes_of(s.skip(2))
    }
}

pub proof fn lemma_hex_bytes_of_len(s: Seq<char>)
    requires
        s.len() % 2 == 0,
    ensures
        hex_bytes_of(s).len() == s.len() / 2,
    decreases s.len(),
{
    if s.len() >= 2 {
        lemma_hex_bytes_of_len(s.skip(2));
    }
}

/// Relies on sha256::digest: the lowercase hex spelling, 64 digits long,
/// of the SHA-256 hash of the text's UTF-8 bytes; a function of the text
/// alone, here given the name `sha256_hex_of`.
#[verifier::external_body]
fn digest_hex(s: &str) -> (r: String)
    ensures
        r@ == sha256_hex_of(s@),
        r@.len() == 64,
        forall|i: int| 0 <= i < r@.len() ==> is_hex_digit(#[trigger] r@[i]),
{
    sha256::digest(s)
}

/// Relies on hex::decode: on an even-length string of hex digits it
/// succeeds, turning each digit pair into one byte.
#[verifier::external_body]
fn hex_decode(s: &str) -> (r: Vec<u8>)
    requires
        s@.len() % 2 == 0,
        forall|i: int| 0 <= i < s@.len() ==> is_hex_digit(#[trigger] s@[i]),
    ensures
        r@ == hex_bytes_of(s@),
{
    hex::decode(s).unwrap()
}

/// The 32 bytes every connection encrypts with, derived once from the
/// configured password.
pub struct SharedKeyMaterial {
    pub bytes: Vec<u8>,
}

impl View for SharedKeyMaterial {
    type V = Seq<u8>;

    open spec fn view(&self) -> Seq<u8> {
        self.bytes@
    }
}

impl SharedKeyMaterial {
    pub open spec fn wf(&self) -> bool {
        self@.len() == 32
    }

    /// A value-preserving copy, for handing the key to several connections.
    pub fn dup(&self) -> (r: SharedKeyMaterial)
        ensures
            r@ == self@,
    {
        SharedKeyMaterial { bytes: self.bytes.clone() }
    }
}

/// The key bytes a password derives: the digest's hex spelling, read back
/// as 32 bytes. Identical on every node configured with the same password.
pub open spec fn key_of_password(pw: Seq<char>) -> Seq<u8> {
    hex_bytes_of(sha256_hex_of(pw))
}

/// Derive the shared key from the configured password.
pub fn pwd2key(password: String) -> (k: SharedKeyMaterial)
    ensures
        k.wf(),
        k@ == key_of_password(password@),
{
    let d = digest_hex(password.as_str());
    let bytes = hex_decode(d.as_str());
    proof {
        lemma_hex_bytes_of_len(d@);
    }
    SharedKeyMaterial { bytes }
}

/// The content digest that gates clipboard updates.
pub fn hash(data: &str) -> (r: String)
    ensures
        r@ == sha256_hex_of(data@),
{
    digest_hex(data)
}

/// Relies on serde_encrypt's shared-key encryption: a message encrypted
/// under a key and serialized (PlainMessageSharedKeyCore::encrypt, then
/// EncryptedMessage::serialize) decrypts under that key back to the
/// plaintext. The plaintext stays under the cipher's size ceiling.
#[verifier::external_body]
pub(crate) fn encrypt_bytes(plain: Vec<u8>, key: &SharedKeyMaterial) -> (r: Vec<u8>)
    requires
        key.wf(),
        plain@.len() < 0x8_0000_0000,
    ensures
        decrypt_of(r@, key@) == Some(plain@),
{
    let arr: [u8; 32] = key.bytes.as_slice().try_into().unwrap();
    let k = serde_encrypt::shared_key::SharedKey::new(arr);
    let msg = PlainMessageSharedKey::new(plain);
    msg.encrypt(&k).unwrap().serialize()
}

/// Relies on serde_encrypt's EncryptedMessage::deserialize and
/// PlainMessageSharedKeyCore::decrypt: together a deterministic function
/// of ciphertext and key, here given the name `decrypt_of`; it fails on a
/// truncated envelope and on any unauthentic message.
#[verifier::external_body]
pub(crate) fn decrypt_bytes(cipher: &Vec<u8>, key: &SharedKeyMaterial) -> (r: Option<Vec<u8>>)
    requires
        key.wf(),
    ensures
        r is Some <==> decrypt_of(cipher@, key@) is Some,
        r is Some ==> r->0@ == decrypt_of(cipher@, key@)->0,
{
    let arr: [u8; 32] = key.bytes.as_slice().try_into().unwrap();
    let k = serde_encrypt::shared_key::SharedKey::new(arr);
    let msg = match serde_encrypt::EncryptedMessage::deserialize(cipher.clone()) {
        Ok(m) => m,
        Err(_) => return None,
    };
    match PlainMessageSharedKey::decrypt(&msg, &k) {
        Ok(m) => Some(m.into_vec()),
        Err(_) => None,
    }
}

/// Relies on rand::random: a fresh pseudo-random request nonce; nothing
/// is assumed of its value.
#[verifier::external_body]
pub(crate) fn fresh_nonce() -> u32 {
    rand::random()
}

} // verus!
