//! The sealed form in which a peer announces where its files are served.
//!
//! An address is encrypted with AES-256-GCM and written in Base64. All peers share one key and
//! one nonce, so the same address always has the same sealed form and every peer can open it.

use vstd::prelude::*;
use vstd::utf8::{decode_utf8, encode_utf8, valid_utf8};

use crate::encoding::{base64_data, base64_len, base64_text, from_base64, lemma_base64_len, to_base64};

verus! {

/// The length of the authentication tag at the end of a sealed message.
pub const TAG_LEN: usize = 16;

/// The longest message that can be sealed.
pub const MAX_MESSAGE_LEN: u64 = 68_719_476_736;

/// What stands in a text where bytes could not be read.
pub const REPLACEMENT: char = '\u{fffd}';

/// What `decrypt_url` gives for a text that no peer could have sealed.
pub open spec fn unopened_text() -> Seq<char> {
    "error_decrypting"@
}

/// The key that all peers share.
pub open spec fn shared_key() -> Seq<u8> {
    Seq::new(32, |i: int| 0u8)
}

/// The nonce that all peers share.
pub open spec fn shared_nonce() -> Seq<u8> {
    Seq::new(12, |i: int| 0u8)
}

/// What AES-256-GCM makes of a message under a key and a nonce, without associated data: the
/// ciphertext with the tag behind it.
pub uninterp spec fn gcm_sealed(key: Seq<u8>, nonce: Seq<u8>, message: Seq<u8>) -> Seq<u8>;

/// The message that AES-256-GCM opens a ciphertext to under a key and a nonce, without associated
/// data; none where the tag does not match.
pub uninterp spec fn gcm_opened(
    key: Seq<u8>,
    nonce: Seq<u8>,
    sealed: Seq<u8>,
) -> Option<Seq<u8>>;

/// How invalid UTF-8 reads once what is malformed in it has been replaced.
pub uninterp spec fn utf8_repaired(bytes: Seq<u8>) -> Seq<char>;

#[verifier::external_type_specification]
#[verifier::external_body]
pub struct ExAeadError(aes_gcm::Error);

/// `aes_gcm::aead::Aead::encrypt` of `Aes256Gcm` refuses a message that is longer than
/// `MAX_MESSAGE_LEN` and nothing else. It returns the ciphertext with the tag behind it, which
/// depends on the key, the nonce and the message alone and which `decrypt` under the same key and
/// nonce turns back into the message. Nothing is claimed of how hard it is to open.
#[verifier::external_body]
fn gcm_encrypt(key: &[u8; 32], nonce: &[u8; 12], message: &[u8]) -> (sealed: Result<
    Vec<u8>,
    aes_gcm::Error,
>)
    requires
        message@.len() + TAG_LEN <= isize::MAX,
    ensures
        match sealed {
            Ok(bytes) => {
                &&& message@.len() <= MAX_MESSAGE_LEN
                &&& bytes@ == gcm_sealed(key@, nonce@, message@)
                &&& bytes@.len() == message@.len() + TAG_LEN
                &&& gcm_opened(key@, nonce@, bytes@) == Some(message@)
            },
            Err(_) => message@.len() > MAX_MESSAGE_LEN,
        },
{
    let cipher = <aes_gcm::Aes256Gcm as aes_gcm::KeyInit>::new(key.into());
    aes_gcm::aead::Aead::encrypt(&cipher, nonce.into(), message)
}

/// `aes_gcm::aead::Aead::decrypt` of `Aes256Gcm` returns the message, or an error where the tag
/// does not match, as it never does where there is no room for one. What it returns depends on
/// the key, the nonce and the ciphertext alone. The message is as long as the ciphertext without
/// the tag; sealing it again, where it is short enough, gives the ciphertext. A message that it
/// opens may be up to `TAG_LEN` bytes longer than what `encrypt` takes, and no more.
#[verifier::external_body]
fn gcm_decrypt(key: &[u8; 32], nonce: &[u8; 12], sealed: &[u8]) -> (message: Result<
    Vec<u8>,
    aes_gcm::Error,
>)
    ensures
        match message {
            Ok(bytes) => {
                &&& gcm_opened(key@, nonce@, sealed@) == Some(bytes@)
                &&& bytes@.len() + TAG_LEN == sealed@.len()
                &&& bytes@.len() <= MAX_MESSAGE_LEN + TAG_LEN
                &&& bytes@.len() <= MAX_MESSAGE_LEN ==> gcm_sealed(key@, nonce@, bytes@) == sealed@
            },
            Err(_) => gcm_opened(key@, nonce@, sealed@) is None,
        },
{
    let cipher = <aes_gcm::Aes256Gcm as aes_gcm::KeyInit>::new(key.into());
    aes_gcm::aead::Aead::decrypt(&cipher, nonce.into(), sealed)
}

/// `String::from_utf8_lossy` reads valid UTF-8 as what it is, and replaces what is malformed in
/// other bytes by U+FFFD, which then occurs in the text.
#[verifier::external_body]
fn utf8_lossy(bytes: &[u8]) -> (text: String)
    ensures
        valid_utf8(bytes@) ==> text@ == decode_utf8(bytes@),
        !valid_utf8(bytes@) ==> text@ == utf8_repaired(bytes@) && text@.contains(REPLACEMENT),
{
    String::from_utf8_lossy(bytes).to_string()
}

/// Bytes read as text, whatever they are.
pub open spec fn lossy_text(bytes: Seq<u8>) -> Seq<char> {
    if valid_utf8(bytes) {
        decode_utf8(bytes)
    } else {
        utf8_repaired(bytes)
    }
}

/// The text for an address that AES-256-GCM sealed to `sealed`, or refused to seal.
pub open spec fn sealed_text(sealed: Option<Seq<u8>>) -> Seq<char> {
    match sealed {
        Some(bytes) => base64_text(bytes),
        None => Seq::empty(),
    }
}

/// The address for a text that AES-256-GCM opened to `opened`, or refused to open.
pub open spec fn opened_text(opened: Option<Seq<u8>>) -> Seq<char> {
    match opened {
        Some(bytes) => lossy_text(bytes),
        None => unopened_text(),
    }
}

/// The sealed bytes that a text holds: none where it is not Base64.
pub open spec fn sealed_bytes(text: Seq<char>) -> Seq<u8> {
    match base64_data(text) {
        Some(bytes) => bytes,
        None => Seq::empty(),
    }
}

/// The sealed form of an address.
pub open spec fn encrypted_url(url: Seq<char>) -> Seq<char> {
    let message = encode_utf8(url);
    sealed_text(
        if message.len() <= MAX_MESSAGE_LEN {
            Some(gcm_sealed(shared_key(), shared_nonce(), message))
        } else {
            None
        },
    )
}

/// The address that a sealed form opens to.
pub open spec fn decrypted_url(text: Seq<char>) -> Seq<char> {
    opened_text(gcm_opened(shared_key(), shared_nonce(), sealed_bytes(text)))
}

/// Whether the sealed form of an address with `n` bytes fits into memory.
pub open spec fn sealed_form_fits(n: nat) -> bool {
    base64_len(n + TAG_LEN as nat) <= isize::MAX
}

/// Writes down what sealing an address gave.
pub fn write_sealed(sealed: Option<Vec<u8>>) -> (text: String)
    requires
        sealed matches Some(bytes) ==> base64_len(bytes@.len()) <= isize::MAX,
    ensures
        text@ == sealed_text(
            match sealed {
                Some(bytes) => Some(bytes@),
                None => None,
            },
        ),
        sealed matches Some(bytes) ==> base64_data(text@) == Some(bytes@) && sealed_bytes(text@)
            == bytes@,
{
    match sealed {
        Some(bytes) => to_base64(bytes.as_slice()),
        None => to_base64(Vec::<u8>::new().as_slice()),
    }
}

/// Reads the sealed bytes out of a text.
pub fn read_sealed(text: &str) -> (bytes: Vec<u8>)
    ensures
        bytes@ == sealed_bytes(text@),
{
    match from_base64(text) {
        Some(bytes) => bytes,
        None => Vec::new(),
    }
}

/// Reads what opening a sealed address gave.
pub fn read_opened(opened: Option<Vec<u8>>) -> (url: String)
    ensures
        url@ == opened_text(
            match opened {
                Some(bytes) => Some(bytes@),
                None => None,
            },
        ),
        opened matches Some(bytes) && !valid_utf8(bytes@) ==> url@.contains(REPLACEMENT),
{
    match opened {
        Some(bytes) => utf8_lossy(bytes.as_slice()),
        None => "error_decrypting".to_string(),
    }
}

/// Seals an address. The sealed form is the Base64 of the encrypted address and the tag, so it is
/// never empty; an address that is too long to be sealed gives the empty text.
///
/// `decrypt_url` gives the address back.
pub fn encrypt_url(url: &str) -> (text: String)
    requires
        sealed_form_fits(encode_utf8(url@).len()),
    ensures
        text@ == encrypted_url(url@),
        encode_utf8(url@).len() <= MAX_MESSAGE_LEN ==> {
            &&& decrypted_url(text@) == url@
            &&& base64_data(text@) == Some(
                gcm_sealed(shared_key(), shared_nonce(), encode_utf8(url@)),
            )
            &&& sealed_bytes(text@).len() == encode_utf8(url@).len() + TAG_LEN
            &&& text@.len() == base64_len(encode_utf8(url@).len() + TAG_LEN as nat)
            &&& text@.len() > 0
        },
        encode_utf8(url@).len() > MAX_MESSAGE_LEN ==> text@.len() == 0,
{
    let key: [u8; 32] = [0u8; 32];
    let nonce: [u8; 12] = [0u8; 12];
    proof {
        assert(key@ =~= shared_key());
        assert(nonce@ =~= shared_nonce());
        vstd::utf8::encode_utf8_valid_utf8(url@);
        vstd::utf8::encode_utf8_decode_utf8(url@);
    }
    match gcm_encrypt(&key, &nonce, url.as_bytes()) {
        Ok(sealed) => {
            proof {
                lemma_base64_len(sealed@);
            }
            write_sealed(Some(sealed))
        },
        Err(_) => write_sealed(None),
    }
}

/// Whether a text opens to an address that could be sealed.
pub open spec fn opens_to_url(text: Seq<char>) -> bool {
    gcm_opened(shared_key(), shared_nonce(), sealed_bytes(text)) matches Some(message) && valid_utf8(
        message,
    ) && message.len() <= MAX_MESSAGE_LEN
}

/// Opens a sealed address. A text that does not open gives `error_decrypting`, as does every text
/// that is not Base64 or has no room for a tag.
///
/// A text that opens to an address is the sealed form of that address: no other text opens to it.
/// So a result that is not `error_decrypting` and holds no replacement character is what the text
/// was opened to, and the text is its sealed form, unless it is so long that it has none.
pub fn decrypt_url(encrypted_url: &str) -> (url: String)
    ensures
        url@ == decrypted_url(encrypted_url@),
        base64_data(encrypted_url@) is None ==> url@ == unopened_text(),
        sealed_bytes(encrypted_url@).len() < TAG_LEN ==> url@ == unopened_text(),
        opens_to_url(encrypted_url@) ==> encrypted_url@ == self::encrypted_url(url@),
        url@ != unopened_text() && !url@.contains(REPLACEMENT) ==> {
            &&& gcm_opened(shared_key(), shared_nonce(), sealed_bytes(encrypted_url@)) == Some(
                encode_utf8(url@),
            )
            &&& encode_utf8(url@).len() <= MAX_MESSAGE_LEN + TAG_LEN
            &&& encode_utf8(url@).len() <= MAX_MESSAGE_LEN ==> encrypted_url@
                == self::encrypted_url(url@)
        },
{
    let key: [u8; 32] = [0u8; 32];
    let nonce: [u8; 12] = [0u8; 12];
    proof {
        assert(key@ =~= shared_key());
        assert(nonce@ =~= shared_nonce());
    }
    let sealed: Vec<u8> = read_sealed(encrypted_url);
    match gcm_decrypt(&key, &nonce, sealed.as_slice()) {
        Ok(message) => {
            proof {
                if valid_utf8(message@) {
                    vstd::utf8::decode_utf8_encode_utf8(message@);
                }
            }
            read_opened(Some(message))
        },
        Err(_) => read_opened(None),
    }
}

/// A text opens to what AES-256-GCM, under a key and a nonce of zeros, makes of the bytes that it
/// is the Base64 of; everything that does not open gives `error_decrypting`.
pub proof fn law_opening(text: Seq<char>, sealed: Seq<u8>)
    requires
        base64_data(text) == Some(sealed),
    ensures
        ({
            let opened = gcm_opened(Seq::new(32, |i: int| 0u8), Seq::new(12, |i: int| 0u8), sealed);
            &&& opened is None ==> decrypted_url(text) == "error_decrypting"@
            &&& opened is Some && valid_utf8(opened->0) ==> encode_utf8(decrypted_url(text))
                == opened->0
            &&& opened is Some && !valid_utf8(opened->0) ==> decrypted_url(text) == utf8_repaired(
                opened->0,
            )
        }),
{
    let opened = gcm_opened(Seq::new(32, |i: int| 0u8), Seq::new(12, |i: int| 0u8), sealed);
    assert(Seq::new(32, |i: int| 0u8) =~= shared_key());
    assert(Seq::new(12, |i: int| 0u8) =~= shared_nonce());
    if let Some(message) = opened {
        if valid_utf8(message) {
            vstd::utf8::decode_utf8_encode_utf8(message);
        }
    }
}

} // verus!
