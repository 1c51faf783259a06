use aes_gcm::aead::Aead;
use aes_gcm::{Aes256Gcm, KeyInit};
use artichoke::encoding::{from_base64, to_base64};
use artichoke::sealed_url::{
    decrypt_url, encrypt_url, read_opened, read_sealed, write_sealed, TAG_LEN,
};

fn seal_directly(message: &[u8]) -> Vec<u8> {
    let key = [0u8; 32];
    let nonce = [0u8; 12];
    let cipher = Aes256Gcm::new((&key).into());
    cipher.encrypt((&nonce).into(), message).unwrap()
}

#[test]
fn sealed_addresses_open_again() {
    let long = "x".repeat(5000);
    for url in ["N/A", "", "abcdefghij.onion", "snow \u{2603} man", long.as_str()] {
        assert_eq!(decrypt_url(&encrypt_url(url)), url);
    }
}

#[test]
fn empty_address_has_a_known_sealed_form() {
    assert_eq!(encrypt_url(""), "Uw+K+8dFNrmpY7TxxMtziw==");
}

#[test]
fn sixteen_zero_bytes_have_a_known_sealed_form() {
    let url: String = vec!['\0'; 16].into_iter().collect();
    assert_eq!(encrypt_url(&url), "zqdAPU1ga24HTsXTuvOdGNDRyKeZmWvwJluYtdSKuRk=");
}

#[test]
fn sealing_is_the_cipher_in_base64() {
    for url in ["N/A", "abc.onion", "\u{fc}ber"] {
        let sealed = seal_directly(url.as_bytes());
        assert_eq!(sealed.len(), url.len() + TAG_LEN);
        assert_eq!(encrypt_url(url), to_base64(&sealed));
    }
}

#[test]
fn the_length_of_a_sealed_form() {
    for len in 0..70usize {
        let sealed = encrypt_url(&"u".repeat(len));
        assert_eq!(sealed.len(), 4 * ((len + 18) / 3));
        assert!(!sealed.is_empty());
        assert_eq!(read_sealed(&sealed).len(), len + TAG_LEN);
    }
    assert_eq!(encrypt_url("N/A").len(), 28);
}

#[test]
fn a_clean_result_tells_the_sealed_form() {
    let sealed = encrypt_url("abc.onion");
    let mut texts = vec![sealed.clone(), String::new(), "not base64!".to_string()];
    for at in 0..sealed.len() {
        let mut changed = sealed.clone().into_bytes();
        changed[at] = if changed[at] == b'A' { b'B' } else { b'A' };
        texts.push(String::from_utf8(changed).unwrap());
    }
    texts.push(to_base64(&seal_directly(&[0x61, 0xff])));
    let mut clean = 0;
    for text in &texts {
        let url = decrypt_url(text);
        if url != "error_decrypting" && !url.contains('\u{fffd}') {
            assert_eq!(&encrypt_url(&url), text);
            clean += 1;
        }
    }
    assert_eq!(clean, 1);
}

#[test]
fn same_address_same_sealed_form() {
    assert_eq!(encrypt_url("abc.onion"), encrypt_url("abc.onion"));
    assert_ne!(encrypt_url("abc.onion"), encrypt_url("abd.onion"));
}

#[test]
fn what_does_not_open_gives_the_error_text() {
    assert_eq!(decrypt_url(""), "error_decrypting");
    assert_eq!(decrypt_url("not base64!"), "error_decrypting");
    assert_eq!(decrypt_url("AAAA"), "error_decrypting");
    assert_eq!(decrypt_url(&to_base64(&[0u8; 15])), "error_decrypting");
    assert_eq!(decrypt_url("Uw+K+8dFNrmpY7TxxMtzig=="), "error_decrypting");
    let mut sealed = seal_directly(b"abc.onion");
    sealed[0] ^= 1;
    assert_eq!(decrypt_url(&to_base64(&sealed)), "error_decrypting");
}

#[test]
fn no_other_text_opens_to_an_address() {
    let sealed = encrypt_url("abc.onion");
    assert!(sealed.ends_with('='));
    let unpadded = sealed.trim_end_matches('=');
    assert_eq!(decrypt_url(unpadded), "error_decrypting");
    assert_eq!(decrypt_url(&format!("{} ", sealed)), "error_decrypting");
}

#[test]
fn opened_bytes_that_are_no_text_are_repaired() {
    assert_eq!(read_opened(Some(vec![0x61, 0xff, 0x62])), "a\u{fffd}b");
    assert_eq!(decrypt_url(&to_base64(&seal_directly(&[0x61, 0xff, 0x62]))), "a\u{fffd}b");
    assert_eq!(read_opened(Some(vec![0xe2, 0x98, 0x83])), "\u{2603}");
    assert_eq!(read_opened(Some(vec![])), "");
    assert_eq!(read_opened(None), "error_decrypting");
}

#[test]
fn sealed_bytes_are_written_and_read() {
    assert_eq!(write_sealed(Some(vec![0x4d, 0x61, 0x6e])), "TWFu");
    assert_eq!(write_sealed(None), "");
    assert_eq!(read_sealed("TWFu"), vec![0x4d, 0x61, 0x6e]);
    assert!(read_sealed("TWF").is_empty());
}

#[test]
fn base64_of_known_texts() {
    for (data, text) in [
        ("", ""),
        ("f", "Zg=="),
        ("fo", "Zm8="),
        ("foo", "Zm9v"),
        ("foob", "Zm9vYg=="),
        ("fooba", "Zm9vYmE="),
        ("foobar", "Zm9vYmFy"),
    ] {
        assert_eq!(to_base64(data.as_bytes()), text);
        assert_eq!(from_base64(text), Some(data.as_bytes().to_vec()));
    }
    assert_eq!(to_base64(&[0xfb, 0xff, 0xbf]), "+/+/");
}

#[test]
fn base64_reads_only_what_it_writes() {
    for text in ["Zg", "Zg=", "Zh==", "Zm9=", "Zm9v\n", " Zm9v", "Zm9-", "====", "Z"] {
        assert_eq!(from_base64(text), None, "{:?}", text);
    }
}

#[test]
fn base64_round_trip() {
    let mut data: Vec<u8> = Vec::new();
    for i in 0..300u32 {
        assert_eq!(from_base64(&to_base64(&data)), Some(data.clone()));
        data.push((i * 7 % 256) as u8);
    }
}
