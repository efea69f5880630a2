use miscreant::aead::{Aes128PmacSiv, Aes128Siv, Aes256PmacSiv, Aes256Siv, Algorithm};
use miscreant::buffer::Buffer;
use miscreant::Error;

fn hex(s: &str) -> Vec<u8> {
    (0..s.len())
        .step_by(2)
        .map(|i| u8::from_str_radix(&s[i..i + 2], 16).unwrap())
        .collect()
}

struct Example {
    alg: &'static str,
    key: Vec<u8>,
    ad: Vec<u8>,
    nonce: Vec<u8>,
    plaintext: Vec<u8>,
}

fn examples() -> Vec<Example> {
    let mut out = Vec::new();
    for alg in ["AES-SIV", "AES-PMAC-SIV"] {
        for key_len in [32u8, 64] {
            out.push(Example {
                alg,
                key: (0..key_len).collect(),
                ad: hex("00112233445566778899aabbccddeeff"),
                nonce: hex("09f911029d74e35bd84156c5635688c0"),
                plaintext: b"this is some plaintext to encrypt".to_vec(),
            });
        }
    }
    out
}

fn seal(ex: &Example) -> Vec<u8> {
    match ex.alg {
        "AES-SIV" => match ex.key.len() {
            32 => Aes128Siv::new(&ex.key).seal(&ex.nonce, &ex.ad, &ex.plaintext),
            64 => Aes256Siv::new(&ex.key).seal(&ex.nonce, &ex.ad, &ex.plaintext),
            _ => panic!("unexpected key size: {}", ex.key.len()),
        },
        "AES-PMAC-SIV" => match ex.key.len() {
            32 => Aes128PmacSiv::new(&ex.key).seal(&ex.nonce, &ex.ad, &ex.plaintext),
            64 => Aes256PmacSiv::new(&ex.key).seal(&ex.nonce, &ex.ad, &ex.plaintext),
            _ => panic!("unexpected key size: {}", ex.key.len()),
        },
        _ => panic!("unexpected algorithm: {}", ex.alg),
    }
}

#[test]
fn aes_siv_aead_examples_seal() {
    for ex in examples() {
        let ciphertext = seal(&ex);
        let headers: Vec<&[u8]> = vec![&ex.ad, &ex.nonce];
        let expected = match (ex.alg, ex.key.len()) {
            ("AES-SIV", 32) => miscreant::siv::Aes128Siv::new(&ex.key).seal(&headers, &ex.plaintext),
            ("AES-SIV", 64) => miscreant::siv::Aes256Siv::new(&ex.key).seal(&headers, &ex.plaintext),
            ("AES-PMAC-SIV", 32) => {
                miscreant::siv::Aes128PmacSiv::new(&ex.key).seal(&headers, &ex.plaintext)
            }
            _ => miscreant::siv::Aes256PmacSiv::new(&ex.key).seal(&headers, &ex.plaintext),
        };
        assert_eq!(ciphertext, expected);
    }
}

#[test]
fn aes_siv_aead_examples_open() {
    for ex in examples() {
        let ciphertext = seal(&ex);
        let plaintext = match ex.alg {
            "AES-SIV" => match ex.key.len() {
                32 => Aes128Siv::new(&ex.key).open(&ex.nonce, &ex.ad, &ciphertext),
                64 => Aes256Siv::new(&ex.key).open(&ex.nonce, &ex.ad, &ciphertext),
                _ => panic!("unexpected key size: {}", ex.key.len()),
            },
            "AES-PMAC-SIV" => match ex.key.len() {
                32 => Aes128PmacSiv::new(&ex.key).open(&ex.nonce, &ex.ad, &ciphertext),
                64 => Aes256PmacSiv::new(&ex.key).open(&ex.nonce, &ex.ad, &ciphertext),
                _ => panic!("unexpected key size: {}", ex.key.len()),
            },
            _ => panic!("unexpected algorithm: {}", ex.alg),
        }
        .expect("decrypt failure");
        assert_eq!(plaintext, ex.plaintext);
    }
}

#[test]
fn aead_wrong_nonce_fails() {
    let key: Vec<u8> = (0..32u8).collect();
    let mut alg = Aes128Siv::new(&key);
    let c = alg.seal(b"nonce-1", b"ad", b"message");
    assert_eq!(alg.open(b"nonce-2", b"ad", &c), Err(Error));
    assert_eq!(alg.open(b"ad", b"nonce-1", &c), Err(Error));
    assert_eq!(alg.open(b"nonce-1", b"ad", &c).unwrap(), b"message".to_vec());
}

#[test]
fn buffer_slices() {
    let key: Vec<u8> = (0..32u8).collect();
    let mut contents = vec![0u8; 16];
    contents.extend_from_slice(b"hello");
    let mut buffer = Buffer::new(contents);
    assert_eq!(buffer.msg_slice(), b"hello");
    assert_eq!(buffer.tag_slice(), &[0u8; 16][..]);
    Aes128Siv::new(&key).seal_in_place(b"n", b"a", buffer.as_mut_slice());
    let sealed = Aes128Siv::new(&key).seal(b"n", b"a", b"hello");
    assert_eq!(buffer.as_slice(), &sealed[..]);
    assert_eq!(buffer.tag_slice(), &sealed[..16]);
    buffer.mut_msg_slice()[0] ^= 1;
    assert!(Aes128Siv::new(&key).open_in_place(b"n", b"a", buffer.as_mut_slice()).is_err());
    buffer.mut_msg_slice()[0] ^= 1;
    buffer.mut_tag_slice()[15] ^= 2;
    assert_ne!(buffer.tag_slice(), &sealed[..16]);
    buffer.mut_tag_slice()[15] ^= 2;
    let opened = Aes128Siv::new(&key)
        .open_in_place(b"n", b"a", buffer.as_mut_slice())
        .expect("decrypt failure")
        .to_vec();
    assert_eq!(opened, b"hello".to_vec());
    assert_eq!(&buffer.into_contents()[16..], b"hello");
}

#[test]
fn error_description() {
    assert_eq!(Error.description(), "miscreant::error::Error");
}
