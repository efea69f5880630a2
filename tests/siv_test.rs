use miscreant::cmac::Aes128Cmac;
use miscreant::mac::Mac;
use miscreant::siv::{Aes128PmacSiv, Aes128Siv, Aes256PmacSiv, Aes256Siv};

fn hex(s: &str) -> Vec<u8> {
    (0..s.len())
        .step_by(2)
        .map(|i| u8::from_str_radix(&s[i..i + 2], 16).unwrap())
        .collect()
}

struct Example {
    key: Vec<u8>,
    ad: Vec<Vec<u8>>,
    plaintext: Vec<u8>,
    ciphertext: Vec<u8>,
}

/// The deterministic and nonce-based examples of RFC 5297, appendix A.
fn aes_siv_examples() -> Vec<Example> {
    vec![
        Example {
            key: hex("fffefdfcfbfaf9f8f7f6f5f4f3f2f1f0f0f1f2f3f4f5f6f7f8f9fafbfcfdfeff"),
            ad: vec![hex("101112131415161718191a1b1c1d1e1f2021222324252627")],
            plaintext: hex("112233445566778899aabbccddee"),
            ciphertext: hex("85632d07c6e8f37f950acd320a2ecc9340c02b9690c4dc04daef7f6afe5c"),
        },
        Example {
            key: hex("7f7e7d7c7b7a79787776757473727170404142434445464748494a4b4c4d4e4f"),
            ad: vec![
                hex("00112233445566778899aabbccddeeffdeaddadadeaddadaffeeddccbbaa99887766554433221100"),
                hex("102030405060708090a0"),
                hex("09f911029d74e35bd84156c5635688c0"),
            ],
            plaintext: hex("7468697320697320736f6d6520706c61696e7465787420746f20656e6372797074207573696e67205349562d414553"),
            ciphertext: hex("7bdb6e3b432667eb06f4d14bff2fbd0fcb900f2fddbe404326601965c889bf17dba77ceb094fa663b7a3f748ba8af829ea64ad544a272e9c485b62a3fd5c0d"),
        },
    ]
}

fn headers(ad: &[Vec<u8>]) -> Vec<&[u8]> {
    ad.iter().map(|v| v.as_slice()).collect()
}

#[test]
fn siv_test_aes_siv_examples_seal() {
    for example in aes_siv_examples() {
        let ad = headers(&example.ad);
        let ciphertext = match example.key.len() {
            32 => Aes128Siv::new(&example.key).seal(&ad, &example.plaintext),
            64 => Aes256Siv::new(&example.key).seal(&ad, &example.plaintext),
            _ => panic!("unexpected key size: {}", example.key.len()),
        };
        assert_eq!(ciphertext, example.ciphertext);
    }
}

#[test]
fn siv_test_aes_siv_examples_open() {
    for example in aes_siv_examples() {
        let ad = headers(&example.ad);
        let plaintext = match example.key.len() {
            32 => Aes128Siv::new(&example.key).open(&ad, &example.ciphertext),
            64 => Aes256Siv::new(&example.key).open(&ad, &example.ciphertext),
            _ => panic!("unexpected key size: {}", example.key.len()),
        }
        .expect("decrypt failure");
        assert_eq!(plaintext, example.plaintext);
    }
}

#[test]
fn siv_test_aes_pmac_siv_examples_seal() {
    for example in aes_siv_examples() {
        let ad = headers(&example.ad);
        let ciphertext = Aes128PmacSiv::new(&example.key).seal(&ad, &example.plaintext);
        assert_eq!(ciphertext.len(), example.plaintext.len() + 16);
        assert_ne!(ciphertext, example.ciphertext);
        let again = Aes128PmacSiv::new(&example.key).seal(&ad, &example.plaintext);
        assert_eq!(ciphertext, again);
    }
}

#[test]
fn siv_test_aes_pmac_siv_examples_open() {
    for example in aes_siv_examples() {
        let ad = headers(&example.ad);
        let ciphertext = Aes128PmacSiv::new(&example.key).seal(&ad, &example.plaintext);
        let plaintext = Aes128PmacSiv::new(&example.key)
            .open(&ad, &ciphertext)
            .expect("decrypt failure");
        assert_eq!(plaintext, example.plaintext);
    }
}

#[test]
fn lib_aes_siv_examples_seal() {
    for example in aes_siv_examples() {
        let ad = headers(&example.ad);
        let mut buffer = vec![0; example.plaintext.len() + 16];
        buffer[16..].copy_from_slice(&example.plaintext);
        match example.key.len() {
            32 => Aes128Siv::new(&example.key).seal_in_place(&ad, &mut buffer),
            64 => Aes256Siv::new(&example.key).seal_in_place(&ad, &mut buffer),
            _ => panic!("unexpected key size: {}", example.key.len()),
        }
        assert_eq!(buffer, example.ciphertext);
    }
}

#[test]
fn lib_aes_siv_examples_open() {
    for example in aes_siv_examples() {
        let ad = headers(&example.ad);
        let mut buffer = example.ciphertext.clone();
        let mut siv = Aes128Siv::new(&example.key);
        let plaintext = siv.open_in_place(&ad, &mut buffer).expect("successful decrypt");
        assert_eq!(plaintext, &example.plaintext[..]);
    }
}

#[test]
fn lib_aes_pmac_siv_examples_seal() {
    for example in aes_siv_examples() {
        let ad = headers(&example.ad);
        let mut buffer = vec![0; example.plaintext.len() + 16];
        buffer[16..].copy_from_slice(&example.plaintext);
        Aes128PmacSiv::new(&example.key).seal_in_place(&ad, &mut buffer);
        let expected = Aes128PmacSiv::new(&example.key).seal(&ad, &example.plaintext);
        assert_eq!(buffer, expected);
    }
}

#[test]
fn lib_aes_pmac_siv_examples_open() {
    for example in aes_siv_examples() {
        let ad = headers(&example.ad);
        let mut buffer = Aes128PmacSiv::new(&example.key).seal(&ad, &example.plaintext);
        let mut siv = Aes128PmacSiv::new(&example.key);
        let plaintext = siv.open_in_place(&ad, &mut buffer).expect("successful decrypt");
        assert_eq!(plaintext, &example.plaintext[..]);
    }
}

#[test]
fn rfc_example_tag_and_ciphertext() {
    let example = &aes_siv_examples()[0];
    let ad = headers(&example.ad);
    let sealed = Aes128Siv::new(&example.key).seal(&ad, &example.plaintext);
    assert_eq!(sealed[..16], hex("85632d07c6e8f37f950acd320a2ecc93")[..]);
    assert_eq!(sealed[16..], hex("40c02b9690c4dc04daef7f6afe5c")[..]);
}

#[test]
fn empty_ad_and_plaintext_gives_tag_of_s2v() {
    let key = hex("fffefdfcfbfaf9f8f7f6f5f4f3f2f1f0f0f1f2f3f4f5f6f7f8f9fafbfcfdfeff");
    let sealed = Aes128Siv::new(&key).seal(&[], &[]);
    assert_eq!(sealed.len(), 16);
    let mut mac_key = [0u8; 16];
    mac_key.copy_from_slice(&key[..16]);
    let mut mac = Aes128Cmac::new(&mac_key);
    mac.update(&[0u8; 16]);
    let mut d = mac.finish();
    d.dbl();
    d.0[0] ^= 0x80;
    mac.reset();
    mac.update(d.as_slice());
    assert_eq!(&sealed[..], mac.finish().as_slice());
    let opened = Aes128Siv::new(&key).open(&[], &sealed).expect("decrypt failure");
    assert!(opened.is_empty());
}

#[test]
fn round_trip_all_constructions() {
    let key32: Vec<u8> = (0..32u8).collect();
    let key64: Vec<u8> = (0..64u8).collect();
    let ad: Vec<&[u8]> = vec![b"header", b"", b"nonce"];
    for len in [0usize, 1, 15, 16, 17, 31, 32, 33, 100, 128, 129, 300] {
        let pt: Vec<u8> = (0..len).map(|i| (i * 7 + 3) as u8).collect();
        let c = Aes128Siv::new(&key32).seal(&ad, &pt);
        assert_eq!(Aes128Siv::new(&key32).open(&ad, &c).unwrap(), pt);
        let c = Aes256Siv::new(&key64).seal(&ad, &pt);
        assert_eq!(Aes256Siv::new(&key64).open(&ad, &c).unwrap(), pt);
        let c = Aes128PmacSiv::new(&key32).seal(&ad, &pt);
        assert_eq!(Aes128PmacSiv::new(&key32).open(&ad, &c).unwrap(), pt);
        let c = Aes256PmacSiv::new(&key64).seal(&ad, &pt);
        assert_eq!(c.len(), len + 16);
        assert_eq!(Aes256PmacSiv::new(&key64).open(&ad, &c).unwrap(), pt);
    }
}

#[test]
fn seal_is_deterministic() {
    let key: Vec<u8> = (0..32u8).collect();
    let ad: Vec<&[u8]> = vec![b"a", b"b"];
    let mut siv = Aes128Siv::new(&key);
    let first = siv.seal(&ad, b"same plaintext");
    let second = siv.seal(&ad, b"same plaintext");
    let third = Aes128Siv::new(&key).seal(&ad, b"same plaintext");
    assert_eq!(first, second);
    assert_eq!(first, third);
}

#[test]
fn tag_bit_flip_fails_and_keeps_buffer() {
    for example in aes_siv_examples() {
        let ad = headers(&example.ad);
        let mut buffer = example.ciphertext.clone();
        buffer[0] ^= 1;
        let before = buffer.clone();
        let mut siv = Aes128Siv::new(&example.key);
        assert!(siv.open_in_place(&ad, &mut buffer).is_err());
        assert_eq!(buffer, before);
        assert_eq!(buffer[16..], example.ciphertext[16..]);
    }
}

#[test]
fn ciphertext_bit_flip_fails() {
    let example = &aes_siv_examples()[1];
    let ad = headers(&example.ad);
    for i in 0..example.ciphertext.len() {
        let mut c = example.ciphertext.clone();
        c[i] ^= 0x10;
        assert!(Aes128Siv::new(&example.key).open(&ad, &c).is_err());
    }
}

#[test]
fn altered_associated_data_fails() {
    let example = &aes_siv_examples()[1];
    let mut siv = Aes128Siv::new(&example.key);
    let reordered: Vec<&[u8]> = vec![&example.ad[1], &example.ad[0], &example.ad[2]];
    assert!(siv.open(&reordered, &example.ciphertext).is_err());
    let inserted: Vec<&[u8]> = vec![&example.ad[0], &example.ad[1], &example.ad[2], b""];
    assert!(siv.open(&inserted, &example.ciphertext).is_err());
    let mut changed = example.ad.clone();
    changed[0][0] ^= 1;
    assert!(siv.open(&headers(&changed), &example.ciphertext).is_err());
    let ad = headers(&example.ad);
    assert_eq!(siv.open(&ad, &example.ciphertext).unwrap(), example.plaintext);
}

#[test]
fn short_buffer_fails() {
    let key: Vec<u8> = (0..32u8).collect();
    let mut siv = Aes128Siv::new(&key);
    let mut buffer = vec![0u8; 15];
    assert!(siv.open_in_place(&[], &mut buffer).is_err());
    assert_eq!(buffer, vec![0u8; 15]);
    assert!(siv.open(&[], &[]).is_err());
}
