use miscreant::cmac::Aes128Cmac;
use miscreant::mac::Mac;
use miscreant::pmac::Aes128Pmac;

fn hex(s: &str) -> Vec<u8> {
    (0..s.len())
        .step_by(2)
        .map(|i| u8::from_str_radix(&s[i..i + 2], 16).unwrap())
        .collect()
}

fn key16(s: &str) -> [u8; 16] {
    let mut k = [0u8; 16];
    k.copy_from_slice(&hex(s));
    k
}

const NIST_KEY: &str = "2b7e151628aed2a6abf7158809cf4f3c";
const NIST_MSG: &str = "6bc1bee22e409f96e93d7e117393172aae2d8a571e03ac9c9eb76fac45af8e5130c81c46a35ce411e5fbc1191a0a52eff69f2445df4f9b17ad2b417be66c3710";

fn cmac(len: usize) -> Vec<u8> {
    let mut mac = Aes128Cmac::new(&key16(NIST_KEY));
    mac.update(&hex(NIST_MSG)[..len]);
    mac.finish().as_slice().to_vec()
}

#[test]
fn cmac_nist_empty() {
    assert_eq!(cmac(0), hex("bb1d6929e95937287fa37d129b756746"));
}

#[test]
fn cmac_nist_one_block() {
    assert_eq!(cmac(16), hex("070a16b46b4d4144f79bdd9dd04a287c"));
}

#[test]
fn cmac_nist_partial_last_block() {
    assert_eq!(cmac(40), hex("dfa66747de9ae63030ca32611497c827"));
}

#[test]
fn cmac_nist_four_blocks() {
    assert_eq!(cmac(64), hex("51f0bebf7e3b9d92fc49741779363cfe"));
}

#[test]
fn cmac_split_updates_and_reset() {
    let msg = hex(NIST_MSG);
    let mut mac = Aes128Cmac::new(&key16(NIST_KEY));
    mac.update(&msg[..7]);
    mac.update(&msg[7..33]);
    mac.update(&msg[33..40]);
    assert_eq!(mac.finish().as_slice().to_vec(), cmac(40));
    mac.reset();
    mac.update(&msg);
    assert_eq!(mac.finish().as_slice().to_vec(), cmac(64));
}

fn pmac(len: usize) -> Vec<u8> {
    let msg: Vec<u8> = (0..len as u8).collect();
    let mut mac = Aes128Pmac::new(&key16("000102030405060708090a0b0c0d0e0f"));
    mac.update(&msg);
    mac.finish().as_slice().to_vec()
}

#[test]
fn pmac_empty() {
    assert_eq!(pmac(0), hex("4399572cd6ea5341b8d35876a7098af7"));
}

#[test]
fn pmac_three_bytes() {
    assert_eq!(pmac(3), hex("256ba5193c1b991b4df0c51f388a9e27"));
}

#[test]
fn pmac_one_block() {
    assert_eq!(pmac(16), hex("ebbd822fa458daf6dfdad7c27da76338"));
}

#[test]
fn pmac_twenty_bytes() {
    assert_eq!(pmac(20), hex("0412ca150bbf79058d8c75a58c993f55"));
}

#[test]
fn pmac_two_blocks() {
    assert_eq!(pmac(32), hex("e97ac04e9e5e3399ce5355cd7407bc75"));
}

#[test]
fn pmac_split_updates() {
    let msg: Vec<u8> = (0..200u8).collect();
    let mut whole = Aes128Pmac::new(&key16("000102030405060708090a0b0c0d0e0f"));
    whole.update(&msg);
    let mut parts = Aes128Pmac::new(&key16("000102030405060708090a0b0c0d0e0f"));
    parts.update(&msg[..15]);
    parts.update(&msg[15..16]);
    parts.update(&msg[16..129]);
    parts.update(&msg[129..]);
    assert_eq!(whole.finish().as_slice(), parts.finish().as_slice());
}
