use test_assets_ureq::digest::char_to_digit;
use test_assets_ureq::text::chars_of;
use test_assets_ureq::fetch::hash_of;
use test_assets_ureq::{Sha256, Sha256Hash, TaError};

const HELLO: &str = "2cf24dba5fb0a30e26e83b2ac5b9e29e1b161e5c1fa7425e73043362938b9824";
const EMPTY: &str = "e3b0c44298fc1c149afbf4c8996fb92427ae41e4649b934ca495991b7852b855";
const HELLO_WORLD: &str = "b94d27b9934d3e08a52e52d7da7dabfac484efe37a5380ee9088f7ace2efcde9";

fn parsed(text: &str) -> Sha256Hash {
    match Sha256Hash::from_hex(text) {
        Ok(hash) => hash,
        Err(err) => panic!("{text} was refused: {err:?}"),
    }
}

#[test]
fn small_digits_are_read() {
    let digits = "0123456789abcdef";
    for (n, c) in digits.chars().enumerate() {
        assert_eq!(char_to_digit(c), Some(n as u8));
    }
}

#[test]
fn capital_digits_are_read() {
    assert_eq!(char_to_digit('A'), Some(10));
    assert_eq!(char_to_digit('F'), Some(15));
}

#[test]
fn other_characters_are_no_digits() {
    for c in ['g', 'G', '/', ':', '@', '`', ' ', '\n', 'é', '٣'] {
        assert_eq!(char_to_digit(c), None);
    }
}

#[test]
fn chars_of_keeps_every_character() {
    assert_eq!(chars_of("aé\n٣"), vec!['a', 'é', '\n', '٣']);
    assert_eq!(chars_of(""), Vec::<char>::new());
}

#[test]
fn to_hex_writes_two_small_digits_for_each_byte() {
    let text = "000102030405060708090a0b0c0d0e0f101112131415161718191a1b1c1d1eff";
    assert_eq!(parsed(text).to_hex(), text);
}

#[test]
fn to_hex_pads_with_zeros() {
    let zeros = "0".repeat(64);
    assert_eq!(parsed(&zeros).to_hex(), zeros);
}

#[test]
fn from_hex_then_to_hex_gives_small_letters() {
    let capitals = HELLO.to_uppercase();
    assert_eq!(parsed(&capitals).to_hex(), HELLO);
    let mixed = "2Cf24dBA5fb0a30e26e83b2ac5b9e29e1b161e5c1fa7425e73043362938b9824";
    assert_eq!(parsed(mixed).to_hex(), HELLO);
}

#[test]
fn to_hex_then_from_hex_gives_the_digest_back() {
    let digest = hash_of(b"round trip");
    assert_eq!(parsed(&digest.to_hex()), digest);
}

#[test]
fn from_hex_takes_either_case_for_the_same_digest() {
    assert_eq!(parsed(&HELLO.to_uppercase()), parsed(HELLO));
}

#[test]
fn from_hex_refuses_63_characters() {
    assert!(matches!(Sha256Hash::from_hex(&HELLO[..63]), Err(TaError::BadHashFormat)));
}

#[test]
fn from_hex_refuses_65_characters() {
    let long = format!("{HELLO}0");
    assert!(matches!(Sha256Hash::from_hex(&long), Err(TaError::BadHashFormat)));
}

#[test]
fn from_hex_refuses_the_empty_text() {
    assert!(matches!(Sha256Hash::from_hex(""), Err(TaError::BadHashFormat)));
}

#[test]
fn from_hex_refuses_what_is_no_digit() {
    let bad = format!("zz{}", &HELLO[2..]);
    assert!(matches!(Sha256Hash::from_hex(&bad), Err(TaError::BadHashFormat)));
    let last = format!("{}g", &HELLO[..63]);
    assert!(matches!(Sha256Hash::from_hex(&last), Err(TaError::BadHashFormat)));
}

#[test]
fn from_hex_counts_characters_not_bytes() {
    let wide = format!("{}é", &HELLO[..62]);
    assert_eq!(wide.len(), 64);
    assert!(matches!(Sha256Hash::from_hex(&wide), Err(TaError::BadHashFormat)));
}

#[test]
fn digests_are_equal_when_their_bytes_are() {
    assert_eq!(parsed(HELLO), parsed(HELLO));
    assert_ne!(parsed(HELLO), parsed(EMPTY));
    let copy = parsed(HELLO).clone();
    assert_eq!(copy, parsed(HELLO));
}

#[test]
fn hash_of_hello() {
    assert_eq!(hash_of(b"hello").to_hex(), HELLO);
}

#[test]
fn hash_of_nothing() {
    assert_eq!(hash_of(b"").to_hex(), EMPTY);
}

#[test]
fn a_fresh_hasher_has_been_fed_nothing() {
    assert_eq!(Sha256Hash::from_digest(Sha256::new()).to_hex(), EMPTY);
}

#[test]
fn a_hasher_fed_in_pieces_hashes_the_whole() {
    let mut hasher = Sha256::new();
    hasher.update(b"hello");
    hasher.update(b" ");
    hasher.update(b"world");
    assert_eq!(Sha256Hash::from_digest(hasher).to_hex(), HELLO_WORLD);
    assert_eq!(hash_of(b"hello world").to_hex(), HELLO_WORLD);
}

#[test]
fn the_digest_is_not_the_input() {
    let input = [7u8; 32];
    let digest = hash_of(&input);
    let as_text: String = input.iter().map(|b| format!("{b:02x}")).collect();
    assert_ne!(digest.to_hex(), as_text);
}
