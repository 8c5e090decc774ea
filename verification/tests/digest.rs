use proxy_programs::digest::fingerprint;
use sha2::{Digest, Sha256};

#[test]
fn known_fingerprints() {
    assert_eq!(fingerprint(""), "47DEQpj8HBSa+/TImW+5JCeuQeRkm5NMpJWZG3hSuFU");
    assert_eq!(fingerprint("abc"), "ungWv48Bz+pBQUDeXa4iI7ADYaOWF3qctBD/YfIAFa0");
    assert_eq!(
        fingerprint("’Twas brillig, and the slithy toves"),
        "0iXCPYm+cLe9Bgon1Oc2edDcA6GikSEQZgRBGkpK9yc"
    );
}

#[test]
fn fingerprint_is_plain() {
    let hash = fingerprint("And the mome raths outgrabe.");
    assert_eq!(hash, "edEGX2/HSqTqEF8yP/H6PhpYgpwDmcWlPHFBMJU+EgM");
    assert_eq!(hash.len(), 43);
    assert!(hash.chars().all(|c| c.is_ascii_alphanumeric() || c == '+' || c == '/'));
}

/// The text of a fingerprint, read as six bits a character, is the hash.
#[test]
fn fingerprint_holds_the_bits_of_the_hash() {
    let alphabet = "ABCDEFGHIJKLMNOPQRSTUVWXYZabcdefghijklmnopqrstuvwxyz0123456789+/";
    for text in ["", "a", "Did gyre and gimble in the wabe:"] {
        let mut bits = String::new();
        for c in fingerprint(text).chars() {
            let v = alphabet.find(c).unwrap();
            bits.push_str(&format!("{v:06b}"));
        }
        let mut wanted = String::new();
        for byte in Sha256::digest(text.as_bytes()) {
            wanted.push_str(&format!("{byte:08b}"));
        }
        wanted.push_str("00");
        assert_eq!(bits, wanted);
    }
}
