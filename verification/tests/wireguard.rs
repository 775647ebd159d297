use base64::Engine;
use solnet_orchestrator::wireguard::keys::{generate_keypair, keypair_from_secret};

// RFC 7748, section 6.1: Alice's private and public key.
const ALICE_SECRET: [u8; 32] = [
    119, 7, 109, 10, 115, 24, 165, 125, 60, 22, 193, 114, 81, 178, 102, 69, 223, 76, 47, 135, 235,
    192, 153, 42, 177, 119, 251, 165, 29, 185, 44, 42,
];

#[test]
fn keypair_of_rfc7748_secret() {
    let pair = keypair_from_secret(ALICE_SECRET);
    assert_eq!(pair.private_key, "dwdtCnMYpX08FsFyUbJmRd9ML4frwJkqsXf7pR25LCo=");
    assert_eq!(pair.public_key, "hSDwCYkwp1R0i33ctD73Wg2/Og0mOBr066SpjqqbTmo=");
}

#[test]
fn keypair_of_zero_secret_encodes_zero_bytes() {
    let pair = keypair_from_secret([0u8; 32]);
    assert_eq!(pair.private_key, "AAAAAAAAAAAAAAAAAAAAAAAAAAAAAAAAAAAAAAAAAAA=");
    assert_eq!(pair.public_key.len(), 44);
    assert_ne!(pair.public_key, pair.private_key);
}

#[test]
fn generated_keys_are_base64_of_32_bytes() {
    let pair = generate_keypair();
    for key in [&pair.private_key, &pair.public_key] {
        assert_eq!(key.len(), 44);
        assert!(key.ends_with('='));
        assert!(key[..43]
            .chars()
            .all(|c| c.is_ascii_alphanumeric() || c == '+' || c == '/'));
    }
    let other = generate_keypair();
    assert_ne!(pair.private_key, other.private_key);
}

#[test]
fn key_texts_decode_to_32_bytes() {
    let pair = generate_keypair();
    for key in [&pair.private_key, &pair.public_key] {
        assert_eq!(key.matches('=').count(), 1);
        let bytes = base64::engine::general_purpose::STANDARD.decode(key).unwrap();
        assert_eq!(bytes.len(), 32);
    }
}
