use chippy::identity::{bytes_equal, copy_bytes, strings_equal, Address, PeerIdentity};
use chippy::local_config::{
    get_config_or_default, secret_key_seed, AppConfig, ConfigError, ConfigFailure,
    IdentityConfig, RelayConfig,
};

fn config(key: &str, address: &[u8], peer: &[u8]) -> AppConfig {
    AppConfig {
        relay: RelayConfig {
            address: Address::from_bytes(address.to_vec()),
            peer_id: PeerIdentity::from_bytes(peer.to_vec()),
        },
        identity: IdentityConfig {
            key_file_path: "/tmp/key.pem".to_string(),
            pre_shared_key: key.to_string(),
        },
    }
}

#[test]
fn complete_config_is_valid() {
    assert_eq!(config("secret", &[4, 1, 2, 3, 4], &[0, 1, 9]).validate(), Ok(()));
}

#[test]
fn first_missing_part_is_named() {
    assert_eq!(config("", &[], &[]).validate(), Err(ConfigError::EmptyPreSharedKey));
    assert_eq!(config("", &[4, 1, 2, 3, 4], &[1]).validate(), Err(ConfigError::EmptyPreSharedKey));
    assert_eq!(config("s", &[], &[]).validate(), Err(ConfigError::EmptyRelayAddress));
    assert_eq!(config("s", &[4, 1, 2, 3, 4], &[]).validate(), Err(ConfigError::EmptyRelayPeerId));
}

#[test]
fn complaints_in_words() {
    assert_eq!(ConfigError::EmptyPreSharedKey.message(), "Pre-shared key cannot be empty");
    assert_eq!(ConfigError::EmptyRelayAddress.message(), "Relay address cannot be empty");
    assert_eq!(ConfigError::EmptyRelayPeerId.message(), "Relay peer ID cannot be empty");
}

#[test]
fn loaded_config_is_handed_out_if_valid() {
    let c = config("secret", &[4, 1, 2, 3, 4], &[0, 1, 9]);
    assert_eq!(get_config_or_default(Some(c.clone())), Ok(c));
}

#[test]
fn loaded_config_is_refused_if_invalid() {
    let c = config("secret", &[], &[0, 1, 9]);
    assert_eq!(
        get_config_or_default(Some(c)),
        Err(ConfigFailure::Invalid(ConfigError::EmptyRelayAddress))
    );
}

#[test]
fn missing_config_asks_for_a_default() {
    assert_eq!(get_config_or_default(None), Err(ConfigFailure::Missing));
}

#[test]
fn handshake_prologue_is_the_sha256_of_the_secret() {
    let c = config("abc", &[1], &[1]);
    let expected: Vec<u8> = vec![
        0xba, 0x78, 0x16, 0xbf, 0x8f, 0x01, 0xcf, 0xea, 0x41, 0x41, 0x40, 0xde, 0x5d, 0xae, 0x22,
        0x23, 0xb0, 0x03, 0x61, 0xa3, 0x96, 0x17, 0x7a, 0x9c, 0xb4, 0x10, 0xff, 0x61, 0xf2, 0x00,
        0x15, 0xad,
    ];
    assert_eq!(c.identity.handshake_prologue(), expected);
    let empty: Vec<u8> = vec![
        0xe3, 0xb0, 0xc4, 0x42, 0x98, 0xfc, 0x1c, 0x14, 0x9a, 0xfb, 0xf4, 0xc8, 0x99, 0x6f, 0xb9,
        0x24, 0x27, 0xae, 0x41, 0xe4, 0x64, 0x9b, 0x93, 0x4c, 0xa4, 0x95, 0x99, 0x1b, 0x78, 0x52,
        0xb8, 0x55,
    ];
    assert_eq!(config("", &[1], &[1]).identity.handshake_prologue(), empty);
}

#[test]
fn secret_key_seed_is_the_seed_then_zeros() {
    let mut expected = [0u8; 32];
    expected[0] = 7;
    assert_eq!(secret_key_seed(7), expected);
    assert_eq!(secret_key_seed(0), [0u8; 32]);
}

#[test]
fn identities_compare_by_their_bytes() {
    let a = PeerIdentity::from_bytes(vec![1, 2, 3]);
    let b = PeerIdentity::from_bytes(vec![1, 2, 4]);
    assert!(a.same_as(&a.duplicate()));
    assert!(!a.same_as(&b));
    assert!(!a.same_as(&PeerIdentity::from_bytes(vec![1, 2])));
    assert_eq!(a.to_bytes(), vec![1, 2, 3]);
    let x = Address::from_bytes(vec![4, 127, 0, 0, 1]);
    assert!(x.same_as(&x.duplicate()));
    assert!(!x.same_as(&Address::from_bytes(vec![])));
    assert!(Address::from_bytes(vec![]).is_empty());
    assert!(!x.is_empty());
    assert_eq!(x.to_bytes(), vec![4, 127, 0, 0, 1]);
    assert!(bytes_equal(&[], &[]));
    assert!(!bytes_equal(&[1], &[2]));
    assert_eq!(copy_bytes(&[1, 2]), vec![1, 2]);
    assert!(strings_equal(&"a".to_string(), &"a".to_string()));
    assert!(!strings_equal(&"a".to_string(), &"b".to_string()));
}
