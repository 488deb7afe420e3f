//! The configuration that a node starts from, and what it is checked for.

use crate::identity::{Address, PeerIdentity};
use sha2::{Digest, Sha256};
use vstd::prelude::*;

verus! {

/// Where the relay is and who it is.
#[derive(Debug, Clone, PartialEq, Eq)]
pub struct RelayConfig {
    pub address: Address,
    pub peer_id: PeerIdentity,
}

/// Where the node's key lies and the secret it shares with its swarm.
#[derive(Debug, Clone, PartialEq, Eq)]
pub struct IdentityConfig {
    pub key_file_path: String,
    pub pre_shared_key: String,
}

/// The whole configuration of a node.
#[derive(Debug, Clone, PartialEq, Eq)]
pub struct AppConfig {
    pub relay: RelayConfig,
    pub identity: IdentityConfig,
}

/// What a configuration can be refused for.
#[derive(Debug, Clone, Copy, PartialEq, Eq, Structural)]
pub enum ConfigError {
    EmptyPreSharedKey,
    EmptyRelayAddress,
    EmptyRelayPeerId,
}

/// Why no configuration could be handed out.
#[derive(Debug, Clone, Copy, PartialEq, Eq, Structural)]
pub enum ConfigFailure {
    /// A configuration was read and refused.
    Invalid(ConfigError),
    /// No configuration could be read: a default one is to be written out
    /// for the operator to fill in.
    Missing,
}

/// The first complaint about a configuration, if there is any: the shared
/// secret is looked at first, then the relay's locator, then its identifier.
pub open spec fn first_complaint(config: AppConfig) -> Option<ConfigError> {
    if config.identity.pre_shared_key@.len() == 0 {
        Some(ConfigError::EmptyPreSharedKey)
    } else if config.relay.address@.len() == 0 {
        Some(ConfigError::EmptyRelayAddress)
    } else if config.relay.peer_id@.len() == 0 {
        Some(ConfigError::EmptyRelayPeerId)
    } else {
        None
    }
}

/// The SHA-256 digest of the UTF-8 encoding of `text`.
pub uninterp spec fn sha256_of_utf8(text: Seq<char>) -> Seq<u8>;

/// Hashes the UTF-8 bytes of a string with `Sha256::digest`. The contract
/// claims that the 32 bytes are a function of the string alone.
#[verifier::external_body]
fn string_to_32_bytes(s: &str) -> (r: [u8; 32])
    ensures
        r@ == sha256_of_utf8(s@),
{
    let hash = Sha256::digest(s.as_bytes());
    let mut arr = [0u8; 32];
    arr.copy_from_slice(&hash[..]);
    arr
}

impl ConfigError {
    /// The complaint in words.
    pub fn message(&self) -> (r: &'static str)
        ensures
            r@ == (match *self {
                ConfigError::EmptyPreSharedKey => "Pre-shared key cannot be empty"@,
                ConfigError::EmptyRelayAddress => "Relay address cannot be empty"@,
                ConfigError::EmptyRelayPeerId => "Relay peer ID cannot be empty"@,
            }),
    {
        match self {
            ConfigError::EmptyPreSharedKey => "Pre-shared key cannot be empty",
            ConfigError::EmptyRelayAddress => "Relay address cannot be empty",
            ConfigError::EmptyRelayPeerId => "Relay peer ID cannot be empty",
        }
    }
}

impl IdentityConfig {
    /// The 32 bytes that are mixed into the handshake of the encrypted
    /// channel, so that only nodes with the same secret connect: the SHA-256
    /// digest of the shared secret.
    pub fn handshake_prologue(&self) -> (r: Vec<u8>)
        ensures
            r@ == sha256_of_utf8(self.pre_shared_key@),
            r@.len() == 32,
    {
        let digest = string_to_32_bytes(self.pre_shared_key.as_str());
        let mut out: Vec<u8> = Vec::new();
        let mut i: usize = 0;
        while i < 32
            invariant
                i <= 32,
                out@ == digest@.take(i as int),
            decreases 32 - i,
        {
            out.push(digest[i]);
            assert(digest@.take(i + 1) =~= digest@.take(i as int).push(digest@[i as int]));
            i += 1;
        }
        assert(digest@.take(32) =~= digest@);
        out
    }
}

impl AppConfig {
    /// Checks that the shared secret, the relay's locator and the relay's
    /// identifier are all there, and names the first that is missing.
    pub fn validate(&self) -> (r: Result<(), ConfigError>)
        ensures
            r == (match first_complaint(*self) {
                Some(e) => Err::<(), ConfigError>(e),
                None => Ok(()),
            }),
    {
        if self.identity.pre_shared_key.as_str().is_empty() {
            return Err(ConfigError::EmptyPreSharedKey);
        }
        if self.relay.address.is_empty() {
            return Err(ConfigError::EmptyRelayAddress);
        }
        if self.relay.peer_id.bytes.len() == 0 {
            return Err(ConfigError::EmptyRelayPeerId);
        }
        Ok(())
    }
}

/// Decides what a start-up has to go on. A configuration that was read is
/// handed out if it passes `validate`, and refused with its first complaint
/// if not. Where none could be read, the caller is told to write out a
/// default one and to stop.
pub fn get_config_or_default(loaded: Option<AppConfig>) -> (r: Result<AppConfig, ConfigFailure>)
    ensures
        r == (match loaded {
            Some(config) => match first_complaint(config) {
                Some(e) => Err::<AppConfig, ConfigFailure>(ConfigFailure::Invalid(e)),
                None => Ok(config),
            },
            None => Err(ConfigFailure::Missing),
        }),
{
    match loaded {
        Some(config) => match config.validate() {
            Ok(()) => Ok(config),
            Err(e) => Err(ConfigFailure::Invalid(e)),
        },
        None => Err(ConfigFailure::Missing),
    }
}

/// The 32 bytes of a secret key that is made from a one-byte seed: the seed,
/// then zeros.
pub fn secret_key_seed(seed: u8) -> (r: [u8; 32])
    ensures
        r@ == seq![0u8; 32].update(0, seed),
{
    let mut bytes = [0u8; 32];
    bytes[0] = seed;
    assert(bytes@ =~= seq![0u8; 32].update(0, seed));
    bytes
}

} // verus!
