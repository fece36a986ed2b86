//! The binding of a Noise static key to an Ed25519 identity.
pub mod keypair;
pub mod signed_static_key;

pub use keypair::{
    Ed25519Keypair, Ed25519PublicKey, Ed25519Signature, DOMAIN_TAG, ED25519_PUBLIC_KEY_LEN,
    ED25519_SIGNATURE_LEN,
};
pub use signed_static_key::SignedStaticKey;
