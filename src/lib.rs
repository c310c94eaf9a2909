//! SHA-1, the SHA-2 family and SHA3-384, built from a shared word model, an
//! incremental block hasher that does the buffering and padding, and
//! per-family compression and permutation steps.
//!
//! Every hasher states its digest as a function of the bytes written to it
//! (`message()`), so the result does not depend on how the input was split.
pub mod engine;
pub mod keccak;
pub mod laws;
pub mod sha1;
pub mod sha2;
pub mod sha256;
pub mod sha3;
pub mod sha512;
pub mod word;

pub use engine::{BlockHasher, GenericStateHasher};
pub use keccak::{KeccakSponge, KeccakState};
pub use sha1::{Sha1, Sha1State, ShaContext};
pub use sha2::{Sha2State, Sha2Word};
pub use sha256::{Sha224Hasher, Sha224State, Sha256BitsState, Sha256Hasher};
pub use sha3::{Sha3_384Hasher, Sha3_384State};
pub use sha512::{
    Sha384Hasher, Sha384State, Sha512BitsState, Sha512Hasher, Sha512_224Hasher, Sha512_256Hasher,
};
pub use word::{Word, rotate_left, rotate_right};
