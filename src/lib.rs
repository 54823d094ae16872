//! Key custody core: secret buffers, the error taxonomy, hashing
//! primitives, mnemonic and hierarchical key derivation, the box registry,
//! cipher parameter checks and base64 transport of serialized cells.
pub mod boc;
pub mod cipher;
pub mod curve;
pub mod errors;
pub mod hash;
pub mod hdkey;
pub mod mnemonic;
pub mod registry;
pub mod scalar;
pub mod secret;
pub mod text;
