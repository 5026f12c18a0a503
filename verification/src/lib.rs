//! Password-based file encryption and image steganography.
//!
//! Files: `container` encrypts and decrypts whole files in memory, with keys from `keys`, whose
//! costs and padding sizes come from `googol`, whose stretching is done by `rayo`, and whose nonces
//! are whitened by `ackermann`. Failures are in `error`, file extensions in `naming`.
//!
//! Pictures: `stego` hides data in the pictures of `picture`, bit by bit (`bits`), in the places
//! that `slots` lists.
//!
//! The window: `session` has its state and decisions, `text` what these need of texts.
//!
//! What outside crates compute stands in `primitives`, `secret` and `picture`.
pub mod ackermann;
pub mod bits;
pub mod bytes;
pub mod container;
pub mod error;
pub mod googol;
pub mod keys;
pub mod naming;
pub mod picture;
pub mod primitives;
pub mod rayo;
pub mod secret;
pub mod session;
pub mod slots;
pub mod stego;
pub mod text;
