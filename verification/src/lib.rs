//! Offline decryption of PhantomCipher containers.
pub mod cache;
pub mod container;
pub mod encoding;
pub mod error;
pub mod laws;
pub mod params;
pub mod primitives;
pub mod report;
pub mod text;
pub mod v1;
pub mod v2;
