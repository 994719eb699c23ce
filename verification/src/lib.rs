//! An encrypted secret vault: payloads are sealed under AES-256-GCM,
//! stored under a key scoped to a namespace, and released only through
//! an authorization gate.

pub mod auth;
pub mod crypto;
pub mod hexcode;
pub mod ids;
pub mod jwt;
pub mod secret;
pub mod store;
pub mod token;
pub mod vault;

pub use crypto::Error;
