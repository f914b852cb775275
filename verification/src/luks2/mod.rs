//! LUKS2 encrypted volumes: the binary header, the JSON metadata and the
//! key recovery that unlocks them.
pub mod header;
pub mod json;
pub mod crypto;
pub mod unlock;
pub mod reader;
