//! Intel HEX (IHEX) record encoding: checksums, the record model, and the
//! assembly of complete object files.
pub mod checksum;
pub mod decode;
pub mod hex;
pub mod record;
pub mod writer;
