pub mod bytes;
pub mod text;
pub mod payload;
pub mod payload_laws;
pub mod payload_model;
pub mod payload_typing;
pub mod payload_offsets;
pub mod translation;
pub mod merge_laws;
pub mod format;
pub mod discover;
pub mod defaults;
pub mod defaults_laws;
pub mod conversion;
pub mod conversion_laws;
pub mod crypto;
