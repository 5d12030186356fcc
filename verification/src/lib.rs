//! Notes addressed by a three-byte identifier, which is written either as six
//! lowercase hexadecimal digits or as three words joined by hyphens.

pub mod hex;
pub mod text;
pub mod identifier;
pub mod table;
pub mod codec;
pub mod allocator;
pub mod request;
