//! Architecture-specific pieces that are plain computation: descriptor
//! encodings, timer programming and serial key decoding.
pub mod arm64;
pub mod x86_64;
