pub mod algorithms;
pub mod collections;
pub mod text;
pub mod transport;
pub mod patterns;
pub mod unsupported;
pub mod security;
pub mod ffi;
