//! Verified core of a secure dynamic host for WebAssembly components.

pub mod cache;
pub mod codec;
pub mod json;
pub mod lifecycle;
pub mod marshal;
pub mod policy;
pub mod registry;
pub mod schema;
pub mod text;
pub mod tools;
