pub mod address;
pub mod container;
pub mod error;
pub mod filesystem;
pub mod image;
pub mod network;
pub mod runtime;
pub mod string_map;
pub mod text;
