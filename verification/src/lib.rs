pub mod bytes;
pub mod debug;
pub mod elf;
pub mod errors;
pub mod eventfd;
pub mod handler;
pub mod init;
pub mod lifecycle;
pub mod maps;
pub mod maps_laws;
pub mod mmap;
pub mod numbers;
pub mod reader;
pub mod search_laws;
pub mod text_laws;
