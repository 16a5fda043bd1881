pub mod error;
pub mod bank;
pub mod codec_law;
pub mod memlist;
pub mod storage;
pub mod parts;
pub mod resource;
pub mod slice_reader;
pub mod command;
pub mod program;
pub mod system;
pub mod vm_context;
pub mod vm;
pub mod file;
pub mod serializer;
pub mod engine;
