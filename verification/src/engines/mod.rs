pub mod kvs;
pub mod memory;
pub mod sled;
