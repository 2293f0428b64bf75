pub mod block_device;
pub mod blockdevice;
pub mod filesystem;
