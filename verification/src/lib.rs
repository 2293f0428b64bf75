pub mod drivers;
pub mod fs;
pub mod vga;
pub mod wasm;
