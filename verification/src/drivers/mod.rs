pub mod disk;
