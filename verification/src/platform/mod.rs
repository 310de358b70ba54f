pub mod association;
pub mod windows;
