pub mod clip_drag;
pub mod four_d;
pub mod layout;
pub mod selection;
