pub mod app;
pub mod four_d;
pub mod paths;
pub mod platform;
pub mod server;
pub mod text;
pub mod ui;
