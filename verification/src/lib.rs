pub mod app;
pub mod common;
pub mod enigma2;
pub mod num;
pub mod settings;
pub mod text;
pub mod ui;
