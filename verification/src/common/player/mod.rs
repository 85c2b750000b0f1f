pub mod session;
pub mod stream_settings;
pub mod window_chrome;
