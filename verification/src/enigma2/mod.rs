pub mod api;
pub mod epg_text;
pub mod json;
pub mod model;
pub mod urls;
