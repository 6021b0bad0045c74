pub mod calibre;
pub mod config;
pub mod cover;
pub mod download;
pub mod encoding;
pub mod i18n;
pub mod jpeg;
pub mod json;
pub mod keyboard;
pub mod listing;
pub mod net;
pub mod number;
pub mod pager;
pub mod path;
pub mod session;
pub mod settings;
pub mod text;
pub mod ui;
pub mod worker;
pub mod laws;
