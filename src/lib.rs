pub mod config;
pub mod error;
pub mod text;
pub mod time;
pub mod fetch;
pub mod qiita_api;
pub mod render;
pub mod feed;
pub mod state;
pub mod select;
