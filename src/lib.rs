pub mod tile;
pub mod sequence;
pub mod configuration;
pub mod request_handler;
pub mod utils;
pub mod image_downloader;
pub mod pipeline;
pub mod epub_bundler;
