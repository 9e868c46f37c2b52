pub mod api_client;
pub mod codec;
pub mod config;
pub mod converter;
pub mod error;
pub mod events;
pub mod filename;
pub mod hasher;
pub mod importer;
pub mod scanner;
pub mod state;
pub mod uploader;
pub mod volumes;
