pub mod text;
pub mod order;
pub mod config;
pub mod storage;
pub mod content_store;
pub mod matcher;
pub mod crypto;
pub mod http;
pub mod consumer;
pub mod vmc;
