pub mod aes_block_cipher;
pub mod aes_cipher;
pub mod aes_key;
pub mod chunk_reader;
pub mod chunk_writer;
pub mod config;
pub mod constants;
pub mod gf;
pub mod matrix;
pub mod noop_metrics_logger;
pub mod state;
pub mod word;
