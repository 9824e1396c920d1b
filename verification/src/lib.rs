//! Ingestion pipeline for a ledger block stream: chunk decoding, chunk
//! reassembly and out-of-order block finalization with incremental
//! balance snapshots.

pub mod block_importer;
pub mod builder;
pub mod cli;
pub mod db_handler;
pub mod decimal;
pub mod error;
pub mod finality;
pub mod handler;
pub mod keys;
pub mod layout;
pub mod parser;
pub mod text_map;
pub mod util;
