//! Cove Format (COVE) v1.0 core primitives, each with a machine-checked
//! contract: wire encodings, checksums, registries, digest manifests and
//! section decompression; encoded array decoding and row selections; the
//! data side of Arrow export (types, routes, buffers, views, typed values);
//! the data side of converting Parquet sources (source columns, materialised
//! values, page plans, statistics); the converter's argument parsing; and the
//! decisions of the durable file-replace protocol.

pub mod error;
pub mod wire;
pub mod checksum;
pub mod util;
pub mod collation;
pub mod extensions;
pub mod encoding;
pub mod constants;
pub mod digest;
pub mod compression;
pub mod validity;
pub mod dictionary;
pub mod array;
pub mod selection;
pub mod arrow_export;
pub mod export_plan;
pub mod arrow_types;
pub mod arrow_buffers;
pub mod payload_export;
pub mod byte_views;
pub mod conversion;
pub mod cli;
pub mod durable;
pub mod source_columns;
pub mod source_read;
pub mod clustering;
pub mod acceleration;
pub mod typed_values;
pub mod canonical;

pub use error::CoveError;
