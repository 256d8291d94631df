//! A content pipeline for static sites: sources with a metadata header are
//! loaded, given URLs from a route table, indexed, expanded, rendered and
//! mapped to output paths, stage by stage.

pub mod text;
pub mod json;
pub mod seqs;
pub mod sort;
pub mod error;
pub mod paths;
pub mod config;
pub mod metadata;
pub mod url;
pub mod record;
pub mod load;
pub mod navbar;
pub mod blog;
pub mod resolve;
pub mod output;
pub mod sitemap;
pub mod values;
pub mod fetch;
pub mod render;
pub mod pipeline;
