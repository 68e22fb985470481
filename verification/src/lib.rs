pub mod model;
pub mod numfmt;
pub mod text;
pub mod json;
pub mod locator;
pub mod util;
pub mod globs;
pub mod diagnostic;
pub mod config;
pub mod plugin;
pub mod sorted;
pub mod graph;
pub mod resolve;
pub mod rules;
pub mod assemble;
pub mod traverse;
pub mod trace;
pub mod cache;
pub mod export;
pub mod init;
pub mod generate;
pub mod freshness;
pub mod lines;
pub mod links_block;
pub mod link_fields;
pub mod link_doc;
pub mod link_edit;
pub mod sync;
pub mod cache_check;
pub mod repo;
pub mod agreement;
pub mod laws;
pub mod properties;
pub mod output;
