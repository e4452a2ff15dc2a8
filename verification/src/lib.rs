//! Configuration resolution and templating for an extract-and-run tool.

pub mod archive;
pub mod args;
pub mod command;
pub mod config;
pub mod configuration;
pub mod dict;
pub mod dosbox_config;
pub mod expansion;
pub mod expression;
pub mod extractor;
pub mod feature;
pub mod filters;
pub mod mappings;
pub mod menu;
pub mod naming;
pub mod path;
pub mod paths;
pub mod pattern;
pub mod profile;
pub mod round_trip;
pub mod template;
pub mod text;
pub mod utils;
