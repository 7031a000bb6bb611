//! Verified core of a one-file-at-a-time media archiver.
pub mod apply;
pub mod command;
pub mod compare;
pub mod digest;
pub mod disposal;
pub mod encoding;
pub mod findings;
pub mod flow;
pub mod identity;
pub mod inspect;
pub mod keeping;
pub mod legible;
pub mod lifetime;
pub mod load;
pub mod model;
pub mod os_text;
pub mod outcome;
pub mod path;
pub mod phases;
pub mod pkl;
pub mod plan;
pub mod records;
pub mod render;
pub mod replay;
pub mod rest;
pub mod resume;
pub mod rules;
pub mod runs;
pub mod safety;
pub mod seconds;
pub mod storage;
pub mod text;
pub mod tool;
pub mod trace;
pub mod verdict;
pub mod world;
pub mod written;
