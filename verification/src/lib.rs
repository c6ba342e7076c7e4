//! Installation pipeline of a bottle-based package manager: dependency
//! resolution, bottle/URL selection, size probing, download planning with
//! atomic commit, checksum verification, archive validation, path
//! relocation, prefix linking and post-install hooks.

pub mod archive;
pub mod bottle;
pub mod checksum;
pub mod config;
pub mod download;
pub mod error;
pub mod formula;
pub mod link;
pub mod meta;
pub mod package;
pub mod pipeline;
pub mod postinstall;
pub mod relocate;
pub mod resolve;
pub mod size;
pub mod text;
