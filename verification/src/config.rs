//! Read-only run configuration: target selection and filesystem roots.

use vstd::prelude::*;

verus! {

/// One bottle mirror. An OCI mirror serves blobs by digest; a plain
/// mirror serves conventionally named archives.
#[derive(Debug, Clone)]
pub struct Mirror {
    pub url: String,
    pub oci: bool,
}

/// Configuration the pipeline consumes as an already-loaded input.
#[derive(Debug, Clone)]
pub struct Config {
    /// Architecture tag of the machine being installed to.
    pub target: String,
    /// Ordered fallback architecture tags tried after the target and
    /// the `"all"` wildcard.
    pub os_fallback: Vec<String>,
    /// Ordered mirror list; the first entry, when present, overrides
    /// the formula's direct URL.
    pub mirror_list: Vec<Mirror>,
    /// Root of the archive cache.
    pub cache_dir: String,
    /// Root holding all installed kegs.
    pub cellar_dir: String,
    /// Root of the persisted per-package metadata.
    pub meta_dir: String,
    /// Directory of optional post-install scripts.
    pub scripts_dir: String,
    /// Shared prefix that package contents are linked into.
    pub root_dir: String,
}

} // verus!
