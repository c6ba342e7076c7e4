//! Per-package error taxonomy. Errors accumulate on the package that
//! caused them; no error here aborts the whole run.

use vstd::prelude::*;

verus! {

/// What went wrong for one package, at one stage. Transport failures
/// (`DownloadFailed`) are kept distinct from integrity failures
/// (`ChecksumMismatch`).
#[derive(Debug, Clone)]
pub enum Error {
    /// A requested or depended-on name has no formula in the store.
    UnresolvedName { name: String },
    /// The formula has no bottle set for the stable channel.
    ChannelUnavailable { package: String },
    /// No bottle architecture matched the target, `"all"`, or any
    /// configured fallback; carries the architectures that were offered.
    NoBottleForTarget { package: String, available: Vec<String> },
    /// The bottle's cellar hint names a relocation mode this pipeline
    /// does not understand.
    UnsupportedRelocation { package: String, cellar: String },
    /// The HEAD probe for the download size failed; non-fatal, the size
    /// stays zero.
    SizeProbeFailed { package: String },
    /// The transfer itself failed; the destination was left untouched.
    DownloadFailed { package: String, cause: String },
    /// The archive's digest did not match the expected sha256.
    ChecksumMismatch { package: String, expected: String },
    /// An archive member lies outside the expected keg prefix.
    ArchiveInvalid { package: String, entry: String },
    /// Rewriting embedded paths in one installed file failed.
    RelocationFailed { package: String, file: String },
    /// A symlink into the shared prefix could not be created.
    LinkFailed { package: String, link: String },
    /// The package's post-install hook spawned but failed, or could not
    /// be spawned.
    PostInstallFailed { package: String },
}

impl Error {
    /// Whether this error stalls the package at its current stage.
    /// The size probe and a stray archive member are advisory; every
    /// other error stops the package's pipeline.
    pub open spec fn spec_stalls(self) -> bool {
        !(self is SizeProbeFailed || self is ArchiveInvalid)
    }

    /// Executable twin of [`Self::spec_stalls`].
    pub fn stalls(&self) -> (r: bool)
        ensures
            r == self.spec_stalls(),
    {
        !matches!(self, Error::SizeProbeFailed { .. } | Error::ArchiveInvalid { .. })
    }
}

} // verus!
