//! The mutable per-package state threaded through the pipeline, and the
//! registry that owns one record per resolved formula.

use vstd::prelude::*;
use crate::error::Error;
use crate::text::{dec_digits, str_eq, u64_to_dec};

verus! {

/// Most recently completed pipeline phase of a package. A package that
/// errors stalls at its current stage and is skipped by later stages.
#[derive(Debug, Clone, Copy, PartialEq, Eq, Structural)]
pub enum Stage {
    Resolved,
    UrlResolved,
    SizeResolved,
    Downloaded,
    Verified,
    Relocated,
    Linked,
    Done,
}

impl Stage {
    /// Position in the stage order.
    pub open spec fn rank(self) -> nat {
        match self {
            Stage::Resolved => 0,
            Stage::UrlResolved => 1,
            Stage::SizeResolved => 2,
            Stage::Downloaded => 3,
            Stage::Verified => 4,
            Stage::Relocated => 5,
            Stage::Linked => 6,
            Stage::Done => 7,
        }
    }
}

/// How a bottle's embedded paths relate to the install location,
/// parsed from the bottle's cellar hint.
#[derive(Debug, Clone, Copy, PartialEq, Eq, Structural)]
pub enum RelocateMode {
    /// `":any_skip_relocation"`: nothing embedded, skip the stage.
    Skip,
    /// `":any"`: relocatable anywhere; patch embedded paths.
    Any,
    /// A concrete cellar path: built for a fixed location; patch
    /// embedded paths.
    Fixed,
}

/// The relocation mode a cellar hint denotes, if any.
pub open spec fn spec_relocate_mode(cellar: Seq<char>) -> Option<RelocateMode> {
    if cellar == ":any_skip_relocation"@ {
        Some(RelocateMode::Skip)
    } else if cellar == ":any"@ {
        Some(RelocateMode::Any)
    } else if cellar.len() > 0 && cellar[0] == '/' {
        Some(RelocateMode::Fixed)
    } else {
        None
    }
}

/// Parse a bottle's cellar hint. `None` means the hint is not a mode
/// this pipeline understands (`UnsupportedRelocation`).
pub fn parse_relocate_mode(cellar: &str) -> (r: Option<RelocateMode>)
    ensures
        r == spec_relocate_mode(cellar@),
{
    if str_eq(cellar, ":any_skip_relocation") {
        Some(RelocateMode::Skip)
    } else if str_eq(cellar, ":any") {
        Some(RelocateMode::Any)
    } else if cellar.unicode_len() > 0 {
        if cellar.get_char(0) == '/' {
            Some(RelocateMode::Fixed)
        } else {
            None
        }
    } else {
        None
    }
}

/// One package of the run: identity, per-stage resolution results, and
/// accumulated errors. Created by the dependency resolver; never
/// removed, only advanced or stalled.
#[derive(Debug, Clone)]
pub struct Package {
    pub name: String,
    pub full_name: String,
    pub version: String,
    pub revision: u64,
    /// Architecture selected by the bottle resolver.
    pub arch: String,
    /// Download location selected by the bottle resolver.
    pub url: String,
    /// Expected archive digest, lower-case hex.
    pub sha256: String,
    /// Relocation mode; `None` until the bottle is resolved.
    pub relocate: Option<RelocateMode>,
    /// Bottle rebuild counter.
    pub rebuild: u64,
    /// Declared archive size; zero when unknown.
    pub size: u64,
    /// Bytes still to fetch; zero when cached.
    pub download_size: u64,
    /// Conventional archive filename under the cache.
    pub package_name: String,
    /// Keg-relative install directory, `name/version`.
    pub keg: String,
    /// Validated archive member paths; ground truth for relocation and
    /// linking.
    pub files: Vec<String>,
    /// Requested directly (true) or pulled in as a dependency (false).
    pub explicit: bool,
    /// Names of packages that required this one.
    pub required_by: Vec<String>,
    /// Files whose object-file metadata was patched.
    pub patched_binaries: Vec<String>,
    /// Files rewritten as text.
    pub patched_text: Vec<String>,
    /// Links created under the shared prefix.
    pub links: Vec<String>,
    /// Most recently completed phase.
    pub stage: Stage,
    /// Accumulated per-package errors.
    pub errors: Vec<Error>,
}

impl Package {
    /// A freshly resolved package: identity set, everything else empty,
    /// stage `Resolved`.
    pub open spec fn spec_new(
        name: Seq<char>,
        full_name: Seq<char>,
        version: Seq<char>,
        revision: u64,
        explicit: bool,
        required_by: Seq<String>,
        p: Package,
    ) -> bool {
        &&& p.name@ == name
        &&& p.full_name@ == full_name
        &&& p.version@ == version
        &&& p.revision == revision
        &&& p.arch@ == Seq::<char>::empty()
        &&& p.url@ == Seq::<char>::empty()
        &&& p.sha256@ == Seq::<char>::empty()
        &&& p.relocate is None
        &&& p.rebuild == 0
        &&& p.size == 0
        &&& p.download_size == 0
        &&& p.package_name@ == Seq::<char>::empty()
        &&& p.keg@ == Seq::<char>::empty()
        &&& p.files@ == Seq::<String>::empty()
        &&& p.explicit == explicit
        &&& p.required_by@ == required_by
        &&& p.patched_binaries@ == Seq::<String>::empty()
        &&& p.patched_text@ == Seq::<String>::empty()
        &&& p.links@ == Seq::<String>::empty()
        &&& p.stage == Stage::Resolved
        &&& p.errors@ == Seq::<Error>::empty()
    }

    pub fn new(
        name: String,
        full_name: String,
        version: String,
        revision: u64,
        explicit: bool,
        required_by: Vec<String>,
    ) -> (p: Package)
        ensures
            Package::spec_new(name@, full_name@, version@, revision, explicit, required_by@, p),
    {
        proof {
            reveal_strlit("");
        }
        Package {
            name,
            full_name,
            version,
            revision,
            arch: String::new(),
            url: String::new(),
            sha256: String::new(),
            relocate: None,
            rebuild: 0,
            size: 0,
            download_size: 0,
            package_name: String::new(),
            keg: String::new(),
            files: Vec::new(),
            explicit,
            required_by,
            patched_binaries: Vec::new(),
            patched_text: Vec::new(),
            links: Vec::new(),
            stage: Stage::Resolved,
            errors: Vec::new(),
        }
    }

    /// Full version string: the upstream version, with `_<revision>`
    /// appended when the revision is non-zero.
    pub open spec fn spec_version_full(self) -> Seq<char> {
        if self.revision == 0 {
            self.version@
        } else {
            self.version@ + seq!['_'] + dec_digits(self.revision as nat)
        }
    }

    /// Render the full version string.
    pub fn version_full(&self) -> (r: String)
        ensures
            r@ == self.spec_version_full(),
    {
        if self.revision == 0 {
            self.version.clone()
        } else {
            let mut s = self.version.clone();
            proof {
                reveal_strlit("_");
            }
            s.append("_");
            let d = u64_to_dec(self.revision);
            s.append(d.as_str());
            proof {
                assert(s@ =~= self.spec_version_full());
            }
            s
        }
    }

    /// Is the package still moving, i.e. has no stalling error?
    pub open spec fn spec_active(self) -> bool {
        forall|i: int| 0 <= i < self.errors@.len() ==> !(#[trigger] self.errors@[i]).spec_stalls()
    }

    /// Executable twin of [`Self::spec_active`].
    pub fn active(&self) -> (r: bool)
        ensures
            r == self.spec_active(),
    {
        let n: usize = self.errors.len();
        let mut i: usize = 0;
        while i < n
            invariant
                i <= n,
                n == self.errors@.len(),
                forall|j: int| 0 <= j < i ==> !(#[trigger] self.errors@[j]).spec_stalls(),
            decreases n - i,
        {
            if self.errors[i].stalls() {
                return false;
            }
            i += 1;
        }
        true
    }
}

/// The run's registry: one record per resolved formula, keyed by name.
/// A single stage mutates it at a time.
#[derive(Debug, Clone)]
pub struct PackageRegistry {
    pub packages: Vec<Package>,
}

impl PackageRegistry {
    /// Names are unique: every resolvable dependency appears exactly
    /// once.
    pub open spec fn wf(self) -> bool {
        forall|i: int, j: int|
            0 <= i < j < self.packages@.len() ==> self.packages@[i].name@
                != self.packages@[j].name@
    }

    pub open spec fn view(self) -> Seq<Package> {
        self.packages@
    }

    /// Is some package called `name`?
    pub open spec fn contains_name(self, name: Seq<char>) -> bool {
        exists|i: int| 0 <= i < self.packages@.len() && (#[trigger] self.packages@[i]).name@ == name
    }

    /// The set of names held.
    pub open spec fn names(self) -> Set<Seq<char>> {
        Set::new(|n: Seq<char>| self.contains_name(n))
    }

    pub fn new() -> (r: PackageRegistry)
        ensures
            r.wf(),
            r@.len() == 0,
    {
        PackageRegistry { packages: Vec::new() }
    }

    pub fn len(&self) -> (r: usize)
        ensures
            r == self@.len(),
    {
        self.packages.len()
    }

    /// Does the registry hold a package called `name`?
    pub fn contains(&self, name: &str) -> (r: bool)
        ensures
            r == self.contains_name(name@),
    {
        let n: usize = self.packages.len();
        let mut i: usize = 0;
        while i < n
            invariant
                i <= n,
                n == self.packages@.len(),
                forall|j: int| 0 <= j < i ==> self.packages@[j].name@ != name@,
            decreases n - i,
        {
            if str_eq(self.packages[i].name.as_str(), name) {
                return true;
            }
            i += 1;
        }
        false
    }

    /// Find the package called `name`, if any.
    pub fn lookup(&self, name: &str) -> (r: Option<&Package>)
        ensures
            match r {
                Some(p) => self.contains_name(name@) && p.name@ == name@ && exists|i: int|
                    0 <= i < self@.len() && (#[trigger] self@[i]) == *p,
                None => !self.contains_name(name@),
            },
    {
        let n: usize = self.packages.len();
        let mut i: usize = 0;
        while i < n
            invariant
                i <= n,
                n == self.packages@.len(),
                forall|j: int| 0 <= j < i ==> self.packages@[j].name@ != name@,
            decreases n - i,
        {
            if str_eq(self.packages[i].name.as_str(), name) {
                proof {
                    assert((#[trigger] self@[i as int]).name@ == name@);
                }
                return Some(&self.packages[i]);
            }
            i += 1;
        }
        None
    }

    /// Append a package whose name is not yet taken.
    pub fn push(&mut self, p: Package)
        requires
            old(self).wf(),
            !old(self).contains_name(p.name@),
        ensures
            final(self).wf(),
            final(self)@ == old(self)@.push(p),
    {
        proof {
            assert(forall|i: int|
                0 <= i < self.packages@.len() ==> (#[trigger] self.packages@[i]).name@ != p.name@);
        }
        self.packages.push(p);
    }
}

} // verus!
