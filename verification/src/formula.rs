//! The read-only formula store: external package definitions with their
//! dependencies and per-channel bottle variants. The store is fully
//! populated before the pipeline starts.

use vstd::prelude::*;
use crate::text::str_eq;

verus! {

/// One prebuilt bottle: the variant of a formula for one architecture.
#[derive(Debug, Clone)]
pub struct BottleEntry {
    /// Architecture tag, e.g. `"x86_64_linux"` or the wildcard `"all"`.
    pub arch: String,
    /// Direct download location published by the formula database.
    pub url: String,
    /// Expected sha256 of the archive, as a lower-case hex string.
    pub sha256: String,
    /// Cellar-layout hint; decides the relocation mode.
    pub cellar: String,
}

/// The bottles of one channel: a rebuild counter and one entry per
/// architecture.
#[derive(Debug, Clone)]
pub struct BottleSet {
    pub rebuild: u64,
    pub files: Vec<BottleEntry>,
}

impl BottleSet {
    /// Architectures are unique within a set.
    pub open spec fn wf(self) -> bool {
        forall|i: int, j: int|
            0 <= i < j < self.files@.len() ==> self.files@[i].arch@ != self.files@[j].arch@
    }

    /// Is there an entry for architecture `arch`?
    pub open spec fn has_arch(self, arch: Seq<char>) -> bool {
        exists|i: int| 0 <= i < self.files@.len() && (#[trigger] self.files@[i]).arch@ == arch
    }

    /// The entry for architecture `arch` (meaningful when `has_arch`).
    pub open spec fn spec_entry(self, arch: Seq<char>) -> BottleEntry {
        self.files@[choose|i: int|
            0 <= i < self.files@.len() && (#[trigger] self.files@[i]).arch@ == arch]
    }

    /// Find the entry for `arch`, if any.
    pub fn entry(&self, arch: &str) -> (r: Option<&BottleEntry>)
        requires
            self.wf(),
        ensures
            match r {
                Some(e) => self.has_arch(arch@) && *e == self.spec_entry(arch@) && e.arch@
                    == arch@,
                None => !self.has_arch(arch@),
            },
    {
        let n: usize = self.files.len();
        let mut i: usize = 0;
        while i < n
            invariant
                i <= n,
                n == self.files@.len(),
                self.wf(),
                forall|j: int| 0 <= j < i ==> self.files@[j].arch@ != arch@,
            decreases n - i,
        {
            if str_eq(self.files[i].arch.as_str(), arch) {
                proof {
                    let w = choose|k: int|
                        0 <= k < self.files@.len() && (#[trigger] self.files@[k]).arch@ == arch@;
                    assert(self.files@[i as int].arch@ == arch@);
                    assert(w == i as int);
                }
                return Some(&self.files[i]);
            }
            i += 1;
        }
        None
    }

    /// The architectures on offer, for error reporting.
    pub fn arch_names(&self) -> (r: Vec<String>)
        ensures
            r@.len() == self.files@.len(),
            forall|i: int| 0 <= i < r@.len() ==> r@[i]@ == self.files@[i].arch@,
    {
        let mut out: Vec<String> = Vec::new();
        let n: usize = self.files.len();
        let mut i: usize = 0;
        while i < n
            invariant
                i <= n,
                n == self.files@.len(),
                out@.len() == i,
                forall|j: int| 0 <= j < i ==> out@[j]@ == self.files@[j].arch@,
            decreases n - i,
        {
            out.push(self.files[i].arch.clone());
            i += 1;
        }
        out
    }
}

/// One channel of a formula, e.g. `"stable"`.
#[derive(Debug, Clone)]
pub struct Channel {
    pub name: String,
    pub bottles: BottleSet,
}

/// An external package definition.
#[derive(Debug, Clone)]
pub struct Formula {
    pub name: String,
    pub full_name: String,
    /// Stable upstream version.
    pub version: String,
    /// Package revision; `0` means none.
    pub revision: u64,
    /// Names of the formulas this one depends on.
    pub dependencies: Vec<String>,
    /// Per-channel bottle variants.
    pub channels: Vec<Channel>,
}

impl Formula {
    /// Channel names are unique, and each bottle set is well formed.
    pub open spec fn wf(self) -> bool {
        &&& forall|i: int, j: int|
            0 <= i < j < self.channels@.len() ==> self.channels@[i].name@
                != self.channels@[j].name@
        &&& forall|i: int| 0 <= i < self.channels@.len() ==> (#[trigger] self.channels@[i]).bottles.wf()
    }

    /// Is there a channel called `name`?
    pub open spec fn has_channel(self, name: Seq<char>) -> bool {
        exists|i: int| 0 <= i < self.channels@.len() && (#[trigger] self.channels@[i]).name@ == name
    }

    /// The bottle set of channel `name` (meaningful when `has_channel`).
    pub open spec fn spec_channel(self, name: Seq<char>) -> BottleSet {
        self.channels@[choose|i: int|
            0 <= i < self.channels@.len() && (#[trigger] self.channels@[i]).name@ == name].bottles
    }

    /// Find the bottle set of channel `name`, if any.
    pub fn channel(&self, name: &str) -> (r: Option<&BottleSet>)
        requires
            self.wf(),
        ensures
            match r {
                Some(b) => self.has_channel(name@) && *b == self.spec_channel(name@) && b.wf(),
                None => !self.has_channel(name@),
            },
    {
        let n: usize = self.channels.len();
        let mut i: usize = 0;
        while i < n
            invariant
                i <= n,
                n == self.channels@.len(),
                self.wf(),
                forall|j: int| 0 <= j < i ==> self.channels@[j].name@ != name@,
            decreases n - i,
        {
            if str_eq(self.channels[i].name.as_str(), name) {
                proof {
                    let w = choose|k: int|
                        0 <= k < self.channels@.len() && (#[trigger] self.channels@[k]).name@
                            == name@;
                    assert(self.channels@[i as int].name@ == name@);
                    assert(w == i as int);
                }
                return Some(&self.channels[i].bottles);
            }
            i += 1;
        }
        None
    }
}

/// The immutable name-to-formula database the run resolves against.
#[derive(Debug, Clone)]
pub struct FormulaStore {
    pub entries: Vec<Formula>,
}

impl FormulaStore {
    /// Names are unique, and each formula is well formed.
    pub open spec fn wf(self) -> bool {
        &&& forall|i: int, j: int|
            0 <= i < j < self.entries@.len() ==> self.entries@[i].name@ != self.entries@[j].name@
        &&& forall|i: int| 0 <= i < self.entries@.len() ==> (#[trigger] self.entries@[i]).wf()
    }

    /// The formulas currently held.
    pub open spec fn view(self) -> Seq<Formula> {
        self.entries@
    }

    /// Is some formula called `name`?
    pub open spec fn contains_name(self, name: Seq<char>) -> bool {
        exists|i: int| 0 <= i < self.entries@.len() && (#[trigger] self.entries@[i]).name@ == name
    }

    /// The formula called `name` (meaningful when `contains_name`).
    pub open spec fn spec_lookup(self, name: Seq<char>) -> Formula {
        self.entries@[choose|i: int|
            0 <= i < self.entries@.len() && (#[trigger] self.entries@[i]).name@ == name]
    }

    /// The set of names the store defines.
    pub open spec fn names(self) -> Set<Seq<char>> {
        Set::new(|n: Seq<char>| self.contains_name(n))
    }

    pub fn new() -> (r: FormulaStore)
        ensures
            r.wf(),
            r@.len() == 0,
    {
        FormulaStore { entries: Vec::new() }
    }

    /// Add a formula. Refused (returning `false`) when the name is
    /// already taken or the record is not well formed.
    pub fn add(&mut self, f: Formula) -> (r: bool)
        requires
            old(self).wf(),
        ensures
            final(self).wf(),
            r == (!old(self).contains_name(f.name@) && f.wf()),
            r ==> final(self)@ == old(self)@.push(f),
            !r ==> final(self)@ == old(self)@,
            final(self).contains_name(f.name@) || !f.wf(),
    {
        if !formula_wf_check(&f) {
            return false;
        }
        if self.lookup(f.name.as_str()).is_some() {
            return false;
        }
        proof {
            assert(forall|i: int|
                0 <= i < self.entries@.len() ==> (#[trigger] self.entries@[i]).name@ != f.name@);
        }
        self.entries.push(f);
        proof {
            assert(self.entries@[self.entries@.len() - 1].name@ == f.name@);
        }
        true
    }

    /// Find the formula called `name`, if any.
    pub fn lookup(&self, name: &str) -> (r: Option<&Formula>)
        requires
            self.wf(),
        ensures
            match r {
                Some(f) => self.contains_name(name@) && *f == self.spec_lookup(name@) && f.name@
                    == name@ && f.wf(),
                None => !self.contains_name(name@),
            },
    {
        let n: usize = self.entries.len();
        let mut i: usize = 0;
        while i < n
            invariant
                i <= n,
                n == self.entries@.len(),
                self.wf(),
                forall|j: int| 0 <= j < i ==> self.entries@[j].name@ != name@,
            decreases n - i,
        {
            if str_eq(self.entries[i].name.as_str(), name) {
                proof {
                    let w = choose|k: int|
                        0 <= k < self.entries@.len() && (#[trigger] self.entries@[k]).name@ == name@;
                    assert(self.entries@[i as int].name@ == name@);
                    assert(w == i as int);
                }
                return Some(&self.entries[i]);
            }
            i += 1;
        }
        None
    }

    /// Number of formulas held.
    pub fn len(&self) -> (r: usize)
        ensures
            r == self@.len(),
    {
        self.entries.len()
    }
}

/// Executable check of [`Formula::wf`].
fn formula_wf_check(f: &Formula) -> (r: bool)
    ensures
        r == f.wf(),
{
    let n: usize = f.channels.len();
    let mut i: usize = 0;
    while i < n
        invariant
            i <= n,
            n == f.channels@.len(),
            forall|a: int, b: int|
                0 <= a < b < i ==> f.channels@[a].name@ != f.channels@[b].name@,
            forall|a: int| 0 <= a < i ==> (#[trigger] f.channels@[a]).bottles.wf(),
        decreases n - i,
    {
        if !bottle_set_wf_check(&f.channels[i].bottles) {
            return false;
        }
        let mut j: usize = 0;
        while j < i
            invariant
                j <= i < n,
                n == f.channels@.len(),
                forall|b: int| 0 <= b < j ==> f.channels@[b].name@ != f.channels@[i as int].name@,
            decreases i - j,
        {
            if str_eq(f.channels[j].name.as_str(), f.channels[i].name.as_str()) {
                return false;
            }
            j += 1;
        }
        i += 1;
    }
    true
}

/// Executable check of [`BottleSet::wf`].
fn bottle_set_wf_check(s: &BottleSet) -> (r: bool)
    ensures
        r == s.wf(),
{
    let n: usize = s.files.len();
    let mut i: usize = 0;
    while i < n
        invariant
            i <= n,
            n == s.files@.len(),
            forall|a: int, b: int| 0 <= a < b < i ==> s.files@[a].arch@ != s.files@[b].arch@,
        decreases n - i,
    {
        let mut j: usize = 0;
        while j < i
            invariant
                j <= i < n,
                n == s.files@.len(),
                forall|b: int| 0 <= b < j ==> s.files@[b].arch@ != s.files@[i as int].arch@,
            decreases i - j,
        {
            if str_eq(s.files[j].arch.as_str(), s.files[i].arch.as_str()) {
                return false;
            }
            j += 1;
        }
        i += 1;
    }
    true
}

} // verus!
