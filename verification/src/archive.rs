//! Stage five: archive verification. The downloaded archive's digest
//! is checked first — a mismatch stalls the package and nothing is
//! extracted. Then the member paths are validated against the
//! expected keg prefix (`{name}/{version}`); members outside it are
//! recorded as advisory `ArchiveInvalid` errors, and the validated
//! list becomes the package's ground truth for relocation and
//! linking. The extraction itself is filesystem work done outside the
//! library from that validated list.

use vstd::prelude::*;
use crate::checksum::{checksum_matches, verify_checksum};
use crate::error::Error;
use crate::package::{Package, PackageRegistry, Stage};
use crate::text::str_eq;

verus! {

/// Keg-relative directory of a package: `{name}/{version}`.
pub open spec fn spec_keg(p: Package) -> Seq<char> {
    p.name@ + "/"@ + p.spec_version_full()
}

/// Render the keg path of a package.
pub fn keg_path(p: &Package) -> (r: String)
    ensures
        r@ == spec_keg(*p),
{
    let mut s = p.name.clone();
    s.append("/");
    let vf = p.version_full();
    s.append(vf.as_str());
    proof {
        assert(s@ =~= spec_keg(*p));
    }
    s
}

/// Expected manifest marker inside the archive:
/// `{keg}/.brew/{name}.rb`.
pub open spec fn spec_marker_file(p: Package) -> Seq<char> {
    spec_keg(p) + "/.brew/"@ + p.name@ + ".rb"@
}

/// Render the marker path of a package.
pub fn marker_file(p: &Package) -> (r: String)
    ensures
        r@ == spec_marker_file(*p),
{
    let mut s = keg_path(p);
    s.append("/.brew/");
    s.append(p.name.as_str());
    s.append(".rb");
    proof {
        assert(s@ =~= spec_marker_file(*p));
    }
    s
}

/// Does the member list contain the manifest marker? Its absence is a
/// warning, never an error.
pub fn has_marker(entries: &Vec<String>, p: &Package) -> (r: bool)
    ensures
        r == exists|i: int|
            0 <= i < entries@.len() && (#[trigger] entries@[i])@ == spec_marker_file(*p),
{
    let marker = marker_file(p);
    let n: usize = entries.len();
    let mut i: usize = 0;
    while i < n
        invariant
            i <= n,
            n == entries@.len(),
            forall|j: int| 0 <= j < i ==> (#[trigger] entries@[j])@ != marker@,
            marker@ == spec_marker_file(*p),
        decreases n - i,
    {
        if str_eq(entries[i].as_str(), marker.as_str()) {
            return true;
        }
        i += 1;
    }
    false
}

/// The member paths that do not sit under the expected keg prefix.
pub open spec fn spec_stray_entries(entries: Seq<String>, keg: Seq<char>) -> Seq<String> {
    entries.filter(|e: String| !keg.is_prefix_of(e@))
}

/// Relation between a package before and after the verify stage,
/// given the archive bytes and member list that were handed in.
pub open spec fn verified_rel(p: Package, data: Seq<u8>, entries: Seq<String>, q: Package) -> bool {
    if !(p.stage == Stage::Downloaded && p.spec_active()) {
        q == p
    } else if !checksum_matches(data, p.sha256@) {
        // Integrity failure: record it, extract nothing.
        &&& keeps_rest_verify(p, q)
        &&& q.keg == p.keg
        &&& q.files == p.files
        &&& q.stage == p.stage
        &&& q.errors@.len() == p.errors@.len() + 1
        &&& q.errors@.subrange(0, p.errors@.len() as int) == p.errors@
        &&& (q.errors@.last() matches Error::ChecksumMismatch { package, expected } && package@
            == p.name@ && expected@ == p.sha256@)
    } else {
        let stray = spec_stray_entries(entries, spec_keg(p));
        &&& keeps_rest_verify(p, q)
        &&& q.keg@ == spec_keg(p)
        &&& q.files@ == entries
        &&& q.stage == Stage::Verified
        &&& q.errors@.len() == p.errors@.len() + stray.len()
        &&& q.errors@.subrange(0, p.errors@.len() as int) == p.errors@
        &&& forall|k: int|
            0 <= k < stray.len() ==> ((#[trigger] q.errors@[p.errors@.len() + k])
                matches Error::ArchiveInvalid { package, entry } && package@ == p.name@ && entry@
                == stray[k]@)
    }
}

/// Fields the verify stage never touches.
pub open spec fn keeps_rest_verify(p: Package, q: Package) -> bool {
    &&& q.name == p.name
    &&& q.full_name == p.full_name
    &&& q.version == p.version
    &&& q.revision == p.revision
    &&& q.arch == p.arch
    &&& q.url == p.url
    &&& q.sha256 == p.sha256
    &&& q.relocate == p.relocate
    &&& q.rebuild == p.rebuild
    &&& q.size == p.size
    &&& q.download_size == p.download_size
    &&& q.package_name == p.package_name
    &&& q.explicit == p.explicit
    &&& q.required_by == p.required_by
    &&& q.patched_binaries == p.patched_binaries
    &&& q.patched_text == p.patched_text
    &&& q.links == p.links
}

/// A sequence filtered after one more element grows by that element
/// exactly when the predicate holds of it.
proof fn lemma_filter_take_step(entries: Seq<String>, pred: spec_fn(String) -> bool, i: int)
    requires
        0 <= i < entries.len(),
    ensures
        entries.take(i + 1).filter(pred) == if pred(entries[i]) {
            entries.take(i).filter(pred).push(entries[i])
        } else {
            entries.take(i).filter(pred)
        },
{
    assert(entries.take(i + 1).drop_last() =~= entries.take(i));
    assert(entries.take(i + 1).last() == entries[i]);
    reveal_with_fuel(Seq::filter, 2);
}

/// Verify one package against its archive's bytes and member list.
pub fn verify_one(p: Package, data: &Vec<u8>, entries: &Vec<String>) -> (q: Package)
    ensures
        verified_rel(p, data@, entries@, q),
{
    let mut p = p;
    if !(matches!(p.stage, Stage::Downloaded) && p.active()) {
        return p;
    }
    match verify_checksum(p.name.as_str(), data, p.sha256.as_str()) {
        Err(e) => {
            let ghost e0 = p.errors@;
            p.errors.push(e);
            proof {
                assert(p.errors@.subrange(0, e0.len() as int) =~= e0);
            }
            return p;
        },
        Ok(()) => {},
    }
    let ghost p0 = p;
    let keg = keg_path(&p);
    let ghost e0 = p.errors@;
    let n: usize = entries.len();
    let mut i: usize = 0;
    let mut files: Vec<String> = Vec::new();
    proof {
        assert(spec_stray_entries(entries@.take(0), spec_keg(p0)) =~= Seq::<String>::empty());
    }
    while i < n
        invariant
            i <= n,
            n == entries@.len(),
            keg@ == spec_keg(p0),
            keeps_rest_verify(p0, p),
            p.name == p0.name,
            p.keg == p0.keg,
            p.files == p0.files,
            p.stage == p0.stage,
            files@ == entries@.take(i as int),
            p.errors@.len() == e0.len() + spec_stray_entries(entries@.take(i as int), spec_keg(p0)).len(),
            p.errors@.subrange(0, e0.len() as int) == e0,
            forall|k: int|
                0 <= k < spec_stray_entries(entries@.take(i as int), spec_keg(p0)).len() ==> ((
                #[trigger] p.errors@[e0.len() + k]) matches Error::ArchiveInvalid {
                    package,
                    entry,
                } && package@ == p0.name@ && entry@ == spec_stray_entries(
                    entries@.take(i as int),
                    spec_keg(p0),
                )[k]@),
        decreases n - i,
    {
        let entry = &entries[i];
        let ghost before_errors = p.errors@;
        if !crate::text::str_starts_with(entry.as_str(), keg.as_str()) {
            let e = Error::ArchiveInvalid { package: p.name.clone(), entry: entry.clone() };
            p.errors.push(e);
            proof {
                assert(p.errors@.subrange(0, e0.len() as int) =~= before_errors.subrange(
                    0,
                    e0.len() as int,
                ));
            }
        }
        files.push(entry.clone());
        proof {
            lemma_filter_take_step(entries@, |e: String| !spec_keg(p0).is_prefix_of(e@), i as int);
            assert(files@ =~= entries@.take(i + 1));
        }
        i += 1;
    }
    proof {
        assert(entries@.take(n as int) =~= entries@);
    }
    p.files = files;
    p.keg = keg;
    p.stage = Stage::Verified;
    p
}

/// Stage driver: verify archives across the whole registry, one
/// `(bytes, member list)` pair per package, in registry order.
pub struct VerifyArchives {
    /// Failures of this stage live on the packages themselves.
    pub errors: Vec<Error>,
}

impl VerifyArchives {
    pub fn run(
        &mut self,
        reg: &mut PackageRegistry,
        data: &Vec<Vec<u8>>,
        entries: &Vec<Vec<String>>,
    )
        requires
            old(reg).wf(),
            data@.len() == old(reg)@.len(),
            entries@.len() == old(reg)@.len(),
        ensures
            final(reg).wf(),
            final(reg)@.len() == old(reg)@.len(),
            forall|i: int|
                0 <= i < old(reg)@.len() ==> verified_rel(
                    old(reg)@[i],
                    data@[i]@,
                    entries@[i]@,
                    #[trigger] final(reg)@[i],
                ),
            *final(self) == *old(self),
    {
        let n: usize = reg.packages.len();
        let ghost reg0 = reg@;
        let mut i: usize = 0;
        while i < n
            invariant
                i <= n,
                n == reg@.len(),
                reg0.len() == n,
                data@.len() == n,
                entries@.len() == n,
                forall|j: int| i <= j < n ==> reg@[j] == reg0[j],
                forall|j: int|
                    0 <= j < i ==> verified_rel(reg0[j], data@[j]@, entries@[j]@, #[trigger] reg@[j]),
                forall|j: int| 0 <= j < n ==> (#[trigger] reg@[j]).name@ == reg0[j].name@,
            decreases n - i,
        {
            let ghost before = reg@;
            let p = reg.packages.remove(i);
            let q = verify_one(p, &data[i], &entries[i]);
            reg.packages.insert(i, q);
            proof {
                assert(reg@ =~= before.update(i as int, q));
                assert(verified_rel(reg0[i as int], data@[i as int]@, entries@[i as int]@, q));
                assert(q.name@ == reg0[i as int].name@);
            }
            i += 1;
        }
        proof {
            assert forall|a: int, b: int| 0 <= a < b < reg@.len() implies reg@[a].name@
                != reg@[b].name@ by {
                assert(reg0[a].name@ != reg0[b].name@);
            }
            assert(reg.wf());
        }
    }
}


/// The verify stage only moves a package forward in the stage order.
pub proof fn lemma_verify_stage_monotone(p: Package, data: Seq<u8>, entries: Seq<String>, q: Package)
    requires
        verified_rel(p, data, entries, q),
    ensures
        p.stage.rank() <= q.stage.rank(),
{
}

} // verus!
