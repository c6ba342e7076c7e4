//! Stage three: size resolution. The archive's cache filename follows
//! the cache convention; when the archive is not already cached, a
//! HEAD probe (performed outside the library) reports back and the
//! declared length is read from the raw `content-length` header value,
//! since response convenience accessors are unreliable for HEAD.
//! Probe failures are advisory: the size stays zero and the package
//! moves on.

use vstd::prelude::*;
use crate::error::Error;
use crate::package::{Package, PackageRegistry, Stage};
use crate::text::{all_dec_digits, dec_value, parse_u64_dec};

verus! {

/// Conventional archive filename under the cache:
/// `{name}-{version}.{arch}.bottle.tar.gz`.
pub open spec fn spec_package_file_name(p: Package) -> Seq<char> {
    p.name@ + "-"@ + p.spec_version_full() + "."@ + p.arch@ + ".bottle.tar.gz"@
}

/// Render the cache filename of a package's archive.
pub fn package_file_name(p: &Package) -> (r: String)
    ensures
        r@ == spec_package_file_name(*p),
{
    let mut s = p.name.clone();
    s.append("-");
    let vf = p.version_full();
    s.append(vf.as_str());
    s.append(".");
    s.append(p.arch.as_str());
    s.append(".bottle.tar.gz");
    proof {
        assert(s@ =~= spec_package_file_name(*p));
    }
    s
}

/// What the world reported about one package's archive size.
#[derive(Debug, Clone)]
pub enum SizeEvent {
    /// The archive is already in the cache: no probe, no progress
    /// contribution.
    Cached,
    /// The HEAD request itself failed.
    NetworkError,
    /// The HEAD request returned: whether the status was a success,
    /// and the raw `content-length` header value if one was present.
    Response { success: bool, content_length: Option<String> },
}

/// The length a header value denotes: its decimal value when it is a
/// well-formed number that fits, zero otherwise or when absent.
pub open spec fn spec_header_length(cl: Option<String>) -> u64 {
    match cl {
        Some(s) => if s@.len() > 0 && all_dec_digits(s@) && dec_value(s@) <= u64::MAX {
            dec_value(s@) as u64
        } else {
            0
        },
        None => 0,
    }
}

/// Relation between a package before and after the size stage.
pub open spec fn size_resolved_rel(p: Package, ev: SizeEvent, q: Package) -> bool {
    if !(p.stage == Stage::UrlResolved && p.spec_active()) {
        q == p
    } else {
        &&& keeps_rest_size(p, q)
        &&& q.package_name@ == spec_package_file_name(p)
        &&& q.stage == Stage::SizeResolved
        &&& match ev {
            SizeEvent::Cached => {
                &&& q.size == p.size
                &&& q.download_size == p.download_size
                &&& q.errors@ == p.errors@
            },
            SizeEvent::NetworkError => {
                &&& q.size == p.size
                &&& q.download_size == p.download_size
                &&& q.errors@.len() == p.errors@.len() + 1
                &&& q.errors@.subrange(0, p.errors@.len() as int) == p.errors@
                &&& (q.errors@.last() matches Error::SizeProbeFailed { package } && package@
                    == p.name@)
            },
            SizeEvent::Response { success, content_length } => {
                &&& q.errors@ == p.errors@
                &&& if success {
                    q.size == spec_header_length(content_length) && q.download_size
                        == spec_header_length(content_length)
                } else {
                    q.size == p.size && q.download_size == p.download_size
                }
            },
        }
    }
}

/// Fields the size stage never touches.
pub open spec fn keeps_rest_size(p: Package, q: Package) -> bool {
    &&& q.name == p.name
    &&& q.full_name == p.full_name
    &&& q.version == p.version
    &&& q.revision == p.revision
    &&& q.arch == p.arch
    &&& q.url == p.url
    &&& q.sha256 == p.sha256
    &&& q.relocate == p.relocate
    &&& q.rebuild == p.rebuild
    &&& q.keg == p.keg
    &&& q.files == p.files
    &&& q.explicit == p.explicit
    &&& q.required_by == p.required_by
    &&& q.patched_binaries == p.patched_binaries
    &&& q.patched_text == p.patched_text
    &&& q.links == p.links
}

/// Apply one size event to one package.
pub fn resolve_size_one(p: Package, ev: &SizeEvent) -> (q: Package)
    ensures
        size_resolved_rel(p, *ev, q),
{
    let mut p = p;
    if !(matches!(p.stage, Stage::UrlResolved) && p.active()) {
        return p;
    }
    p.package_name = package_file_name(&p);
    p.stage = Stage::SizeResolved;
    match ev {
        SizeEvent::Cached => {},
        SizeEvent::NetworkError => {
            let ghost e0 = p.errors@;
            p.errors.push(Error::SizeProbeFailed { package: p.name.clone() });
            proof {
                assert(p.errors@.subrange(0, e0.len() as int) =~= e0);
            }
        },
        SizeEvent::Response { success, content_length } => {
            if *success {
                let len = match content_length {
                    Some(s) => match parse_u64_dec(s.as_str()) {
                        Some(v) => v,
                        None => 0,
                    },
                    None => 0,
                };
                p.size = len;
                p.download_size = len;
            }
        },
    }
    p
}

/// Stage driver: resolve sizes across the whole registry, one event
/// per package, in registry order.
pub struct ResolveSize {
    /// Failures of this stage live on the packages themselves.
    pub errors: Vec<Error>,
}

impl ResolveSize {
    pub fn run(&mut self, reg: &mut PackageRegistry, events: &Vec<SizeEvent>)
        requires
            old(reg).wf(),
            events@.len() == old(reg)@.len(),
        ensures
            final(reg).wf(),
            final(reg)@.len() == old(reg)@.len(),
            forall|i: int|
                0 <= i < old(reg)@.len() ==> size_resolved_rel(
                    old(reg)@[i],
                    events@[i],
                    #[trigger] final(reg)@[i],
                ),
            *final(self) == *old(self),
    {
        let n: usize = reg.packages.len();
        let ghost reg0 = reg@;
        let mut i: usize = 0;
        while i < n
            invariant
                i <= n,
                n == reg@.len(),
                reg0.len() == n,
                events@.len() == n,
                forall|j: int| i <= j < n ==> reg@[j] == reg0[j],
                forall|j: int|
                    0 <= j < i ==> size_resolved_rel(reg0[j], events@[j], #[trigger] reg@[j]),
                forall|j: int| 0 <= j < n ==> (#[trigger] reg@[j]).name@ == reg0[j].name@,
            decreases n - i,
        {
            let ghost before = reg@;
            let p = reg.packages.remove(i);
            let q = resolve_size_one(p, &events[i]);
            reg.packages.insert(i, q);
            proof {
                assert(reg@ =~= before.update(i as int, q));
                assert(size_resolved_rel(reg0[i as int], events@[i as int], q));
                assert(q.name@ == reg0[i as int].name@);
            }
            i += 1;
        }
        proof {
            assert forall|a: int, b: int| 0 <= a < b < reg@.len() implies reg@[a].name@
                != reg@[b].name@ by {
                assert(reg0[a].name@ != reg0[b].name@);
            }
            assert(reg.wf());
        }
    }
}


/// The size stage only moves a package forward in the stage order.
pub proof fn lemma_size_stage_monotone(p: Package, ev: SizeEvent, q: Package)
    requires
        size_resolved_rel(p, ev, q),
    ensures
        p.stage.rank() <= q.stage.rank(),
{
}

} // verus!
