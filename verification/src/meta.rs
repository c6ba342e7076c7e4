//! Persisted per-package metadata: what a later uninstall or upgrade
//! needs to know about an installed package. Written after install by
//! the surrounding program; it must round-trip losslessly, so it is a
//! plain record of plain values.

use vstd::prelude::*;
use crate::package::Package;

verus! {

/// The durable record of one installed package.
#[derive(Debug, Clone)]
pub struct PackageMeta {
    /// Keg-relative install directory, `name/version`.
    pub keg: String,
    /// Member files of the archive, relative to the cellar.
    pub files: Vec<String>,
    /// Requested directly rather than pulled in as a dependency.
    pub explicit: bool,
    /// Names of the packages that required this one.
    pub required: Vec<String>,
    /// Files whose object-file metadata was patched.
    pub patched_binaries: Vec<String>,
    /// Files rewritten as text.
    pub patched_text: Vec<String>,
    /// Links created under the shared prefix.
    pub links: Vec<String>,
}

/// Copy a list of strings, element for element.
fn clone_strings(v: &Vec<String>) -> (r: Vec<String>)
    ensures
        r@ == v@,
{
    let n: usize = v.len();
    let mut out: Vec<String> = Vec::new();
    let mut i: usize = 0;
    while i < n
        invariant
            i <= n,
            n == v@.len(),
            out@ =~= v@.take(i as int),
        decreases n - i,
    {
        let c = v[i].clone();
        proof {
            assert(c == v@[i as int]);
        }
        out.push(c);
        proof {
            assert(out@ =~= v@.take(i + 1));
        }
        i += 1;
    }
    proof {
        assert(v@.take(n as int) =~= v@);
    }
    out
}

/// Extract the durable record of a package's state.
pub fn package_meta(p: &Package) -> (m: PackageMeta)
    ensures
        m.keg == p.keg,
        m.files@ == p.files@,
        m.explicit == p.explicit,
        m.required@ == p.required_by@,
        m.patched_binaries@ == p.patched_binaries@,
        m.patched_text@ == p.patched_text@,
        m.links@ == p.links@,
{
    PackageMeta {
        keg: p.keg.clone(),
        files: clone_strings(&p.files),
        explicit: p.explicit,
        required: clone_strings(&p.required_by),
        patched_binaries: clone_strings(&p.patched_binaries),
        patched_text: clone_strings(&p.patched_text),
        links: clone_strings(&p.links),
    }
}

} // verus!
