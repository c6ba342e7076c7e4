//! Stage eight: post-install hooks. A package with a script at
//! `<scripts dir>/<name>.sh` gets its `post_install` entry point run
//! in a subprocess with `PREFIX`, `CELLAR` and `PKG_NAME` set; the
//! subprocess itself runs outside the library. A failing hook marks
//! its package and stops nothing else.

use vstd::prelude::*;
use crate::error::Error;
use crate::package::{Package, PackageRegistry, Stage};

verus! {

/// How one package's hook went.
#[derive(Debug, Clone, Copy, PartialEq, Eq, Structural)]
pub enum HookEvent {
    /// No script for this package: nothing to run.
    NoScript,
    /// The hook ran and exited zero.
    Succeeded,
    /// The hook could not be spawned, or exited non-zero.
    Failed,
}

/// The environment a hook is invoked with: `PREFIX`, `CELLAR` and
/// `PKG_NAME`, in that order.
pub fn post_install_env(prefix: &str, cellar_keg: &str, name: &str) -> (r: Vec<(String, String)>)
    ensures
        r@.len() == 3,
        r@[0].0@ == "PREFIX"@ && r@[0].1@ == prefix@,
        r@[1].0@ == "CELLAR"@ && r@[1].1@ == cellar_keg@,
        r@[2].0@ == "PKG_NAME"@ && r@[2].1@ == name@,
{
    let mut out: Vec<(String, String)> = Vec::new();
    out.push((String::from_str("PREFIX"), String::from_str(prefix)));
    out.push((String::from_str("CELLAR"), String::from_str(cellar_keg)));
    out.push((String::from_str("PKG_NAME"), String::from_str(name)));
    out
}

/// Relation between a package before and after the post-install stage.
pub open spec fn post_install_rel(p: Package, ev: HookEvent, q: Package) -> bool {
    if !(p.stage == Stage::Linked && p.spec_active()) {
        q == p
    } else {
        match ev {
            HookEvent::NoScript | HookEvent::Succeeded => {
                &&& keeps_rest_hook(p, q)
                &&& q.stage == Stage::Done
                &&& q.errors@ == p.errors@
            },
            HookEvent::Failed => {
                &&& keeps_rest_hook(p, q)
                &&& q.stage == p.stage
                &&& q.errors@.len() == p.errors@.len() + 1
                &&& q.errors@.subrange(0, p.errors@.len() as int) == p.errors@
                &&& (q.errors@.last() matches Error::PostInstallFailed { package } && package@
                    == p.name@)
            },
        }
    }
}

/// Fields the post-install stage never touches.
pub open spec fn keeps_rest_hook(p: Package, q: Package) -> bool {
    &&& q.name == p.name
    &&& q.full_name == p.full_name
    &&& q.version == p.version
    &&& q.revision == p.revision
    &&& q.arch == p.arch
    &&& q.url == p.url
    &&& q.sha256 == p.sha256
    &&& q.relocate == p.relocate
    &&& q.rebuild == p.rebuild
    &&& q.size == p.size
    &&& q.download_size == p.download_size
    &&& q.package_name == p.package_name
    &&& q.keg == p.keg
    &&& q.files == p.files
    &&& q.explicit == p.explicit
    &&& q.required_by == p.required_by
    &&& q.patched_binaries == p.patched_binaries
    &&& q.patched_text == p.patched_text
    &&& q.links == p.links
}

/// Record one hook outcome on one package.
pub fn post_install_one(p: Package, ev: HookEvent) -> (q: Package)
    ensures
        post_install_rel(p, ev, q),
{
    let mut p = p;
    if !(matches!(p.stage, Stage::Linked) && p.active()) {
        return p;
    }
    match ev {
        HookEvent::NoScript | HookEvent::Succeeded => {
            p.stage = Stage::Done;
        },
        HookEvent::Failed => {
            let ghost e0 = p.errors@;
            p.errors.push(Error::PostInstallFailed { package: p.name.clone() });
            proof {
                assert(p.errors@.subrange(0, e0.len() as int) =~= e0);
            }
        },
    }
    p
}

/// Stage driver: record hook outcomes across the whole registry, one
/// event per package, in registry order. A failed hook never blocks
/// another package's hook.
pub struct PostInstall {
    /// Failures of this stage live on the packages themselves.
    pub errors: Vec<Error>,
}

impl PostInstall {
    pub fn run(&mut self, reg: &mut PackageRegistry, events: &Vec<HookEvent>)
        requires
            old(reg).wf(),
            events@.len() == old(reg)@.len(),
        ensures
            final(reg).wf(),
            final(reg)@.len() == old(reg)@.len(),
            forall|i: int|
                0 <= i < old(reg)@.len() ==> post_install_rel(
                    old(reg)@[i],
                    events@[i],
                    #[trigger] final(reg)@[i],
                ),
            *final(self) == *old(self),
    {
        let n: usize = reg.packages.len();
        let ghost reg0 = reg@;
        let mut i: usize = 0;
        while i < n
            invariant
                i <= n,
                n == reg@.len(),
                reg0.len() == n,
                events@.len() == n,
                forall|j: int| i <= j < n ==> reg@[j] == reg0[j],
                forall|j: int|
                    0 <= j < i ==> post_install_rel(reg0[j], events@[j], #[trigger] reg@[j]),
                forall|j: int| 0 <= j < n ==> (#[trigger] reg@[j]).name@ == reg0[j].name@,
            decreases n - i,
        {
            let ghost before = reg@;
            let p = reg.packages.remove(i);
            let q = post_install_one(p, events[i]);
            reg.packages.insert(i, q);
            proof {
                assert(reg@ =~= before.update(i as int, q));
                assert(post_install_rel(reg0[i as int], events@[i as int], q));
                assert(q.name@ == reg0[i as int].name@);
            }
            i += 1;
        }
        proof {
            assert forall|a: int, b: int| 0 <= a < b < reg@.len() implies reg@[a].name@
                != reg@[b].name@ by {
                assert(reg0[a].name@ != reg0[b].name@);
            }
            assert(reg.wf());
        }
    }
}


/// The post-install stage only moves a package forward in the stage
/// order.
pub proof fn lemma_hook_stage_monotone(p: Package, ev: HookEvent, q: Package)
    requires
        post_install_rel(p, ev, q),
    ensures
        p.stage.rank() <= q.stage.rank(),
{
}

} // verus!
