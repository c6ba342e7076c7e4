//! The command front of the pipeline: resolve the requested names and
//! their transitive dependencies, then resolve each package's bottle
//! and download URL. The stages that need the outside world — probes,
//! transfers, extraction, rewriting files, linking, hooks — are driven
//! by the surrounding program through the per-stage drivers, feeding
//! them plain values.

use vstd::prelude::*;
use crate::bottle::{lookup_opt, url_resolved_rel, ResolveUrlSystem};
use crate::config::Config;
use crate::error::Error;
use crate::formula::FormulaStore;
use crate::package::{PackageRegistry, Stage};
use crate::resolve::{has_unresolved, ResolveDeps};

verus! {

/// The request: which names to add, and whether to stop after
/// download and verification.
#[derive(Debug, Clone)]
pub struct Opts {
    pub skip_unpack: bool,
    pub names: Vec<String>,
}

/// What the resolution front produced: the registry, and the errors
/// that belong to no package.
#[derive(Debug)]
pub struct RunOutcome {
    pub registry: PackageRegistry,
    pub errors: Vec<Error>,
}

/// Resolve the requested names into a registry with URLs.
///
/// Afterwards: the registry holds each resolvable transitive
/// dependency exactly once; every requested name is either in it or
/// recorded as `UnresolvedName`; every package either reached
/// `UrlResolved` and is still moving, or stalled at `Resolved` with
/// the error that stopped it.
pub fn run(opts: Opts, store: &FormulaStore, config: &Config) -> (r: RunOutcome)
    requires
        store.wf(),
    ensures
        r.registry.wf(),
        forall|i: int|
            0 <= i < opts.names@.len() ==> r.registry.contains_name((#[trigger] opts.names@[i])@)
                || has_unresolved(r.errors@, opts.names@[i]@),
        forall|i: int|
            0 <= i < r.registry@.len() ==> store.contains_name(
                (#[trigger] r.registry@[i]).name@,
            ),
        forall|i: int|
            0 <= i < r.registry@.len() ==> ((#[trigger] r.registry@[i]).stage == Stage::UrlResolved
                && r.registry@[i].spec_active()) || (r.registry@[i].stage == Stage::Resolved
                && !r.registry@[i].spec_active()),
        forall|i: int|
            0 <= i < r.errors@.len() ==> ((#[trigger] r.errors@[i]) matches Error::UnresolvedName {
                name: n,
            } && !store.contains_name(n@)),
{
    let mut deps = ResolveDeps { names: opts.names, errors: Vec::new() };
    let ghost req = deps.names@;
    proof {
        assert(req == opts.names@);
    }
    let mut reg = deps.run(store);
    let ghost midreg = reg;
    let ghost mid = reg@;
    proof {
        assert forall|i: int|
            0 <= i < opts.names@.len() implies midreg.contains_name((#[trigger] opts.names@[i])@)
            || has_unresolved(deps.errors@, opts.names@[i]@) by {
            assert(opts.names@[i] == req[i]);
            assert(midreg.contains_name((req[i])@) || has_unresolved(deps.errors@, (req[i])@));
        }
    }
    let mut urls = ResolveUrlSystem { names: Vec::new(), errors: Vec::new() };
    urls.run(store, config, &mut reg);
    proof {
        assert forall|i: int|
            0 <= i < reg@.len() implies ((#[trigger] reg@[i]).stage == Stage::UrlResolved
            && reg@[i].spec_active()) || (reg@[i].stage == Stage::Resolved
            && !reg@[i].spec_active()) by {
            let p = mid[i];
            let q = reg@[i];
            assert(url_resolved_rel(p, lookup_opt(*store, p.name@), *config, q));
            assert(p.stage == Stage::Resolved && p.errors@.len() == 0);
            assert(p.spec_active());
            if q.stage == Stage::UrlResolved {
                assert(q.errors@ == p.errors@);
                assert(q.spec_active());
            } else {
                assert(q.stage == Stage::Resolved);
                assert(q.errors@.len() == 1);
                assert(q.errors@.last().spec_stalls());
                assert(!q.spec_active());
            }
        }
        assert forall|i: int|
            0 <= i < reg@.len() implies store.contains_name(
            (#[trigger] reg@[i]).name@,
        ) by {
            assert(url_resolved_rel(mid[i], lookup_opt(*store, mid[i].name@), *config, reg@[i]));
            assert(reg@[i].name@ == mid[i].name@);
        }
        assert forall|i: int|
            0 <= i < opts.names@.len() implies reg.contains_name((#[trigger] opts.names@[i])@)
            || has_unresolved(deps.errors@, opts.names@[i]@) by {
            if !has_unresolved(deps.errors@, opts.names@[i]@) {
                assert(midreg.contains_name(opts.names@[i]@));
                let k = choose|k: int|
                    0 <= k < midreg.packages@.len() && (#[trigger] midreg.packages@[k]).name@
                        == opts.names@[i]@;
                assert(url_resolved_rel(mid[k], lookup_opt(*store, mid[k].name@), *config, reg@[k]));
                assert(reg@[k].name@ == mid[k].name@);
                assert(reg.contains_name(opts.names@[i]@)) by {
                    assert((reg.packages@[k]).name@ == opts.names@[i]@);
                }
            }
        }
    }
    RunOutcome { registry: reg, errors: deps.errors }
}

} // verus!
