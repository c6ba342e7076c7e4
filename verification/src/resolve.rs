//! Stage one: dependency resolution. A FIFO work queue seeded by the
//! requested names is drained against the formula store; every
//! resolvable transitive dependency ends up in the registry exactly
//! once, names without a formula are recorded and do not block their
//! siblings, and cycles cannot make the walk diverge.

use vstd::prelude::*;
use vstd::set_lib::lemma_len_subset;
use crate::error::Error;
use crate::formula::{Formula, FormulaStore};
use crate::package::{Package, PackageRegistry};

verus! {

/// A pending name, remembering which package (if any) required it.
struct WorkItem {
    name: String,
    parent: Option<String>,
}

/// `p` is the fresh registry record of formula `f`: identity copied,
/// everything else still empty, stage `Resolved`.
pub open spec fn from_formula(p: Package, f: Formula) -> bool {
    Package::spec_new(f.name@, f.full_name@, f.version@, f.revision, p.explicit, p.required_by@, p)
}

/// Some recorded error says `name` has no formula.
pub open spec fn has_unresolved(errors: Seq<Error>, name: Seq<char>) -> bool {
    exists|i: int|
        0 <= i < errors.len() && ((#[trigger] errors[i]) matches Error::UnresolvedName {
            name: n,
        } && n@ == name)
}

/// Some queue item carries `name`.
spec fn in_queue(queue: Seq<WorkItem>, name: Seq<char>) -> bool {
    exists|i: int| 0 <= i < queue.len() && (#[trigger] queue[i]).name@ == name
}

/// A name is accounted for while the walk runs: already resolved,
/// still queued, or recorded as unresolvable.
spec fn covered(
    reg: PackageRegistry,
    queue: Seq<WorkItem>,
    errors: Seq<Error>,
    name: Seq<char>,
) -> bool {
    reg.contains_name(name) || in_queue(queue, name) || has_unresolved(errors, name)
}

/// All dependencies of every resolved package are accounted for.
spec fn deps_covered(
    reg: PackageRegistry,
    store: FormulaStore,
    queue: Seq<WorkItem>,
    errors: Seq<Error>,
) -> bool {
    forall|i: int, d: int|
        0 <= i < reg@.len() && 0 <= d < store.spec_lookup(reg@[i].name@).dependencies@.len()
            ==> covered(
            reg,
            queue,
            errors,
            (#[trigger] store.spec_lookup(reg@[i].name@).dependencies@[d])@,
        )
}

/// Every registry record is the fresh image of its store formula.
pub open spec fn reg_from_store(reg: PackageRegistry, store: FormulaStore) -> bool {
    forall|i: int|
        0 <= i < reg@.len() ==> store.contains_name((#[trigger] reg@[i]).name@) && from_formula(
            reg@[i],
            store.spec_lookup(reg@[i].name@),
        )
}

/// A registry with unique names drawn from a unique-name store cannot
/// outgrow the store.
proof fn lemma_registry_bounded(reg: PackageRegistry, store: FormulaStore)
    requires
        reg.wf(),
        store.wf(),
        forall|i: int| 0 <= i < reg@.len() ==> store.contains_name((#[trigger] reg@[i]).name@),
    ensures
        reg@.len() <= store@.len(),
{
    broadcast use vstd::seq_lib::seq_to_set_is_finite;
    broadcast use vstd::set::group_set_axioms;

    let regnames = reg@.map_values(|p: Package| p.name@);
    let storenames = store@.map_values(|f: Formula| f.name@);
    assert(regnames.no_duplicates());
    assert(storenames.no_duplicates());
    assert(regnames.to_set().subset_of(storenames.to_set())) by {
        assert forall|x: Seq<char>| regnames.to_set().contains(x) implies storenames.to_set()
            .contains(x) by {
            let i = choose|i: int| 0 <= i < regnames.len() && regnames[i] == x;
            assert(reg@[i].name@ == x);
            assert(store.contains_name(x));
            let k = choose|k: int| 0 <= k < store@.len() && (#[trigger] store@[k]).name@ == x;
            assert(storenames[k] == x);
        }
    }
    regnames.unique_seq_to_set();
    storenames.unique_seq_to_set();
    lemma_len_subset(regnames.to_set(), storenames.to_set());
}

/// One loop step keeps every covered name covered: the queue's head
/// was popped but is covered anew, the tail survives (possibly with
/// new items behind it), the registry only grows, and the error list
/// only grows.
proof fn lemma_covered_preserved(
    old_reg: PackageRegistry,
    old_queue: Seq<WorkItem>,
    old_errors: Seq<Error>,
    new_reg: PackageRegistry,
    new_queue: Seq<WorkItem>,
    new_errors: Seq<Error>,
)
    requires
        old_queue.len() > 0,
        covered(new_reg, new_queue, new_errors, old_queue[0].name@),
        forall|j: int|
            1 <= j < old_queue.len() ==> in_queue(new_queue, (#[trigger] old_queue[j]).name@),
        old_reg@.is_prefix_of(new_reg@),
        old_errors.is_prefix_of(new_errors),
    ensures
        forall|nm: Seq<char>|
            covered(old_reg, old_queue, old_errors, nm) ==> covered(
                new_reg,
                new_queue,
                new_errors,
                nm,
            ),
{
    assert forall|nm: Seq<char>| covered(old_reg, old_queue, old_errors, nm) implies covered(
        new_reg,
        new_queue,
        new_errors,
        nm,
    ) by {
        if old_reg.contains_name(nm) {
            let j = choose|j: int|
                0 <= j < old_reg@.len() && (#[trigger] old_reg@[j]).name@ == nm;
            assert(new_reg@[j] == old_reg@.subrange(0, old_reg@.len() as int)[j]);
            assert(new_reg@[j].name@ == nm);
            assert(new_reg.contains_name(nm));
        } else if in_queue(old_queue, nm) {
            let j = choose|j: int|
                0 <= j < old_queue.len() && (#[trigger] old_queue[j]).name@ == nm;
            if j == 0 {
                assert(covered(new_reg, new_queue, new_errors, nm));
            } else {
                assert(in_queue(new_queue, old_queue[j].name@));
            }
        } else if has_unresolved(old_errors, nm) {
            let j = choose|j: int|
                0 <= j < old_errors.len() && ((#[trigger] old_errors[j]) matches Error::UnresolvedName {
                    name: n,
                } && n@ == nm);
            assert(new_errors[j] == old_errors.subrange(0, old_errors.len() as int)[j]);
            assert(new_errors[j] == old_errors[j]);
            assert(has_unresolved(new_errors, nm));
        }
    }
}

/// The dependency resolver: breadth-first discovery of the requested
/// names and everything they transitively depend on.
pub struct ResolveDeps {
    /// Requested names; drained by [`Self::run`].
    pub names: Vec<String>,
    /// Accumulated resolution errors.
    pub errors: Vec<Error>,
}

impl ResolveDeps {
    /// Walk the store and build the registry.
    ///
    /// The registry that comes back holds each resolvable transitive
    /// dependency exactly once (`wf`), every record is the untouched
    /// image of its formula at stage `Resolved`, every dependency of a
    /// resolved package is itself resolved or recorded as
    /// `UnresolvedName`, and so is every requested name. The walk
    /// terminates on any store, cycles included.
    pub fn run(&mut self, store: &FormulaStore) -> (r: PackageRegistry)
        requires
            store.wf(),
        ensures
            r.wf(),
            reg_from_store(r, *store),
            forall|i: int, d: int|
                0 <= i < r@.len() && 0 <= d < store.spec_lookup(r@[i].name@).dependencies@.len()
                    ==> r.contains_name(
                    (#[trigger] store.spec_lookup(r@[i].name@).dependencies@[d])@,
                ) || has_unresolved(
                    final(self).errors@,
                    store.spec_lookup(r@[i].name@).dependencies@[d]@,
                ),
            forall|i: int|
                0 <= i < old(self).names@.len() ==> r.contains_name(
                    (#[trigger] old(self).names@[i])@,
                ) || has_unresolved(final(self).errors@, old(self).names@[i]@),
            forall|nm: Seq<char>|
                #![trigger r.contains_name(nm)]
                (exists|j: int|
                    0 <= j < old(self).names@.len() && (#[trigger] old(self).names@[j])@ == nm)
                    ==> r.contains_name(nm) || has_unresolved(final(self).errors@, nm),
            old(self).errors@.is_prefix_of(final(self).errors@),
            forall|i: int|
                old(self).errors@.len() <= i < final(self).errors@.len() ==> {
                    &&& (#[trigger] final(self).errors@[i]) matches Error::UnresolvedName { name: n }
                    &&& !store.contains_name(n@)
                },
            final(self).names@.len() == 0,
    {
        let mut queue: Vec<WorkItem> = Vec::new();
        let n_req: usize = self.names.len();
        let mut k: usize = 0;
        while k < n_req
            invariant
                k <= n_req,
                n_req == self.names@.len(),
                queue@.len() == k,
                forall|j: int| 0 <= j < k ==> (#[trigger] queue@[j]).name@ == self.names@[j]@,
            decreases n_req - k,
        {
            queue.push(WorkItem { name: self.names[k].clone(), parent: None });
            k += 1;
        }
        let ghost requested = self.names@;
        self.names.clear();
        let mut reg = PackageRegistry::new();
        let ghost err0 = self.errors@;
        proof {
            assert forall|i: int|
                0 <= i < requested.len() implies covered(
                reg,
                queue@,
                self.errors@,
                (#[trigger] requested[i])@,
            ) by {
                assert(queue@[i].name@ == requested[i]@);
                assert(in_queue(queue@, requested[i]@));
            }
        }
        while queue.len() > 0
            invariant
                store.wf(),
                reg.wf(),
                reg@.len() <= store@.len(),
                reg_from_store(reg, *store),
                deps_covered(reg, *store, queue@, self.errors@),
                forall|i: int|
                    0 <= i < requested.len() ==> covered(
                        reg,
                        queue@,
                        self.errors@,
                        (#[trigger] requested[i])@,
                    ),
                err0.is_prefix_of(self.errors@),
                forall|i: int|
                    err0.len() <= i < self.errors@.len() ==> {
                        &&& (#[trigger] self.errors@[i]) matches Error::UnresolvedName { name: n }
                        &&& !store.contains_name(n@)
                    },
                self.names@.len() == 0,
            decreases store@.len() - reg@.len(), queue@.len(),
        {
            let ghost old_queue = queue@;
            let ghost old_reg = reg;
            let ghost old_errors = self.errors@;
            let item = queue.remove(0);
            proof {
                assert(old_queue[0] == item);
                assert(queue@ =~= old_queue.skip(1));
                assert(forall|j: int|
                    1 <= j < old_queue.len() ==> queue@[j - 1] == old_queue[j]);
            }
            if reg.contains(item.name.as_str()) {
                proof {
                    assert forall|j: int|
                        1 <= j < old_queue.len() implies in_queue(
                        queue@,
                        (#[trigger] old_queue[j]).name@,
                    ) by {
                        assert(queue@[j - 1].name@ == old_queue[j].name@);
                    }
                    lemma_covered_preserved(
                        old_reg,
                        old_queue,
                        old_errors,
                        reg,
                        queue@,
                        self.errors@,
                    );
                    lemma_step_deps_covered(old_reg, *store, old_queue, old_errors, reg, queue@, self.errors@);
                }
                continue;
            }
            let found = store.lookup(item.name.as_str());
            match found {
                None => {
                    self.errors.push(Error::UnresolvedName { name: item.name });
                    proof {
                        let last = self.errors@.len() - 1;
                        assert(self.errors@[last] matches Error::UnresolvedName { name: n } && n@
                            == old_queue[0].name@);
                        assert(has_unresolved(self.errors@, old_queue[0].name@));
                        assert(old_errors.is_prefix_of(self.errors@)) by {
                            assert(old_errors =~= self.errors@.subrange(0, old_errors.len() as int));
                        }
                        assert forall|j: int|
                            1 <= j < old_queue.len() implies in_queue(
                            queue@,
                            (#[trigger] old_queue[j]).name@,
                        ) by {
                            assert(queue@[j - 1].name@ == old_queue[j].name@);
                        }
                        lemma_covered_preserved(
                            old_reg,
                            old_queue,
                            old_errors,
                            reg,
                            queue@,
                            self.errors@,
                        );
                        lemma_step_deps_covered(old_reg, *store, old_queue, old_errors, reg, queue@, self.errors@);
                    }
                },
                Some(f) => {
                    let explicit = item.parent.is_none();
                    let mut required_by: Vec<String> = Vec::new();
                    match item.parent {
                        Some(parent) => {
                            required_by.push(parent);
                        },
                        None => {},
                    }
                    let p = Package::new(
                        f.name.clone(),
                        f.full_name.clone(),
                        f.version.clone(),
                        f.revision,
                        explicit,
                        required_by,
                    );
                    let ghost mid_queue = queue@;
                    let nd: usize = f.dependencies.len();
                    let mut d: usize = 0;
                    while d < nd
                        invariant
                            d <= nd,
                            nd == f.dependencies@.len(),
                            queue@.len() == mid_queue.len() + d,
                            forall|j: int| 0 <= j < mid_queue.len() ==> queue@[j] == mid_queue[j],
                            forall|j: int|
                                0 <= j < d ==> (#[trigger] queue@[mid_queue.len() + j]).name@
                                    == f.dependencies@[j]@,
                        decreases nd - d,
                    {
                        queue.push(
                            WorkItem {
                                name: f.dependencies[d].clone(),
                                parent: Some(p.name.clone()),
                            },
                        );
                        d += 1;
                    }
                    proof {
                        assert(p.name@ == old_queue[0].name@);
                        assert(!old_reg.contains_name(p.name@));
                    }
                    let ghost pkg = p;
                    reg.push(p);
                    proof {
                        let last = reg@.len() - 1;
                        assert(reg@[last] == pkg);
                        assert(reg.contains_name(old_queue[0].name@)) by {
                            assert(reg@[last].name@ == old_queue[0].name@);
                        }
                        assert(old_reg@.is_prefix_of(reg@)) by {
                            assert(old_reg@ =~= reg@.subrange(0, old_reg@.len() as int));
                        }
                        assert forall|j: int|
                            1 <= j < old_queue.len() implies in_queue(
                            queue@,
                            (#[trigger] old_queue[j]).name@,
                        ) by {
                            assert(queue@[j - 1] == mid_queue[j - 1]);
                            assert(queue@[j - 1].name@ == old_queue[j].name@);
                        }
                        lemma_covered_preserved(
                            old_reg,
                            old_queue,
                            old_errors,
                            reg,
                            queue@,
                            self.errors@,
                        );
                        assert(store.spec_lookup(pkg.name@) == *f);
                        assert(reg_from_store(reg, *store)) by {
                            assert forall|i: int|
                                0 <= i < reg@.len() implies store.contains_name(
                                (#[trigger] reg@[i]).name@,
                            ) && from_formula(reg@[i], store.spec_lookup(reg@[i].name@)) by {
                                if i < old_reg@.len() {
                                    assert(reg@[i] == old_reg@[i]);
                                }
                            }
                        }
                        assert(deps_covered(reg, *store, queue@, self.errors@)) by {
                            assert forall|i: int, dd: int|
                                0 <= i < reg@.len() && 0 <= dd < store.spec_lookup(
                                    reg@[i].name@,
                                ).dependencies@.len() implies covered(
                                reg,
                                queue@,
                                self.errors@,
                                (#[trigger] store.spec_lookup(reg@[i].name@).dependencies@[dd])@,
                            ) by {
                                if i == last {
                                    assert(store.spec_lookup(reg@[i].name@) == *f);
                                    assert(queue@[mid_queue.len() + dd].name@
                                        == f.dependencies@[dd]@);
                                    assert(in_queue(queue@, f.dependencies@[dd]@));
                                } else {
                                    assert(reg@[i] == old_reg@[i]);
                                    assert(covered(
                                        old_reg,
                                        old_queue,
                                        old_errors,
                                        store.spec_lookup(reg@[i].name@).dependencies@[dd]@,
                                    ));
                                }
                            }
                        }
                        lemma_registry_bounded(reg, *store);
                    }
                },
            }
        }
        proof {
            assert forall|i: int|
                0 <= i < requested.len() implies reg.contains_name((#[trigger] requested[i])@)
                || has_unresolved(self.errors@, requested[i]@) by {
                assert(covered(reg, queue@, self.errors@, requested[i]@));
                assert(!in_queue(queue@, requested[i]@));
            }
            assert forall|nm: Seq<char>|
                (exists|j: int|
                    0 <= j < requested.len() && (#[trigger] requested[j])@ == nm) implies reg
                .contains_name(nm) || has_unresolved(self.errors@, nm) by {
                let j = choose|j: int| 0 <= j < requested.len() && (#[trigger] requested[j])@ == nm;
                assert(covered(reg, queue@, self.errors@, requested[j]@));
                assert(!in_queue(queue@, requested[j]@));
            }
            assert forall|i: int, d: int|
                0 <= i < reg@.len() && 0 <= d < store.spec_lookup(
                    reg@[i].name@,
                ).dependencies@.len() implies reg.contains_name(
                (#[trigger] store.spec_lookup(reg@[i].name@).dependencies@[d])@,
            ) || has_unresolved(self.errors@, store.spec_lookup(reg@[i].name@).dependencies@[d]@) by {
                assert(covered(
                    reg,
                    queue@,
                    self.errors@,
                    store.spec_lookup(reg@[i].name@).dependencies@[d]@,
                ));
                assert(!in_queue(queue@, store.spec_lookup(reg@[i].name@).dependencies@[d]@));
            }
        }
        reg
    }
}

/// Coverage of every old package's dependencies carries over to a new
/// state in which every old covered name stays covered.
proof fn lemma_step_deps_covered(
    old_reg: PackageRegistry,
    store: FormulaStore,
    old_queue: Seq<WorkItem>,
    old_errors: Seq<Error>,
    new_reg: PackageRegistry,
    new_queue: Seq<WorkItem>,
    new_errors: Seq<Error>,
)
    requires
        deps_covered(old_reg, store, old_queue, old_errors),
        old_reg@.is_prefix_of(new_reg@),
        new_reg@.len() == old_reg@.len(),
        forall|nm: Seq<char>|
            covered(old_reg, old_queue, old_errors, nm) ==> covered(
                new_reg,
                new_queue,
                new_errors,
                nm,
            ),
    ensures
        deps_covered(new_reg, store, new_queue, new_errors),
{
    assert(new_reg@ =~= old_reg@);
    assert forall|i: int, d: int|
        0 <= i < new_reg@.len() && 0 <= d < store.spec_lookup(
            new_reg@[i].name@,
        ).dependencies@.len() implies covered(
        new_reg,
        new_queue,
        new_errors,
        (#[trigger] store.spec_lookup(new_reg@[i].name@).dependencies@[d])@,
    ) by {
        assert(covered(
            old_reg,
            old_queue,
            old_errors,
            store.spec_lookup(old_reg@[i].name@).dependencies@[d]@,
        ));
    }
}

} // verus!
