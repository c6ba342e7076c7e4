//! Stage two: bottle resolution. For each freshly resolved package,
//! pick the bottle architecture (target first, then the `"all"`
//! wildcard, then the configured fallbacks, first match wins), parse
//! the relocation mode from the cellar hint, and build the download
//! URL from the first mirror — or fall back to the formula's direct
//! URL when no mirror is configured.

use vstd::prelude::*;
use crate::config::Config;
use crate::error::Error;
use crate::formula::{BottleSet, Formula, FormulaStore};
use crate::package::{Package, PackageRegistry, RelocateMode, Stage, parse_relocate_mode, spec_relocate_mode};
use crate::text::{at_to_slash, dec_digits, replace_at_with_slash, u64_to_dec};

verus! {

/// The architecture tags tried, in order: configured target, the
/// `"all"` wildcard, then each configured fallback.
pub open spec fn arch_candidates(c: Config) -> Seq<Seq<char>> {
    seq![c.target@, "all"@] + c.os_fallback@.map_values(|s: String| s@)
}

/// First candidate that the bottle set offers; `None` when none match.
pub open spec fn spec_select_arch(set: BottleSet, cands: Seq<Seq<char>>) -> Option<Seq<char>>
    decreases cands.len(),
{
    if cands.len() == 0 {
        None
    } else if set.has_arch(cands[0]) {
        Some(cands[0])
    } else {
        spec_select_arch(set, cands.skip(1))
    }
}

/// A selected architecture is one the set offers.
proof fn lemma_select_arch_has(set: BottleSet, cands: Seq<Seq<char>>)
    requires
        spec_select_arch(set, cands) is Some,
    ensures
        set.has_arch(spec_select_arch(set, cands).unwrap()),
    decreases cands.len(),
{
    if cands.len() == 0 {
    } else if set.has_arch(cands[0]) {
    } else {
        lemma_select_arch_has(set, cands.skip(1));
    }
}

/// Select the bottle architecture for this configuration: the first
/// of target, `"all"`, fallbacks that the set offers.
pub fn select_arch(set: &BottleSet, config: &Config) -> (r: Option<String>)
    requires
        set.wf(),
    ensures
        match r {
            Some(a) => spec_select_arch(*set, arch_candidates(*config)) == Some(a@),
            None => spec_select_arch(*set, arch_candidates(*config)) is None,
        },
{
    let ghost cands = arch_candidates(*config);
    if set.entry(config.target.as_str()).is_some() {
        proof {
            assert(cands[0] == config.target@);
        }
        return Some(config.target.clone());
    }
    proof {
        assert(cands[0] == config.target@);
        assert(spec_select_arch(*set, cands) == spec_select_arch(*set, cands.skip(1)));
    }
    if set.entry("all").is_some() {
        proof {
            assert(cands.skip(1)[0] == "all"@);
        }
        return Some(String::from_str("all"));
    }
    proof {
        assert(cands.skip(1)[0] == "all"@);
        assert(spec_select_arch(*set, cands.skip(1)) == spec_select_arch(*set, cands.skip(1).skip(1)));
        assert(cands.skip(1).skip(1) =~= cands.skip(2));
    }
    let n: usize = config.os_fallback.len();
    let mut i: usize = 0;
    while i < n
        invariant
            i <= n,
            n == config.os_fallback@.len(),
            set.wf(),
            cands == arch_candidates(*config),
            spec_select_arch(*set, cands) == spec_select_arch(*set, cands.skip(2 + i)),
        decreases n - i,
    {
        proof {
            assert(cands.len() == 2 + n);
            assert(cands.skip(2 + i as int)[0] == config.os_fallback@[i as int]@);
        }
        if set.entry(config.os_fallback[i].as_str()).is_some() {
            return Some(config.os_fallback[i].clone());
        }
        proof {
            assert(spec_select_arch(*set, cands.skip(2 + i as int)) == spec_select_arch(
                *set,
                cands.skip(2 + i as int).skip(1),
            ));
            assert(cands.skip(2 + i as int).skip(1) =~= cands.skip(2 + i + 1));
        }
        i += 1;
    }
    proof {
        assert(cands.skip(2 + n as int).len() == 0);
    }
    None
}

/// URL of a bottle blob on an OCI mirror:
/// `{mirror}/{name with @ as /}/blobs/sha256:{sha256}`.
pub open spec fn spec_oci_url(mirror: Seq<char>, name: Seq<char>, sha: Seq<char>) -> Seq<char> {
    mirror + "/"@ + at_to_slash(name) + "/blobs/sha256:"@ + sha
}

/// URL of a conventionally named bottle on a plain mirror:
/// `{mirror}/{name}-{version}.{arch}.bottle[.{rebuild}].tar.gz`.
pub open spec fn spec_bottle_url(
    mirror: Seq<char>,
    name: Seq<char>,
    version_full: Seq<char>,
    arch: Seq<char>,
    rebuild: u64,
) -> Seq<char> {
    mirror + "/"@ + name + "-"@ + version_full + "."@ + arch + ".bottle"@ + (if rebuild == 0 {
        ".tar.gz"@
    } else {
        "."@ + dec_digits(rebuild as nat) + ".tar.gz"@
    })
}

/// Build [`spec_oci_url`].
pub fn build_oci_url(mirror: &str, name: &str, sha: &str) -> (r: String)
    ensures
        r@ == spec_oci_url(mirror@, name@, sha@),
{
    let mut s = String::from_str(mirror);
    s.append("/");
    let mapped = replace_at_with_slash(name);
    s.append(mapped.as_str());
    s.append("/blobs/sha256:");
    s.append(sha);
    proof {
        assert(s@ =~= spec_oci_url(mirror@, name@, sha@));
    }
    s
}

/// Build [`spec_bottle_url`].
pub fn build_bottle_url(
    mirror: &str,
    name: &str,
    version_full: &str,
    arch: &str,
    rebuild: u64,
) -> (r: String)
    ensures
        r@ == spec_bottle_url(mirror@, name@, version_full@, arch@, rebuild),
{
    let mut s = String::from_str(mirror);
    s.append("/");
    s.append(name);
    s.append("-");
    s.append(version_full);
    s.append(".");
    s.append(arch);
    s.append(".bottle");
    if rebuild != 0 {
        s.append(".");
        let d = u64_to_dec(rebuild);
        s.append(d.as_str());
    }
    s.append(".tar.gz");
    proof {
        assert(s@ =~= spec_bottle_url(mirror@, name@, version_full@, arch@, rebuild));
    }
    s
}

/// The URL the download stage will use: first mirror if configured
/// (OCI or conventional shape), else the formula's direct URL.
pub open spec fn spec_download_url(
    c: Config,
    name: Seq<char>,
    version_full: Seq<char>,
    arch: Seq<char>,
    rebuild: u64,
    sha: Seq<char>,
    direct: Seq<char>,
) -> Seq<char> {
    if c.mirror_list@.len() > 0 {
        if c.mirror_list@[0].oci {
            spec_oci_url(c.mirror_list@[0].url@, name, sha)
        } else {
            spec_bottle_url(c.mirror_list@[0].url@, name, version_full, arch, rebuild)
        }
    } else {
        direct
    }
}

/// The store's formula for `name`, when it has one.
pub open spec fn lookup_opt(store: FormulaStore, name: Seq<char>) -> Option<Formula> {
    if store.contains_name(name) {
        Some(store.spec_lookup(name))
    } else {
        None
    }
}

/// Fields the bottle stage never touches.
pub open spec fn keeps_rest(p: Package, q: Package) -> bool {
    &&& q.name == p.name
    &&& q.full_name == p.full_name
    &&& q.version == p.version
    &&& q.revision == p.revision
    &&& q.size == p.size
    &&& q.download_size == p.download_size
    &&& q.package_name == p.package_name
    &&& q.keg == p.keg
    &&& q.files == p.files
    &&& q.explicit == p.explicit
    &&& q.required_by == p.required_by
    &&& q.patched_binaries == p.patched_binaries
    &&& q.patched_text == p.patched_text
    &&& q.links == p.links
}

/// Resolution fields the stage sets on success, untouched on failure.
pub open spec fn keeps_resolution(p: Package, q: Package) -> bool {
    &&& q.arch == p.arch
    &&& q.url == p.url
    &&& q.sha256 == p.sha256
    &&& q.relocate == p.relocate
    &&& q.rebuild == p.rebuild
}

/// The package stalled at its stage with exactly one more error; what
/// that error says is pinned at each use site.
pub open spec fn stalled(p: Package, q: Package) -> bool {
    &&& keeps_rest(p, q)
    &&& keeps_resolution(p, q)
    &&& q.stage == p.stage
    &&& q.errors@.len() == p.errors@.len() + 1
    &&& q.errors@.subrange(0, p.errors@.len() as int) == p.errors@
}

/// Full relation between a package before and after the bottle stage.
pub open spec fn url_resolved_rel(p: Package, f: Option<Formula>, c: Config, q: Package) -> bool {
    if !(p.stage == Stage::Resolved && p.spec_active()) {
        q == p
    } else {
        match f {
            // The resolver puts only store-backed names in the
            // registry; a missing formula means no channel either.
            None => stalled(p, q) && (q.errors@.last() matches Error::ChannelUnavailable {
                package,
            } && package@ == p.name@),
            Some(ff) => {
                if !ff.has_channel("stable"@) {
                    stalled(p, q) && (q.errors@.last() matches Error::ChannelUnavailable {
                        package,
                    } && package@ == p.name@)
                } else {
                    let set = ff.spec_channel("stable"@);
                    match spec_select_arch(set, arch_candidates(c)) {
                        None => stalled(p, q) && (q.errors@.last()
                            matches Error::NoBottleForTarget { package, available }
                            && package@ == p.name@ && available@.len() == set.files@.len()
                            && (forall|k: int|
                            0 <= k < available@.len() ==> (#[trigger] available@[k])@
                                == set.files@[k].arch@)),
                        Some(arch) => {
                            let e = set.spec_entry(arch);
                            match spec_relocate_mode(e.cellar@) {
                                None => stalled(p, q) && (q.errors@.last()
                                    matches Error::UnsupportedRelocation { package, cellar }
                                    && package@ == p.name@ && cellar@ == e.cellar@),
                                Some(mode) => {
                                    &&& keeps_rest(p, q)
                                    &&& q.errors@ == p.errors@
                                    &&& q.arch@ == arch
                                    &&& q.rebuild == set.rebuild
                                    &&& q.sha256@ == e.sha256@
                                    &&& q.relocate == Some(mode)
                                    &&& q.url@ == spec_download_url(
                                        c,
                                        p.name@,
                                        p.spec_version_full(),
                                        arch,
                                        set.rebuild,
                                        e.sha256@,
                                        e.url@,
                                    )
                                    &&& q.stage == Stage::UrlResolved
                                },
                            }
                        },
                    }
                }
            },
        }
    }
}

/// Resolve the bottle of a single package.
pub fn resolve_url_one(p: Package, f: Option<&Formula>, config: &Config) -> (q: Package)
    requires
        match f {
            Some(ff) => ff.wf(),
            None => true,
        },
    ensures
        url_resolved_rel(
            p,
            match f {
                Some(ff) => Some(*ff),
                None => None,
            },
            *config,
            q,
        ),
{
    let mut p = p;
    if !(matches!(p.stage, Stage::Resolved) && p.active()) {
        return p;
    }
    let ff = match f {
        Some(ff) => ff,
        None => {
            let ghost e0 = p.errors@;
            let e = Error::ChannelUnavailable { package: p.name.clone() };
            p.errors.push(e);
            proof {
                assert(p.errors@.subrange(0, e0.len() as int) =~= e0);
            }
            return p;
        },
    };
    let set = match ff.channel("stable") {
        Some(set) => set,
        None => {
            let ghost e0 = p.errors@;
            let e = Error::ChannelUnavailable { package: p.name.clone() };
            p.errors.push(e);
            proof {
                assert(p.errors@.subrange(0, e0.len() as int) =~= e0);
            }
            return p;
        },
    };
    let arch = match select_arch(set, config) {
        Some(arch) => arch,
        None => {
            let ghost e0 = p.errors@;
            let available = set.arch_names();
            let e = Error::NoBottleForTarget { package: p.name.clone(), available };
            p.errors.push(e);
            proof {
                assert(p.errors@.subrange(0, e0.len() as int) =~= e0);
            }
            return p;
        },
    };
    proof {
        lemma_select_arch_has(*set, arch_candidates(*config));
    }
    let entry = match set.entry(arch.as_str()) {
        Some(entry) => entry,
        None => {
            // Unreachable: the selected architecture is in the set.
            proof {
                assert(false);
            }
            let e = Error::ChannelUnavailable { package: p.name.clone() };
            p.errors.push(e);
            return p;
        },
    };
    let mode = match parse_relocate_mode(entry.cellar.as_str()) {
        Some(mode) => mode,
        None => {
            let ghost e0 = p.errors@;
            let e = Error::UnsupportedRelocation {
                package: p.name.clone(),
                cellar: entry.cellar.clone(),
            };
            p.errors.push(e);
            proof {
                assert(p.errors@.subrange(0, e0.len() as int) =~= e0);
            }
            return p;
        },
    };
    let url = if config.mirror_list.len() > 0 {
        let m = &config.mirror_list[0];
        if m.oci {
            build_oci_url(m.url.as_str(), p.name.as_str(), entry.sha256.as_str())
        } else {
            let vf = p.version_full();
            build_bottle_url(m.url.as_str(), p.name.as_str(), vf.as_str(), arch.as_str(), set.rebuild)
        }
    } else {
        entry.url.clone()
    };
    p.rebuild = set.rebuild;
    p.sha256 = entry.sha256.clone();
    p.relocate = Some(mode);
    p.arch = arch;
    p.url = url;
    p.stage = Stage::UrlResolved;
    p
}

/// Stage driver: resolve URLs across the whole registry. Packages not
/// at stage `Resolved`, or already stalled, are left untouched.
pub struct ResolveUrlSystem {
    /// Unused seed carried over from resolution; failures of this
    /// stage live on the packages themselves.
    pub names: Vec<String>,
    pub errors: Vec<Error>,
}

impl ResolveUrlSystem {
    pub fn run(&mut self, store: &FormulaStore, config: &Config, reg: &mut PackageRegistry)
        requires
            store.wf(),
            old(reg).wf(),
        ensures
            final(reg).wf(),
            final(reg)@.len() == old(reg)@.len(),
            forall|i: int|
                0 <= i < old(reg)@.len() ==> url_resolved_rel(
                    old(reg)@[i],
                    lookup_opt(*store, old(reg)@[i].name@),
                    *config,
                    #[trigger] final(reg)@[i],
                ),
            *final(self) == *old(self),
    {
        let n: usize = reg.packages.len();
        let ghost reg0 = reg@;
        let mut i: usize = 0;
        while i < n
            invariant
                i <= n,
                n == reg@.len(),
                reg0.len() == n,
                store.wf(),
                forall|j: int| i <= j < n ==> reg@[j] == reg0[j],
                forall|j: int|
                    0 <= j < i ==> url_resolved_rel(
                        reg0[j],
                        lookup_opt(*store, reg0[j].name@),
                        *config,
                        #[trigger] reg@[j],
                    ),
                forall|j: int| 0 <= j < n ==> (#[trigger] reg@[j]).name@ == reg0[j].name@,
            decreases n - i,
        {
            let ghost before = reg@;
            let p = reg.packages.remove(i);
            let fopt = store.lookup(p.name.as_str());
            let ghost pg = p;
            let q = resolve_url_one(p, fopt, config);
            reg.packages.insert(i, q);
            proof {
                assert(reg@ =~= before.update(i as int, q));
                assert(url_resolved_rel(
                    reg0[i as int],
                    lookup_opt(*store, reg0[i as int].name@),
                    *config,
                    q,
                ));
                assert(q.name@ == reg0[i as int].name@);
            }
            i += 1;
        }
        proof {
            assert forall|a: int, b: int| 0 <= a < b < reg@.len() implies reg@[a].name@
                != reg@[b].name@ by {
                assert(reg0[a].name@ != reg0[b].name@);
            }
            assert(reg.wf());
        }
    }
}


/// The bottle stage only moves a package forward in the stage order:
/// it advances to `UrlResolved` or stalls where it stands.
pub proof fn lemma_url_stage_monotone(p: Package, f: Option<Formula>, c: Config, q: Package)
    requires
        url_resolved_rel(p, f, c, q),
    ensures
        p.stage.rank() <= q.stage.rank(),
{
}

} // verus!
