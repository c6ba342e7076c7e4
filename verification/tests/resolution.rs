use pactree::bottle::{build_bottle_url, build_oci_url, select_arch, ResolveUrlSystem};
use pactree::config::{Config, Mirror};
use pactree::error::Error;
use pactree::formula::{BottleEntry, BottleSet, Channel, Formula, FormulaStore};
use pactree::package::{RelocateMode, Stage};
use pactree::pipeline::{run, Opts};

fn config_with(target: &str, fallbacks: Vec<&str>, mirrors: Vec<(&str, bool)>) -> Config {
    Config {
        target: target.to_string(),
        os_fallback: fallbacks.into_iter().map(|s| s.to_string()).collect(),
        mirror_list: mirrors
            .into_iter()
            .map(|(u, oci)| Mirror { url: u.to_string(), oci })
            .collect(),
        cache_dir: "/cache".to_string(),
        cellar_dir: "/cellar".to_string(),
        meta_dir: "/meta".to_string(),
        scripts_dir: "/scripts".to_string(),
        root_dir: "/prefix".to_string(),
    }
}

fn formula(name: &str, version: &str, deps: Vec<&str>, archs: Vec<&str>, sha: &str) -> Formula {
    Formula {
        name: name.to_string(),
        full_name: name.to_string(),
        version: version.to_string(),
        revision: 0,
        dependencies: deps.into_iter().map(|s| s.to_string()).collect(),
        channels: vec![Channel {
            name: "stable".to_string(),
            bottles: BottleSet {
                rebuild: 0,
                files: archs
                    .into_iter()
                    .map(|a| BottleEntry {
                        arch: a.to_string(),
                        url: format!("https://direct/{}.tar.gz", name),
                        sha256: sha.to_string(),
                        cellar: ":any_skip_relocation".to_string(),
                    })
                    .collect(),
            },
        }],
    }
}

#[test]
fn cyclic_dependencies_resolve_once() {
    let mut store = FormulaStore::new();
    assert!(store.add(formula("a", "1.0", vec!["b"], vec!["all"], "00")));
    assert!(store.add(formula("b", "1.0", vec!["a"], vec!["all"], "00")));
    let opts = Opts { skip_unpack: false, names: vec!["a".to_string()] };
    let out = run(opts, &store, &config_with("x86_64_linux", vec![], vec![]));
    assert_eq!(out.registry.len(), 2);
    assert!(out.registry.lookup("a").is_some());
    assert!(out.registry.lookup("b").is_some());
    assert!(out.errors.is_empty());
}

#[test]
fn self_dependency_resolves_once() {
    let mut store = FormulaStore::new();
    assert!(store.add(formula("loop_pkg", "2.0", vec!["loop_pkg"], vec!["all"], "00")));
    let opts = Opts { skip_unpack: false, names: vec!["loop_pkg".to_string()] };
    let out = run(opts, &store, &config_with("x86_64_linux", vec![], vec![]));
    assert_eq!(out.registry.len(), 1);
}

#[test]
fn unresolved_name_does_not_block_siblings() {
    let mut store = FormulaStore::new();
    assert!(store.add(formula("real", "1.0", vec![], vec!["all"], "00")));
    let opts = Opts {
        skip_unpack: false,
        names: vec!["ghost_pkg".to_string(), "real".to_string()],
    };
    let out = run(opts, &store, &config_with("x86_64_linux", vec![], vec![]));
    assert_eq!(out.registry.len(), 1);
    assert!(out.registry.lookup("real").is_some());
    assert_eq!(out.errors.len(), 1);
    assert!(matches!(&out.errors[0], Error::UnresolvedName { name } if name == "ghost_pkg"));
}

#[test]
fn arch_fallback_selects_all_wildcard() {
    let f = formula("foo", "1.0", vec![], vec!["all"], "00");
    let set = f.channel("stable").unwrap();
    let arch = select_arch(set, &config_with("arm64_linux", vec![], vec![]));
    assert_eq!(arch.as_deref(), Some("all"));
}

#[test]
fn arch_prefers_exact_target() {
    let f = formula("foo", "1.0", vec![], vec!["x86_64_linux", "all"], "00");
    let set = f.channel("stable").unwrap();
    let arch = select_arch(set, &config_with("x86_64_linux", vec![], vec![]));
    assert_eq!(arch.as_deref(), Some("x86_64_linux"));
}

#[test]
fn arch_uses_fallback_order() {
    let f = formula("foo", "1.0", vec![], vec!["monterey", "ventura"], "00");
    let set = f.channel("stable").unwrap();
    let arch = select_arch(set, &config_with("arm64", vec!["ventura", "monterey"], vec![]));
    assert_eq!(arch.as_deref(), Some("ventura"));
}

#[test]
fn no_bottle_for_target_is_reported() {
    let mut store = FormulaStore::new();
    assert!(store.add(formula("foo", "1.0", vec![], vec!["arm64_sonoma"], "00")));
    let opts = Opts { skip_unpack: false, names: vec!["foo".to_string()] };
    let out = run(opts, &store, &config_with("x86_64_linux", vec![], vec![]));
    let p = out.registry.lookup("foo").unwrap();
    assert_eq!(p.stage, Stage::Resolved);
    assert_eq!(p.errors.len(), 1);
    assert!(matches!(
        &p.errors[0],
        Error::NoBottleForTarget { package, available }
            if package == "foo" && available == &vec!["arm64_sonoma".to_string()]
    ));
}

#[test]
fn missing_stable_channel_is_reported() {
    let mut store = FormulaStore::new();
    let mut f = formula("foo", "1.0", vec![], vec!["all"], "00");
    f.channels[0].name = "head".to_string();
    assert!(store.add(f));
    let opts = Opts { skip_unpack: false, names: vec!["foo".to_string()] };
    let out = run(opts, &store, &config_with("x86_64_linux", vec![], vec![]));
    let p = out.registry.lookup("foo").unwrap();
    assert!(matches!(&p.errors[0], Error::ChannelUnavailable { package } if package == "foo"));
}

#[test]
fn unsupported_relocation_hint_is_reported() {
    let mut store = FormulaStore::new();
    let mut f = formula("foo", "1.0", vec![], vec!["all"], "00");
    f.channels[0].bottles.files[0].cellar = ":weird".to_string();
    assert!(store.add(f));
    let opts = Opts { skip_unpack: false, names: vec!["foo".to_string()] };
    let out = run(opts, &store, &config_with("x86_64_linux", vec![], vec![]));
    let p = out.registry.lookup("foo").unwrap();
    assert!(matches!(
        &p.errors[0],
        Error::UnsupportedRelocation { package, cellar } if package == "foo" && cellar == ":weird"
    ));
}

#[test]
fn oci_mirror_url_shape() {
    assert_eq!(
        build_oci_url("https://m/x", "foo", "abcd"),
        "https://m/x/foo/blobs/sha256:abcd"
    );
}

#[test]
fn oci_mirror_url_maps_at_to_slash() {
    assert_eq!(
        build_oci_url("https://m/x", "foo@1.2", "abcd"),
        "https://m/x/foo/1.2/blobs/sha256:abcd"
    );
}

#[test]
fn plain_mirror_url_with_rebuild() {
    let url = build_bottle_url("https://m/x", "foo", "1.0", "x86_64_linux", 2);
    assert_eq!(url, "https://m/x/foo-1.0.x86_64_linux.bottle.2.tar.gz");
    assert!(url.ends_with(".bottle.2.tar.gz"));
}

#[test]
fn plain_mirror_url_without_rebuild() {
    let url = build_bottle_url("https://m/x", "foo", "1.0", "all", 0);
    assert_eq!(url, "https://m/x/foo-1.0.all.bottle.tar.gz");
}

#[test]
fn resolved_url_uses_first_mirror() {
    let mut store = FormulaStore::new();
    assert!(store.add(formula("foo", "1.0", vec![], vec!["all"], "abcd")));
    let opts = Opts { skip_unpack: false, names: vec!["foo".to_string()] };
    let cfg = config_with("x86_64_linux", vec![], vec![("https://m/x", true)]);
    let out = run(opts, &store, &cfg);
    let p = out.registry.lookup("foo").unwrap();
    assert_eq!(p.stage, Stage::UrlResolved);
    assert_eq!(p.url, "https://m/x/foo/blobs/sha256:abcd");
    assert_eq!(p.relocate, Some(RelocateMode::Skip));
    assert_eq!(p.sha256, "abcd");
}

#[test]
fn resolved_url_falls_back_to_direct() {
    let mut store = FormulaStore::new();
    assert!(store.add(formula("foo", "1.0", vec![], vec!["all"], "abcd")));
    let opts = Opts { skip_unpack: false, names: vec!["foo".to_string()] };
    let out = run(opts, &store, &config_with("x86_64_linux", vec![], vec![]));
    let p = out.registry.lookup("foo").unwrap();
    assert_eq!(p.url, "https://direct/foo.tar.gz");
}

#[test]
fn version_full_appends_revision() {
    let mut store = FormulaStore::new();
    let mut f = formula("foo", "1.0", vec![], vec!["all"], "abcd");
    f.revision = 3;
    assert!(store.add(f));
    let opts = Opts { skip_unpack: false, names: vec!["foo".to_string()] };
    let cfg = config_with("x86_64_linux", vec![], vec![("https://m/x", false)]);
    let out = run(opts, &store, &cfg);
    let p = out.registry.lookup("foo").unwrap();
    assert_eq!(p.version_full(), "1.0_3");
    assert_eq!(p.url, "https://m/x/foo-1.0_3.all.bottle.tar.gz");
}

#[test]
fn duplicate_formula_names_are_refused() {
    let mut store = FormulaStore::new();
    assert!(store.add(formula("foo", "1.0", vec![], vec!["all"], "00")));
    assert!(!store.add(formula("foo", "2.0", vec![], vec!["all"], "00")));
    assert_eq!(store.len(), 1);
}
