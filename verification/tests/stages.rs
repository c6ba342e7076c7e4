use sha2::Digest;

use pactree::archive::{has_marker, VerifyArchives};
use pactree::checksum::verify_checksum;
use pactree::config::{Config, Mirror};
use pactree::download::{
    Download, DownloadEvent, DownloadPlan, DownloadTask, Transfer,
};
use pactree::error::Error;
use pactree::formula::{BottleEntry, BottleSet, Channel, Formula, FormulaStore};
use pactree::link::{compute_link_paths, link_one, LinkEvent, LinkPackages};
use pactree::meta::package_meta;
use pactree::package::Stage;
use pactree::pipeline::{run, Opts};
use pactree::postinstall::{post_install_env, HookEvent, PostInstall};
use pactree::relocate::{
    patch_path_field, relocate_one, BinaryField, FileInput, Relocate, RelocationEntry,
    RelocationPattern,
};
use pactree::size::{ResolveSize, SizeEvent};

fn sha_hex(data: &[u8]) -> String {
    let digest = sha2::Sha256::digest(data);
    let mut s = String::new();
    for b in digest {
        s.push_str(&format!("{:02x}", b));
    }
    s
}

#[test]
fn download_plan_reuses_existing_destination() {
    let task = DownloadTask::new(
        "https://m/a.tar.gz".to_string(),
        "/cache/a.tar.gz".to_string(),
        None,
    );
    assert!(!task.force);
    assert_eq!(task.plan(true), DownloadPlan::Reuse);
    let state = task.reuse_state(42);
    assert_eq!(state.current, 42);
    assert_eq!(state.max, 42);
    assert_eq!(task.plan(false), DownloadPlan::Fetch);
}

#[test]
fn download_run_reports_final_state() {
    let task = DownloadTask::new(
        "https://m/a.tar.gz".to_string(),
        "/cache/a.tar.gz".to_string(),
        None,
    );
    // Fast path: the existing length stands, no request.
    assert_eq!(
        task.run(true, 7, None).map(|s| (s.current, s.max)),
        Some((7, 7))
    );
    // Completed transfer: its counts stand.
    let mut t = Transfer::start(9, None);
    t.on_chunk(9);
    assert_eq!(
        task.run(false, 0, Some(&t)).map(|s| (s.current, s.max)),
        Some((9, 9))
    );
    // Transport failure: nothing to report.
    assert!(task.run(false, 0, None).is_none());
}

#[test]
fn marker_absence_is_detected() {
    let p = pactree::package::Package::new(
        "foo".to_string(),
        "foo".to_string(),
        "1.0".to_string(),
        0,
        true,
        vec![],
    );
    let entries = vec!["foo/1.0/bin/foo".to_string()];
    assert!(!has_marker(&entries, &p));
    let with_marker = vec!["foo/1.0/.brew/foo.rb".to_string()];
    assert!(has_marker(&with_marker, &p));
}

#[test]
fn forced_download_ignores_existing_destination() {
    let mut task = DownloadTask::new(
        "https://m/a.tar.gz".to_string(),
        "/cache/a.tar.gz".to_string(),
        None,
    );
    task.force(true);
    assert_eq!(task.plan(true), DownloadPlan::Fetch);
}

#[test]
fn interrupted_stream_leaves_destination_absent() {
    let mut t = Transfer::start(100, None);
    let ev = t.on_chunk(40);
    assert_eq!(ev.current, 40);
    assert_eq!(ev.max, 100);
    t.on_chunk(30);
    t.abort();
    assert_eq!(t.files.dest, None);
    assert_eq!(t.files.part, Some(70));
}

#[test]
fn committed_stream_renames_into_place() {
    let mut t = Transfer::start(0, None);
    t.on_chunk(10);
    t.on_chunk(10);
    let last = t.commit();
    assert_eq!(last.current, 20);
    assert_eq!(t.files.dest, Some(20));
    assert_eq!(t.files.part, None);
}

#[test]
fn checksum_mismatch_is_distinct() {
    let data = b"crafted archive".to_vec();
    let wrong = "ab".repeat(32);
    let r = verify_checksum("foo", &data, &wrong);
    assert!(matches!(
        r,
        Err(Error::ChecksumMismatch { ref package, ref expected })
            if package == "foo" && *expected == wrong
    ));
}

#[test]
fn checksum_match_passes() {
    let data = b"crafted archive".to_vec();
    let good = sha_hex(&data);
    assert!(verify_checksum("foo", &data, &good).is_ok());
}

#[test]
fn checksum_really_hashes() {
    // If the digest were the input handed back unchanged, hex of the
    // input would pass; it must not.
    let data: Vec<u8> = (0u8..32u8).collect();
    let mut identity_hex = String::new();
    for b in &data {
        identity_hex.push_str(&format!("{:02x}", b));
    }
    assert!(verify_checksum("foo", &data, &identity_hex).is_err());
}

#[test]
fn relocation_rewrites_text_and_is_idempotent() {
    let pattern = RelocationPattern {
        entries: vec![RelocationEntry {
            placeholder: b"@@PLACEHOLDER@@/opt".to_vec(),
            replacement: b"/usr/local/opt".to_vec(),
        }],
    };
    let text = b"prefix=@@PLACEHOLDER@@/opt\nlib=@@PLACEHOLDER@@/opt/lib\n".to_vec();
    let first = pattern.replace_text(&text).expect("placeholder present");
    let rendered = String::from_utf8(first.clone()).unwrap();
    assert_eq!(rendered, "prefix=/usr/local/opt\nlib=/usr/local/opt/lib\n");
    assert!(pattern.replace_text(&first).is_none());
}

#[test]
fn relocation_leaves_plain_text_alone() {
    let pattern = RelocationPattern {
        entries: vec![RelocationEntry {
            placeholder: b"@@PLACEHOLDER@@".to_vec(),
            replacement: b"/usr/local".to_vec(),
        }],
    };
    assert!(pattern.replace_text(&b"nothing to do".to_vec()).is_none());
}

#[test]
fn binary_field_patch_preserves_capacity() {
    let pattern = RelocationPattern {
        entries: vec![RelocationEntry {
            placeholder: b"@@P@@".to_vec(),
            replacement: b"/usr".to_vec(),
        }],
    };
    let field = BinaryField { data: b"@@P@@/lib/libz.so".to_vec(), capacity: 24 };
    let (patched, changed) = patch_path_field(&field, &pattern).unwrap();
    assert!(changed);
    assert_eq!(patched.len(), 24);
    assert!(patched.starts_with(b"/usr/lib/libz.so"));
    assert!(patched[16..].iter().all(|b| *b == 0));
}

#[test]
fn binary_field_overflow_is_an_error() {
    let pattern = RelocationPattern {
        entries: vec![RelocationEntry {
            placeholder: b"@@P@@".to_vec(),
            replacement: b"/very/long/install/prefix".to_vec(),
        }],
    };
    let field = BinaryField { data: b"@@P@@/lib".to_vec(), capacity: 10 };
    assert!(patch_path_field(&field, &pattern).is_err());
}

#[test]
fn link_paths_follow_convention() {
    let paths = compute_link_paths(
        "foo@1.2",
        true,
        false,
        &vec!["bin/foo".to_string()],
        &vec![
            "lib/libfoo.so".to_string(),
            "lib/pkgconfig".to_string(),
            "lib/cmake".to_string(),
        ],
        &vec!["lib/pkgconfig/foo.pc".to_string()],
        &vec![],
        &vec!["include/foo.h".to_string()],
        &vec!["etc/foo.conf".to_string()],
    );
    assert_eq!(
        paths,
        vec![
            "share/foo".to_string(),
            "bin/foo".to_string(),
            "lib/libfoo.so".to_string(),
            "lib/pkgconfig/foo.pc".to_string(),
            "include/foo.h".to_string(),
            "etc/foo.conf".to_string(),
        ]
    );
}

#[test]
fn post_install_environment_triple() {
    let env = post_install_env("/prefix", "/cellar/foo/1.0", "foo");
    assert_eq!(env.len(), 3);
    assert_eq!(env[0], ("PREFIX".to_string(), "/prefix".to_string()));
    assert_eq!(env[1], ("CELLAR".to_string(), "/cellar/foo/1.0".to_string()));
    assert_eq!(env[2], ("PKG_NAME".to_string(), "foo".to_string()));
}

fn one_formula_store(sha: &str) -> FormulaStore {
    let mut store = FormulaStore::new();
    let mk = |name: &str, deps: Vec<&str>| Formula {
        name: name.to_string(),
        full_name: name.to_string(),
        version: "1.0".to_string(),
        revision: 0,
        dependencies: deps.into_iter().map(|s| s.to_string()).collect(),
        channels: vec![Channel {
            name: "stable".to_string(),
            bottles: BottleSet {
                rebuild: 0,
                files: vec![BottleEntry {
                    arch: "all".to_string(),
                    url: format!("https://direct/{}.tar.gz", name),
                    sha256: sha.to_string(),
                    cellar: ":any".to_string(),
                }],
            },
        }],
    };
    assert!(store.add(mk("foo", vec!["bar"])));
    assert!(store.add(mk("bar", vec![])));
    store
}

#[test]
fn end_to_end_install_of_foo_and_bar() {
    let archive = b"stub archive bytes".to_vec();
    let sha = sha_hex(&archive);
    let store = one_formula_store(&sha);
    let config = Config {
        target: "x86_64_linux".to_string(),
        os_fallback: vec![],
        mirror_list: vec![Mirror { url: "https://m/x".to_string(), oci: false }],
        cache_dir: "/cache".to_string(),
        cellar_dir: "/cellar".to_string(),
        meta_dir: "/meta".to_string(),
        scripts_dir: "/scripts".to_string(),
        root_dir: "/prefix".to_string(),
    };

    // Resolution: dependencies and URLs.
    let out = run(
        Opts { skip_unpack: false, names: vec!["foo".to_string()] },
        &store,
        &config,
    );
    let mut reg = out.registry;
    assert_eq!(reg.len(), 2);
    for p in &reg.packages {
        assert_eq!(p.stage, Stage::UrlResolved);
    }

    // Size resolution, stubbed: a HEAD probe answered for each.
    let n = reg.len();
    let mut sizes = ResolveSize { errors: vec![] };
    let size_events: Vec<SizeEvent> = (0..n)
        .map(|_| SizeEvent::Response {
            success: true,
            content_length: Some("18".to_string()),
        })
        .collect();
    sizes.run(&mut reg, &size_events);
    for p in &reg.packages {
        assert_eq!(p.stage, Stage::SizeResolved);
        assert_eq!(p.size, 18);
        assert!(p.package_name.ends_with(".all.bottle.tar.gz"));
    }

    // Download, stubbed: both streams completed.
    let mut dl = Download { errors: vec![] };
    let dl_events: Vec<DownloadEvent> = (0..n)
        .map(|_| DownloadEvent::Fetched { received: 18, total: 18 })
        .collect();
    dl.run(&mut reg, &dl_events);
    for p in &reg.packages {
        assert_eq!(p.stage, Stage::Downloaded);
    }

    // Verification: checksum plus member validation.
    let entry_lists: Vec<Vec<String>> = reg
        .packages
        .iter()
        .map(|p| {
            vec![
                format!("{}/1.0/bin/{}", p.name, p.name),
                format!("{}/1.0/.brew/{}.rb", p.name, p.name),
            ]
        })
        .collect();
    let datas: Vec<Vec<u8>> = (0..n).map(|_| archive.clone()).collect();
    let mut ver = VerifyArchives { errors: vec![] };
    ver.run(&mut reg, &datas, &entry_lists);
    for p in &reg.packages {
        assert_eq!(p.stage, Stage::Verified);
        assert_eq!(p.files.len(), 2);
        assert!(p.errors.is_empty());
        assert!(has_marker(&p.files, p));
    }

    // Relocation: each package has one text file with a placeholder.
    let pattern = RelocationPattern {
        entries: vec![RelocationEntry {
            placeholder: b"@@PREFIX@@".to_vec(),
            replacement: b"/prefix".to_vec(),
        }],
    };
    let file_inputs: Vec<Vec<FileInput>> = reg
        .packages
        .iter()
        .map(|_| {
            vec![
                FileInput::Text { content: b"path=@@PREFIX@@/bin\n".to_vec() },
                FileInput::Other,
            ]
        })
        .collect();
    let mut reloc = Relocate { errors: vec![] };
    let actions = reloc.run(&mut reg, &pattern, &file_inputs);
    assert_eq!(actions.len(), 2);
    for p in &reg.packages {
        assert_eq!(p.stage, Stage::Relocated);
        assert_eq!(p.patched_text.len(), 1);
    }

    // Linking: one bin entry per package.
    let links: Vec<Vec<String>> = reg
        .packages
        .iter()
        .map(|p| {
            compute_link_paths(
                &p.name,
                false,
                false,
                &vec![format!("bin/{}", p.name)],
                &vec![],
                &vec![],
                &vec![],
                &vec![],
                &vec![],
            )
        })
        .collect();
    let link_events: Vec<Vec<LinkEvent>> =
        (0..n).map(|_| vec![LinkEvent::LinkedFile]).collect();
    let mut linker = LinkPackages { errors: vec![] };
    linker.run(&mut reg, &links, &link_events);
    for p in &reg.packages {
        assert_eq!(p.stage, Stage::Linked);
        assert!(!p.links.is_empty());
    }

    // Post-install: no scripts; both packages finish.
    let mut hooks = PostInstall { errors: vec![] };
    let hook_events: Vec<HookEvent> = (0..n).map(|_| HookEvent::NoScript).collect();
    hooks.run(&mut reg, &hook_events);
    assert_eq!(reg.len(), 2);
    assert!(reg.lookup("foo").is_some());
    assert!(reg.lookup("bar").is_some());
    for p in &reg.packages {
        assert_eq!(p.stage, Stage::Done);
        assert!(!p.links.is_empty());
        let m = package_meta(p);
        assert_eq!(m.links, p.links);
        assert_eq!(m.keg, format!("{}/1.0", p.name));
    }
}

#[test]
fn checksum_mismatch_blocks_extraction() {
    let archive = b"stub archive bytes".to_vec();
    let store = one_formula_store(&"ab".repeat(32));
    let config = Config {
        target: "x86_64_linux".to_string(),
        os_fallback: vec![],
        mirror_list: vec![],
        cache_dir: "/cache".to_string(),
        cellar_dir: "/cellar".to_string(),
        meta_dir: "/meta".to_string(),
        scripts_dir: "/scripts".to_string(),
        root_dir: "/prefix".to_string(),
    };
    let out = run(
        Opts { skip_unpack: false, names: vec!["bar".to_string()] },
        &store,
        &config,
    );
    let mut reg = out.registry;
    let mut sizes = ResolveSize { errors: vec![] };
    sizes.run(&mut reg, &vec![SizeEvent::Cached]);
    let mut dl = Download { errors: vec![] };
    dl.run(&mut reg, &vec![DownloadEvent::Reused { existing_len: 18 }]);
    let mut ver = VerifyArchives { errors: vec![] };
    ver.run(
        &mut reg,
        &vec![archive],
        &vec![vec!["bar/1.0/bin/bar".to_string()]],
    );
    let p = reg.lookup("bar").unwrap();
    assert_eq!(p.stage, Stage::Downloaded);
    assert!(p.files.is_empty());
    assert!(matches!(&p.errors[0], Error::ChecksumMismatch { package, .. } if package == "bar"));
    // The stalled package is skipped by the later stages.
    let mut reloc = Relocate { errors: vec![] };
    let acts = reloc.run(&mut reg, &RelocationPattern { entries: vec![] }, &vec![vec![]]);
    assert!(acts[0].is_empty());
    assert_eq!(reg.lookup("bar").unwrap().stage, Stage::Downloaded);
}

#[test]
fn stray_archive_member_is_advisory() {
    let archive = b"stub".to_vec();
    let sha = sha_hex(&archive);
    let store = one_formula_store(&sha);
    let config = Config {
        target: "x86_64_linux".to_string(),
        os_fallback: vec![],
        mirror_list: vec![],
        cache_dir: "/cache".to_string(),
        cellar_dir: "/cellar".to_string(),
        meta_dir: "/meta".to_string(),
        scripts_dir: "/scripts".to_string(),
        root_dir: "/prefix".to_string(),
    };
    let out = run(
        Opts { skip_unpack: false, names: vec!["bar".to_string()] },
        &store,
        &config,
    );
    let mut reg = out.registry;
    let mut sizes = ResolveSize { errors: vec![] };
    sizes.run(&mut reg, &vec![SizeEvent::NetworkError]);
    let p = reg.lookup("bar").unwrap();
    assert_eq!(p.stage, Stage::SizeResolved);
    assert!(matches!(&p.errors[0], Error::SizeProbeFailed { package } if package == "bar"));
    let mut dl = Download { errors: vec![] };
    dl.run(&mut reg, &vec![DownloadEvent::Fetched { received: 4, total: 0 }]);
    let mut ver = VerifyArchives { errors: vec![] };
    ver.run(
        &mut reg,
        &vec![archive],
        &vec![vec!["../../evil".to_string(), "bar/1.0/bin/bar".to_string()]],
    );
    let p = reg.lookup("bar").unwrap();
    assert_eq!(p.stage, Stage::Verified);
    assert!(p
        .errors
        .iter()
        .any(|e| matches!(e, Error::ArchiveInvalid { entry, .. } if entry == "../../evil")));
}

#[test]
fn relocation_io_failure_stalls_package() {
    let archive = b"stub".to_vec();
    let sha = sha_hex(&archive);
    let store = one_formula_store(&sha);
    let config = Config {
        target: "x86_64_linux".to_string(),
        os_fallback: vec![],
        mirror_list: vec![],
        cache_dir: "/cache".to_string(),
        cellar_dir: "/cellar".to_string(),
        meta_dir: "/meta".to_string(),
        scripts_dir: "/scripts".to_string(),
        root_dir: "/prefix".to_string(),
    };
    let out = run(
        Opts { skip_unpack: false, names: vec!["bar".to_string()] },
        &store,
        &config,
    );
    let mut reg = out.registry;
    let mut sizes = ResolveSize { errors: vec![] };
    sizes.run(&mut reg, &vec![SizeEvent::Cached]);
    let mut dl = Download { errors: vec![] };
    dl.run(&mut reg, &vec![DownloadEvent::Reused { existing_len: 4 }]);
    let mut ver = VerifyArchives { errors: vec![] };
    ver.run(&mut reg, &vec![archive], &vec![vec!["bar/1.0/etc/conf".to_string()]]);
    let pattern = RelocationPattern {
        entries: vec![RelocationEntry {
            placeholder: b"@@P@@".to_vec(),
            replacement: b"/p".to_vec(),
        }],
    };
    let mut reloc = Relocate { errors: vec![] };
    reloc.run(&mut reg, &pattern, &vec![vec![FileInput::IoError]]);
    let p = reg.lookup("bar").unwrap();
    assert_eq!(p.stage, Stage::Verified);
    assert!(matches!(
        p.errors.last().unwrap(),
        Error::RelocationFailed { package, file } if package == "bar" && file == "bar/1.0/etc/conf"
    ));
}

#[test]
fn link_failure_and_hook_failure_are_recorded() {
    let p = pactree::package::Package::new(
        "foo".to_string(),
        "foo".to_string(),
        "1.0".to_string(),
        0,
        true,
        vec![],
    );
    let mut p = p;
    p.stage = Stage::Relocated;
    let q = link_one(
        p,
        &vec!["bin/foo".to_string(), "bin/bar".to_string()],
        &vec![LinkEvent::LinkedDir, LinkEvent::Failed],
    );
    assert_eq!(q.stage, Stage::Relocated);
    assert_eq!(q.links, vec!["bin/foo/".to_string()]);
    assert!(matches!(
        q.errors.last().unwrap(),
        Error::LinkFailed { package, link } if package == "foo" && link == "bin/bar"
    ));

    let mut h = pactree::package::Package::new(
        "foo".to_string(),
        "foo".to_string(),
        "1.0".to_string(),
        0,
        true,
        vec![],
    );
    h.stage = Stage::Linked;
    let h2 = pactree::postinstall::post_install_one(h, HookEvent::Failed);
    assert_eq!(h2.stage, Stage::Linked);
    assert!(matches!(
        h2.errors.last().unwrap(),
        Error::PostInstallFailed { package } if package == "foo"
    ));
}

#[test]
fn download_failure_keeps_transport_error_distinct() {
    let mut p = pactree::package::Package::new(
        "foo".to_string(),
        "foo".to_string(),
        "1.0".to_string(),
        0,
        true,
        vec![],
    );
    p.stage = Stage::SizeResolved;
    let q = pactree::download::download_one(
        p,
        &DownloadEvent::Failed { cause: "connection reset".to_string() },
    );
    assert_eq!(q.stage, Stage::SizeResolved);
    assert!(matches!(
        q.errors.last().unwrap(),
        Error::DownloadFailed { package, cause }
            if package == "foo" && cause == "connection reset"
    ));
}

#[test]
fn relocate_mode_skip_bypasses_rewriting() {
    let mut p = pactree::package::Package::new(
        "foo".to_string(),
        "foo".to_string(),
        "1.0".to_string(),
        0,
        true,
        vec![],
    );
    p.stage = Stage::Verified;
    p.relocate = Some(pactree::package::RelocateMode::Skip);
    p.files = vec!["foo/1.0/bin/foo".to_string()];
    let pattern = RelocationPattern { entries: vec![] };
    let (q, actions) = relocate_one(p, &pattern, &vec![FileInput::Other]);
    assert_eq!(q.stage, Stage::Relocated);
    assert!(actions.is_empty());
    assert!(q.patched_text.is_empty());
    assert!(q.patched_binaries.is_empty());
}
