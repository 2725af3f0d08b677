use rune_compiler::ast::{Path, Span};
use rune_compiler::deps::{
    dependencies, empty_dependency_detail, is_builtin, proc_block_dependency, DependencyConflict,
    DependencyDetail, PathError, PathErrorKind,
};
use rune_compiler::manifest::{generate_manifest, package, Edition, Resolver};

const REPO: &str = "https://github.com/hotg-ai/rune";

fn path(text: &str) -> Path {
    text.parse().unwrap()
}

#[test]
fn base_dependencies() {
    let got = dependencies(&Vec::new(), ".").unwrap();

    assert_eq!(got.len(), 5);
    assert!(got.contains_key("log"));
    assert!(got.contains_key("lazy_static"));
    assert!(got.contains_key("hotg-rune-core"));
    assert!(got.contains_key("hotg-rune-proc-blocks"));
    assert!(got.contains_key("hotg-runicos-base-wasm"));

    // All hotg dependencies should use the "nightly" tag from GitHub
    for (_, dep) in got.entries().iter().filter(|(key, _)| key.starts_with("hotg-")) {
        let DependencyDetail { version, path, git, branch, tag, rev, features } = dep;

        assert_eq!(git.as_deref(), Some(REPO));
        assert_eq!(tag.as_deref(), Some("nightly"));
        assert!(version.is_none());
        assert!(rev.is_none());
        assert!(features.is_empty());
        assert!(branch.is_none());
        assert!(path.is_none());
    }
}

#[test]
fn builtin_proc_blocks_always_use_nightly_tag() {
    let path = "hotg-ai/rune#proc_blocks/modulo".parse().unwrap();
    let should_be = DependencyDetail {
        git: Some(REPO.to_string()),
        tag: Some("nightly".to_string()),
        ..empty_dependency_detail()
    };

    let got = proc_block_dependency(&path, ".");

    assert_eq!(got, should_be);
}

#[test]
fn external_proc_block() {
    let path = "whatever@1.2".parse().unwrap();
    let should_be = DependencyDetail {
        version: Some("1.2".to_string()),
        ..empty_dependency_detail()
    };

    let got = proc_block_dependency(&path, ".");

    assert_eq!(got, should_be);
}

#[test]
fn manifest_generates_cdylib() {
    let got = generate_manifest(&Vec::new(), "foo", ".").unwrap();

    let crate_type = got.lib.unwrap().crate_type.unwrap();
    assert!(crate_type.contains(&String::from("cdylib")));
}

#[test]
fn manifest_is_in_its_own_workspace() {
    let got = generate_manifest(&Vec::new(), "foo", ".").unwrap();

    assert!(got.workspace.is_some());
}

#[test]
fn manifest_package_is_unpublished_at_zero() {
    let got = generate_manifest(&Vec::new(), "foo", ".").unwrap();
    let package = got.package.unwrap();
    assert_eq!(package.name, "foo");
    assert_eq!(package.version, "0.0.0");
    assert!(!package.publish);
    assert_eq!(package.edition, Edition::E2018);
    assert_eq!(package.resolver, Some(Resolver::V2));
    assert_eq!(got.lib.unwrap().path.as_deref(), Some("lib.rs"));
    assert_eq!(got.dependencies.len(), 5);
}

#[test]
fn package_fields() {
    let p = package("bar");
    assert_eq!(p.name, "bar");
    assert_eq!(p.version, "0.0.0");
    assert!(!p.publish);
}

#[test]
fn path_parts() {
    let p = path("hotg-ai/rune@v1.0#proc_blocks/modulo");
    assert_eq!(p.base, "hotg-ai/rune");
    assert_eq!(p.version.as_deref(), Some("v1.0"));
    assert_eq!(p.sub_path.as_deref(), Some("proc_blocks/modulo"));
    let q = path("normalize");
    assert_eq!(q.base, "normalize");
    assert!(q.version.is_none() && q.sub_path.is_none());
    let r = Path::parse("a@1", Span::new(3, 6)).unwrap();
    assert_eq!(r.span, Span::new(3, 6));
}

#[test]
fn path_format_errors() {
    let err = |text: &str, kind| PathError { kind, found: text.to_string() };
    assert_eq!("".parse::<Path>().unwrap_err(), err("", PathErrorKind::EmptyBase));
    assert_eq!("@1.0".parse::<Path>().unwrap_err(), err("@1.0", PathErrorKind::EmptyBase));
    assert_eq!("a@".parse::<Path>().unwrap_err(), err("a@", PathErrorKind::EmptyVersion));
    assert_eq!("a#".parse::<Path>().unwrap_err(), err("a#", PathErrorKind::EmptySubPath));
    assert_eq!("a@1@2".parse::<Path>().unwrap_err(), err("a@1@2", PathErrorKind::ExtraSeparator));
    assert_eq!("a#b#c".parse::<Path>().unwrap_err(), err("a#b#c", PathErrorKind::ExtraSeparator));
}

#[test]
fn builtin_pinned_for_any_version() {
    let expected = proc_block_dependency(&path("hotg-ai/rune"), ".");
    assert!(is_builtin(&path("hotg-ai/rune@0.5#x/y")));
    assert!(!is_builtin(&path("hotg-ai/runes")));
    assert_eq!(proc_block_dependency(&path("hotg-ai/rune@0.5#x/y"), "/tmp"), expected);
    assert_eq!(expected.git.as_deref(), Some(REPO));
    assert_eq!(expected.tag.as_deref(), Some("nightly"));
}

#[test]
fn local_paths_join_the_directory() {
    let got = proc_block_dependency(&path("./blocks/fft"), "/home/me");
    assert_eq!(
        got,
        DependencyDetail { path: Some("/home/me/./blocks/fft".to_string()), ..empty_dependency_detail() }
    );
    let got = proc_block_dependency(&path("../fft"), "/home/");
    assert_eq!(got.path.as_deref(), Some("/home/../fft"));
    let got = proc_block_dependency(&path(".x"), "");
    assert_eq!(got.path.as_deref(), Some(".x"));
}

#[test]
fn other_paths_come_from_git() {
    let got = proc_block_dependency(&path("someone/blocks@v2#fft"), ".");
    assert_eq!(
        got,
        DependencyDetail {
            git: Some("https://github.com/someone/blocks.git".to_string()),
            tag: Some("v2".to_string()),
            ..empty_dependency_detail()
        }
    );
    let got = proc_block_dependency(&path("fft"), ".");
    assert_eq!(got.git.as_deref(), Some("https://github.com/fft.git"));
    assert!(got.tag.is_none() && got.version.is_none());
}

#[test]
fn same_dependency_twice_is_one_entry() {
    let blocks = vec![
        ("fft".to_string(), path("fft@1.0")),
        ("mod".to_string(), path("hotg-ai/rune#proc_blocks/modulo")),
        ("fft".to_string(), path("fft@1.0")),
    ];
    let got = dependencies(&blocks, ".").unwrap();
    assert_eq!(got.len(), 7);
    assert_eq!(got.get("fft").unwrap().version.as_deref(), Some("1.0"));
}

#[test]
fn different_dependencies_under_one_name_conflict() {
    let blocks = vec![
        ("fft".to_string(), path("fft@1.0")),
        ("fft".to_string(), path("fft@2.0")),
    ];
    assert_eq!(
        dependencies(&blocks, ".").unwrap_err(),
        DependencyConflict { name: "fft".to_string() }
    );
    let blocks = vec![("log".to_string(), path("log@0.3"))];
    assert_eq!(
        generate_manifest(&blocks, "foo", ".").unwrap_err(),
        DependencyConflict { name: "log".to_string() }
    );
}
